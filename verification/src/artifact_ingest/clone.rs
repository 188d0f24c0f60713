//! What a checkout walk reads as text, and where a checkout lives.

use vstd::prelude::*;

use crate::text::{chars_of, is_alnum, is_alnum_char, lex_lt, lower_seq, opt_view, seq_lt, str_eq, string_of, to_lower};

verus! {

/// One file discovered in the checkout.
#[derive(Debug, Clone)]
pub struct WalkedFile {
    /// Repo-relative POSIX path, e.g. `src/main.rs`.
    pub path: String,
    /// Size in bytes on disk.
    pub size: u64,
    /// UTF-8 content for text files under the size caps; `None` for
    /// binaries, oversized files, or once the total text budget is spent.
    pub text: Option<String>,
}

/// What a walk of a checkout found, and whether that is every file in it.
#[derive(Debug, Clone)]
pub struct Walk {
    pub files: Vec<WalkedFile>,
    pub complete: bool,
}

/// What a re-sync did to the shared checkout before reading it.
#[derive(Debug, Clone, PartialEq, Eq)]
pub enum CheckoutUpdate {
    /// Already at the remote's tip, or it tracks no branch of `origin`.
    Current,
    /// Fast-forwarded from one commit to the other.
    Advanced { from: String, to: String },
    /// Left where it is, and read as it stands; the reason is for the
    /// sync's report.
    Kept { reason: String },
}

/// Extensions read as text. Everything else is treated as binary.
pub const TEXT_EXT: [&'static str; 67] = [
    "md", "markdown", "txt", "rst", "adoc", "org", "rs", "ts", "tsx", "js", "jsx", "mjs", "cjs",
    "py", "go", "java", "kt", "kts", "rb", "php", "cs", "c", "h", "cpp", "hpp", "cc", "scala",
    "swift", "sh", "bash", "zsh", "ps1", "sql", "html", "htm", "css", "scss", "less", "json",
    "jsonc", "jsonl", "yaml", "yml", "toml", "ini", "cfg", "conf", "env", "properties", "xml",
    "csv", "tsv", "graphql", "proto", "dockerfile", "makefile", "gradle", "tf", "hcl", "lua", "r",
    "jl", "vue", "svelte", "astro", "gitignore", "editorconfig",
];

/// File names with no extension that are read as text.
pub const TEXT_NAMES: [&'static str; 6] = [
    "dockerfile", "makefile", "readme", "license", "notice", "changelog",
];

/// What `std::path::Path::extension` gives for this path, as text.
pub uninterp spec fn path_extension(path: Seq<char>) -> Option<Seq<char>>;

/// What `std::path::Path::file_name` gives for this path, as text.
pub uninterp spec fn path_file_name(path: Seq<char>) -> Option<Seq<char>>;

/// `Path::new(path).extension()`, as text. The result is named: it is
/// `path_extension` of the path.
#[verifier::external_body]
fn extension_of(path: &str) -> (out: Option<String>)
    ensures
        opt_view(out) == path_extension(path@),
{
    std::path::Path::new(path).extension().and_then(|e| e.to_str()).map(|e| e.to_owned())
}

/// `Path::new(path).file_name()`, as text. The result is named: it is
/// `path_file_name` of the path.
#[verifier::external_body]
fn file_name_of(path: &str) -> (out: Option<String>)
    ensures
        opt_view(out) == path_file_name(path@),
{
    std::path::Path::new(path).file_name().and_then(|n| n.to_str()).map(|n| n.to_owned())
}

pub open spec fn in_list(list: Seq<&'static str>, s: Seq<char>) -> bool {
    exists|i: int| 0 <= i < list.len() && #[trigger] list[i]@ == s
}

/// A path read as text: by its extension, ASCII case ignored, or, when it
/// has none, by a well-known extension-less file name.
pub open spec fn is_text_path_of(path: Seq<char>) -> bool {
    match path_extension(path) {
        Some(e) => in_list(TEXT_EXT@, lower_seq(e)),
        None => match path_file_name(path) {
            Some(n) => in_list(TEXT_NAMES@, lower_seq(n)),
            None => false,
        },
    }
}

fn lower_string(s: &String) -> (out: String)
    ensures
        out@ == lower_seq(s@),
{
    let v = chars_of(s.as_str());
    let mut out: Vec<char> = Vec::new();
    let n = v.len();
    for i in 0..n
        invariant
            n == v@.len(),
            v@ == s@,
            out@ == lower_seq(v@.take(i as int)),
    {
        out.push(to_lower(v[i]));
        proof {
            assert(lower_seq(v@.take(i + 1)) =~= lower_seq(v@.take(i as int)).push(crate::text::lower(v@[i as int])));
        }
    }
    proof {
        assert(v@.take(n as int) == v@);
    }
    string_of(&out)
}

fn listed<const N: usize>(list: &[&'static str; N], s: &String) -> (r: bool)
    ensures
        r == in_list(list@, s@),
{
    for i in 0..N
        invariant
            N == list@.len(),
            forall|k: int| 0 <= k < i ==> #[trigger] list@[k]@ != s@,
    {
        if str_eq(list[i], s.as_str()) {
            return true;
        }
    }
    false
}

/// Match by extension, or by well-known extension-less file names.
pub fn is_text_path(path: &str) -> (r: bool)
    ensures
        r == is_text_path_of(path@),
{
    match extension_of(path) {
        Some(e) => {
            let e = lower_string(&e);
            listed(&TEXT_EXT, &e)
        },
        None => match file_name_of(path) {
            Some(n) => {
                let n = lower_string(&n);
                listed(&TEXT_NAMES, &n)
            },
            None => false,
        },
    }
}

/// Each character kept when it is an ASCII letter or digit, `_` otherwise.
pub open spec fn sanitized(s: Seq<char>) -> Seq<char> {
    s.map_values(|c: char| if is_alnum(c) { c } else { '_' })
}

/// A filesystem-safe directory name for one connection and repository, so
/// two connections to the same host stay on separate checkouts.
pub open spec fn checkout_key_of(connector_id: Seq<char>, repo_full_path: Seq<char>) -> Seq<char> {
    sanitized(connector_id) + "__"@ + sanitized(repo_full_path)
}

fn sanitize_into(out: &mut Vec<char>, s: &str)
    ensures
        final(out)@ == old(out)@ + sanitized(s@),
{
    let v = chars_of(s);
    let n = v.len();
    let ghost start = out@;
    for i in 0..n
        invariant
            n == v@.len(),
            v@ == s@,
            out@ == start + sanitized(v@.take(i as int)),
    {
        let c = v[i];
        out.push(if is_alnum_char(c) { c } else { '_' });
        proof {
            assert(sanitized(v@.take(i + 1)) =~= sanitized(v@.take(i as int)).push(if is_alnum(c) { c } else { '_' }));
        }
    }
    proof {
        assert(v@.take(n as int) == v@);
    }
}

pub fn checkout_key(connector_id: &str, repo_full_path: &str) -> (out: String)
    ensures
        out@ == checkout_key_of(connector_id@, repo_full_path@),
{
    let mut out: Vec<char> = Vec::new();
    sanitize_into(&mut out, connector_id);
    crate::text::push_str(&mut out, "__");
    sanitize_into(&mut out, repo_full_path);
    string_of(&out)
}

/// The most files one walk records.
pub const MAX_FILES: usize = 10000;

/// The largest file whose text a walk reads.
pub const MAX_TEXT_BYTES: u64 = 262144;

/// How much text one walk reads in all.
pub const MAX_TOTAL_TEXT_BYTES: u64 = 25165824;

/// What a walk has spent so far: files recorded, and text it may still read.
#[derive(Debug, Clone, Copy, PartialEq, Eq)]
pub struct WalkBudget {
    pub files: usize,
    pub text_left: u64,
}

impl WalkBudget {
    /// A walk that has recorded nothing.
    pub fn new() -> (out: WalkBudget)
        ensures
            out.files == 0,
            out.text_left == MAX_TOTAL_TEXT_BYTES,
    {
        WalkBudget { files: 0, text_left: MAX_TOTAL_TEXT_BYTES }
    }

    /// Whether the walk has recorded as many files as it may; it stops at the
    /// next entry, and is then not complete.
    pub fn is_full(&self) -> (r: bool)
        ensures
            r == (self.files >= MAX_FILES),
    {
        self.files >= MAX_FILES
    }

    /// Whether a file's text is read: a text path, not over the per-file cap,
    /// and within what is left of the walk's text budget.
    pub fn wants_text(&self, path: &str, size: u64) -> (r: bool)
        ensures
            r == (is_text_path_of(path@) && size <= MAX_TEXT_BYTES && self.text_left >= size),
    {
        is_text_path(path) && size <= MAX_TEXT_BYTES && self.text_left >= size
    }

    /// One file recorded, its text read or not.
    pub fn record(&mut self, size: u64, text_read: bool)
        requires
            old(self).files < MAX_FILES,
            text_read ==> size <= old(self).text_left,
        ensures
            final(self).files == old(self).files + 1,
            final(self).text_left == if text_read {
                old(self).text_left - size
            } else {
                old(self).text_left as int
            },
            final(self).text_left <= old(self).text_left,
    {
        self.files = self.files + 1;
        if text_read {
            self.text_left = self.text_left - size;
        }
    }
}

pub struct WalkedFileV {
    pub path: Seq<char>,
    pub size: u64,
    pub text: Option<Seq<char>>,
}

impl View for WalkedFile {
    type V = WalkedFileV;

    open spec fn view(&self) -> WalkedFileV {
        WalkedFileV { path: self.path@, size: self.size, text: opt_view(self.text) }
    }
}

pub open spec fn walked_views(v: Seq<WalkedFile>) -> Seq<WalkedFileV> {
    v.map_values(|f: WalkedFile| f@)
}

/// Where `x` goes among files already in path order: before the first whose
/// path is greater, so files with equal paths keep their order.
pub open spec fn path_insert_at(s: Seq<WalkedFileV>, x: WalkedFileV) -> int
    decreases s.len(),
{
    if s.len() == 0 {
        0
    } else if seq_lt(x.path, s[0].path) {
        0
    } else {
        1 + path_insert_at(s.drop_first(), x)
    }
}

/// The files in path order, a stable sort.
pub open spec fn sort_by_path(s: Seq<WalkedFileV>) -> Seq<WalkedFileV>
    decreases s.len(),
{
    if s.len() == 0 {
        s
    } else {
        let sorted = sort_by_path(s.drop_last());
        sorted.insert(path_insert_at(sorted, s.last()), s.last())
    }
}

proof fn lemma_path_insert_at_bounds(s: Seq<WalkedFileV>, x: WalkedFileV)
    ensures
        0 <= path_insert_at(s, x) <= s.len(),
    decreases s.len(),
{
    if s.len() > 0 {
        lemma_path_insert_at_bounds(s.drop_first(), x);
    }
}

proof fn lemma_sort_by_path_len(s: Seq<WalkedFileV>)
    ensures
        sort_by_path(s).len() == s.len(),
    decreases s.len(),
{
    if s.len() > 0 {
        lemma_sort_by_path_len(s.drop_last());
        lemma_path_insert_at_bounds(sort_by_path(s.drop_last()), s.last());
    }
}

/// The walk's files in path order, files with equal paths kept in the
/// order they were found: a walk of an unchanged checkout lists its files
/// the same way every time.
pub fn sorted_by_path(files: Vec<WalkedFile>) -> (out: Vec<WalkedFile>)
    ensures
        walked_views(out@) == sort_by_path(walked_views(files@)),
{
    let ghost all = walked_views(files@);
    let mut rest = files;
    let mut out: Vec<WalkedFile> = Vec::new();
    let mut taken: usize = 0;
    let total = rest.len();
    while rest.len() > 0
        invariant
            total == all.len(),
            taken + rest@.len() == all.len(),
            walked_views(rest@) == all.skip(taken as int),
            walked_views(out@) == sort_by_path(all.take(taken as int)),
        decreases rest@.len(),
    {
        let ghost before_rest = rest@;
        let x = rest.remove(0);
        proof {
            assert(walked_views(before_rest)[0] == x@);
            assert(all.skip(taken as int)[0] == all[taken as int]);
            assert(walked_views(rest@) =~= walked_views(before_rest).drop_first());
            assert(all.skip(taken + 1) =~= all.skip(taken as int).drop_first());
        }
        let ghost sorted = walked_views(out@);
        let xp = chars_of(x.path.as_str());
        let mut k: usize = 0;
        proof {
            assert(sorted.skip(0) == sorted);
        }
        while k < out.len()
            invariant
                0 <= k <= out@.len(),
                sorted == walked_views(out@),
                xp@ == x.path@,
                path_insert_at(sorted, x@) == k + path_insert_at(sorted.skip(k as int), x@),
            ensures
                path_insert_at(sorted, x@) == k,
            decreases out@.len() - k,
        {
            proof {
                assert(sorted.skip(k as int)[0] == out@[k as int]@);
                assert(sorted.skip(k as int).drop_first() == sorted.skip(k + 1));
            }
            if lex_lt(&xp, &chars_of(out[k].path.as_str())) {
                break;
            }
            k += 1;
        }
        let ghost xv = x@;
        out.insert(k, x);
        proof {
            assert(all.take(taken + 1).drop_last() == all.take(taken as int));
            assert(all.take(taken + 1).last() == xv);
            assert(walked_views(out@) =~= sorted.insert(k as int, xv));
        }
        taken = taken + 1;
    }
    proof {
        assert(all.take(taken as int) == all);
    }
    out
}

} // verus!
