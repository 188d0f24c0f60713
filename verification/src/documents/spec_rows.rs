//! What a project has of each document, however it got there: authored in
//! Studio, or already in the repository and bound to a type by a sync. Both
//! are merged into one list here, with the difference kept as a column.

use vstd::prelude::*;
use vstd::utf8::encode_utf8;

use crate::artifact_ingest::activity::{parse_rfc3339_ms, rfc3339_ms};

use crate::text::{
    chars_of, is_blank, leaf, leaf_of, lex_lt, opt_view, push_str, seq_lt, str_eq, string_of, trim,
};

verus! {

/// Where a row's bytes live.
#[derive(Debug, Clone, Copy, PartialEq, Eq, Structural)]
pub enum Origin {
    Repository,
    Authored,
}

pub open spec fn origin_name(o: Origin) -> Seq<char> {
    match o {
        Origin::Repository => "repository"@,
        Origin::Authored => "authored"@,
    }
}

impl Origin {
    pub fn as_str(self) -> (s: &'static str)
        ensures
            s@ == origin_name(self),
    {
        match self {
            Origin::Repository => "repository",
            Origin::Authored => "authored",
        }
    }
}

/// A binding's state, as the fold needs to read it.
#[derive(Debug, Clone, Copy, PartialEq, Eq, Structural)]
pub enum BindingState {
    Detected,
    Confirmed,
    Manual,
    Unknown,
    NotADocument,
}

pub open spec fn binding_state_name(s: BindingState) -> Seq<char> {
    match s {
        BindingState::Detected => "detected"@,
        BindingState::Confirmed => "confirmed"@,
        BindingState::Manual => "manual"@,
        BindingState::Unknown => "unknown"@,
        BindingState::NotADocument => "not_a_document"@,
    }
}

pub open spec fn binding_state_of(value: Seq<char>) -> Option<BindingState> {
    if value == "detected"@ {
        Some(BindingState::Detected)
    } else if value == "confirmed"@ {
        Some(BindingState::Confirmed)
    } else if value == "manual"@ {
        Some(BindingState::Manual)
    } else if value == "unknown"@ {
        Some(BindingState::Unknown)
    } else if value == "not_a_document"@ {
        Some(BindingState::NotADocument)
    } else {
        None
    }
}

/// Does this state name a type somebody actually decided on?
pub open spec fn is_settled(s: BindingState) -> bool {
    s == BindingState::Confirmed || s == BindingState::Manual
}

impl BindingState {
    pub fn parse(value: &str) -> (r: Option<Self>)
        ensures
            r == binding_state_of(value@),
    {
        if str_eq(value, "detected") {
            Some(BindingState::Detected)
        } else if str_eq(value, "confirmed") {
            Some(BindingState::Confirmed)
        } else if str_eq(value, "manual") {
            Some(BindingState::Manual)
        } else if str_eq(value, "unknown") {
            Some(BindingState::Unknown)
        } else if str_eq(value, "not_a_document") {
            Some(BindingState::NotADocument)
        } else {
            None
        }
    }

    pub fn as_str(self) -> (s: &'static str)
        ensures
            s@ == binding_state_name(self),
    {
        match self {
            BindingState::Detected => "detected",
            BindingState::Confirmed => "confirmed",
            BindingState::Manual => "manual",
            BindingState::Unknown => "unknown",
            BindingState::NotADocument => "not_a_document",
        }
    }

    /// Does this state name a type somebody actually decided on?
    fn settled(self) -> (r: bool)
        ensures
            r == is_settled(self),
    {
        match self {
            BindingState::Confirmed | BindingState::Manual => true,
            _ => false,
        }
    }
}

/// Every state reads back as itself: `parse` undoes `as_str`.
pub proof fn law_binding_state_round_trip(s: BindingState)
    ensures
        binding_state_of(binding_state_name(s)) == Some(s),
{
    reveal_strlit("detected");
    reveal_strlit("confirmed");
    reveal_strlit("manual");
    reveal_strlit("unknown");
    reveal_strlit("not_a_document");
    assert("detected"@.len() == 8);
    assert("confirmed"@.len() == 9);
    assert("manual"@.len() == 6);
    assert("unknown"@.len() == 7);
    assert("not_a_document"@.len() == 14);
    assert("detected"@ != "confirmed"@);
    assert("detected"@ != "manual"@);
    assert("detected"@ != "unknown"@);
    assert("detected"@ != "not_a_document"@);
    assert("confirmed"@ != "manual"@);
    assert("confirmed"@ != "unknown"@);
    assert("confirmed"@ != "not_a_document"@);
    assert("manual"@ != "unknown"@);
    assert("manual"@ != "not_a_document"@);
    assert("unknown"@ != "not_a_document"@);
}

/// A repository file bound to a type, as the fold reads it.
#[derive(Debug, Clone)]
pub struct Binding {
    pub id: String,
    pub node_id: String,
    pub path: String,
    pub type_key: Option<String>,
    pub state: BindingState,
    pub conforms: Option<bool>,
    pub updated_at: String,
}

/// A document written in Studio, as the fold reads it.
#[derive(Debug, Clone)]
pub struct Authored {
    pub id: String,
    pub title: String,
    pub type_key: Option<String>,
    /// `draft` | `review` | `approved`.
    pub status: String,
    pub conforms: Option<bool>,
    pub updated_at: String,
}

/// A file the sync ingested that nothing has classified yet.
#[derive(Debug, Clone)]
pub struct Candidate {
    pub node_id: String,
    pub path: String,
}

/// One row of the list, whatever it came from.
#[derive(Debug, Clone, PartialEq, Eq)]
pub struct SpecRow {
    /// Unique across all three kinds: the binding id, the document id, or the
    /// candidate's node prefixed so it cannot collide with either.
    pub id: String,
    pub origin: Origin,
    /// What to show in the Name column.
    pub name: String,
    /// Repo-relative path for a repository file; empty for an authored one.
    pub path: String,
    /// `None` when nothing has decided a type yet.
    pub type_key: Option<String>,
    /// Graph node id for a repository row.
    pub node_id: Option<String>,
    /// The binding's state; an authored document has none.
    pub state: Option<BindingState>,
    /// Editorial status for an authored row; `None` otherwise.
    pub status: Option<String>,
    /// The last validation verdict, from whichever record holds it.
    pub conforms: Option<bool>,
    pub updated_at: String,
    /// The repository the file came from; empty for an authored row.
    pub repo: String,
}

/// A row as the contracts read it.
#[verifier::ext_equal]
pub struct SpecRowV {
    pub id: Seq<char>,
    pub origin: Origin,
    pub name: Seq<char>,
    pub path: Seq<char>,
    pub type_key: Option<Seq<char>>,
    pub node_id: Option<Seq<char>>,
    pub state: Option<BindingState>,
    pub status: Option<Seq<char>>,
    pub conforms: Option<bool>,
    pub updated_at: Seq<char>,
    pub repo: Seq<char>,
}

impl View for SpecRow {
    type V = SpecRowV;

    open spec fn view(&self) -> SpecRowV {
        SpecRowV {
            id: self.id@,
            origin: self.origin,
            name: self.name@,
            path: self.path@,
            type_key: opt_view(self.type_key),
            node_id: opt_view(self.node_id),
            state: self.state,
            status: opt_view(self.status),
            conforms: self.conforms,
            updated_at: self.updated_at@,
            repo: self.repo@,
        }
    }
}

/// The queues the filter chips offer.
#[derive(Debug, Clone, Copy, PartialEq, Eq, Structural)]
pub enum Filter {
    NotScanned,
    NeedsReview,
    Bound,
    NotDocuments,
    All,
}

pub open spec fn filter_name(f: Filter) -> Seq<char> {
    match f {
        Filter::NotScanned => "not-scanned"@,
        Filter::NeedsReview => "needs-review"@,
        Filter::Bound => "bound"@,
        Filter::NotDocuments => "not-documents"@,
        Filter::All => "all"@,
    }
}

/// Every queue except `All`, which is the total rather than a queue.
pub open spec fn queue_seq() -> Seq<Filter> {
    seq![Filter::NotScanned, Filter::NeedsReview, Filter::Bound, Filter::NotDocuments]
}

impl Filter {
    /// Every queue except `All`, which is the total rather than a queue.
    pub const QUEUES: [Filter; 4] = [
        Filter::NotScanned,
        Filter::NeedsReview,
        Filter::Bound,
        Filter::NotDocuments,
    ];

    pub fn as_str(self) -> (s: &'static str)
        ensures
            s@ == filter_name(self),
    {
        match self {
            Filter::NotScanned => "not-scanned",
            Filter::NeedsReview => "needs-review",
            Filter::Bound => "bound",
            Filter::NotDocuments => "not-documents",
            Filter::All => "all",
        }
    }
}

/// Does a row with this origin and state belong in that queue?
pub open spec fn in_queue(origin: Origin, state: Option<BindingState>, filter: Filter) -> bool {
    match filter {
        Filter::NotScanned => origin == Origin::Repository && state is None,
        Filter::NeedsReview => origin == Origin::Repository && (state == Some(
            BindingState::Detected,
        ) || state == Some(BindingState::Unknown)),
        Filter::Bound => origin == Origin::Authored || state == Some(BindingState::Confirmed)
            || state == Some(BindingState::Manual),
        Filter::NotDocuments => state == Some(BindingState::NotADocument),
        Filter::All => true,
    }
}

/// Does this row belong in that queue?
pub fn in_filter(row: &SpecRow, filter: Filter) -> (r: bool)
    ensures
        r == in_queue(row.origin, row.state, filter),
{
    match filter {
        Filter::NotScanned => row.origin == Origin::Repository && row.state.is_none(),
        Filter::NeedsReview => row.origin == Origin::Repository && match row.state {
            Some(BindingState::Detected) | Some(BindingState::Unknown) => true,
            _ => false,
        },
        Filter::Bound => row.origin == Origin::Authored || match row.state {
            Some(BindingState::Confirmed) | Some(BindingState::Manual) => true,
            _ => false,
        },
        Filter::NotDocuments => match row.state {
            Some(BindingState::NotADocument) => true,
            _ => false,
        },
        Filter::All => true,
    }
}

/// The queues a row with this origin and state is in, in queue order.
pub open spec fn queues_spec(origin: Origin, state: Option<BindingState>) -> Seq<Filter> {
    queue_seq().filter(|f: Filter| in_queue(origin, state, f))
}

/// Which queues a row is in. `All` is never among them.
pub fn queues_of(row: &SpecRow) -> (out: Vec<Filter>)
    ensures
        out@ == queues_spec(row.origin, row.state),
{
    let queues = Filter::QUEUES;
    let mut out: Vec<Filter> = Vec::new();
    let ghost qs = queue_seq();
    assert(queues@ == qs);
    for k in 0..4
        invariant
            queues@ == qs,
            out@ == qs.take(k as int).filter(|f: Filter| in_queue(row.origin, row.state, f)),
    {
        let f = queues[k];
        proof {
            assert(qs.take(k + 1).drop_last() == qs.take(k as int));
            reveal_with_fuel(Seq::filter, 1);
        }
        if in_filter(row, f) {
            out.push(f);
        }
    }
    assert(qs.take(4) == qs);
    out
}

/// How many rows sit in a queue.
pub open spec fn count_in(rows: Seq<SpecRow>, f: Filter) -> nat
    decreases rows.len(),
{
    if rows.len() == 0 {
        0
    } else {
        count_in(rows.drop_last(), f) + if in_queue(rows.last().origin, rows.last().state, f) {
            1nat
        } else {
            0nat
        }
    }
}

/// Count each queue once, so the chips and the list cannot disagree: one
/// entry per queue in queue order, each the number of rows in it, then `All`
/// with every row.
pub fn counts(rows: &[SpecRow]) -> (out: Vec<(Filter, u32)>)
    requires
        rows@.len() <= u32::MAX,
    ensures
        out@.len() == 5,
        forall|k: int| 0 <= k < 4 ==> #[trigger] out@[k] == (queue_seq()[k], count_in(rows@, queue_seq()[k]) as u32),
        out@[4] == (Filter::All, rows@.len() as u32),
{
    let queues = Filter::QUEUES;
    let ghost qs = queue_seq();
    assert(queues@ == qs);
    let mut out: Vec<(Filter, u32)> = Vec::new();
    for k in 0..4
        invariant
            queues@ == qs,
            out@.len() == k,
            forall|m: int| 0 <= m < k ==> #[trigger] out@[m] == (qs[m], 0u32),
    {
        out.push((queues[k], 0));
    }
    let n = rows.len();
    for i in 0..n
        invariant
            n == rows@.len(),
            n <= u32::MAX,
            out@.len() == 4,
            forall|m: int| 0 <= m < 4 ==> #[trigger] out@[m] == (qs[m], count_in(rows@.take(i as int), qs[m]) as u32),
            forall|m: int| 0 <= m < 4 ==> count_in(rows@.take(i as int), #[trigger] qs[m]) <= i,
    {
        let row = &rows[i];
        proof {
            assert(rows@.take(i + 1).drop_last() == rows@.take(i as int));
        }
        for k in 0..4
            invariant
                n == rows@.len(),
                i < n <= u32::MAX,
                row == rows@[i as int],
                out@.len() == 4,
                rows@.take(i + 1).drop_last() == rows@.take(i as int),
                forall|m: int| 0 <= m < k ==> #[trigger] out@[m] == (qs[m], count_in(rows@.take(i + 1), qs[m]) as u32),
                forall|m: int| k <= m < 4 ==> #[trigger] out@[m] == (qs[m], count_in(rows@.take(i as int), qs[m]) as u32),
                forall|m: int| 0 <= m < 4 ==> count_in(rows@.take(i as int), #[trigger] qs[m]) <= i,
        {
            let entry = out[k];
            proof {
                assert(rows@.take(i + 1).last() == rows@[i as int]);
            }
            if in_filter(row, entry.0) {
                out.set(k, (entry.0, entry.1 + 1));
            }
        }
        proof {
            assert forall|m: int| 0 <= m < 4 implies count_in(rows@.take(i + 1), #[trigger] qs[m]) <= i + 1 by {
                assert(rows@.take(i + 1).drop_last() == rows@.take(i as int));
            }
        }
    }
    assert(rows@.take(n as int) == rows@);
    out.push((Filter::All, n as u32));
    out
}

} // verus!

verus! {

pub open spec fn binding_row(b: Binding, repo: Seq<char>) -> SpecRowV {
    SpecRowV {
        id: b.id@,
        origin: Origin::Repository,
        name: leaf_of(b.path@),
        path: b.path@,
        type_key: opt_view(b.type_key),
        node_id: Some(b.node_id@),
        state: Some(b.state),
        status: None,
        conforms: b.conforms,
        updated_at: b.updated_at@,
        repo: repo,
    }
}

pub open spec fn authored_row(d: Authored) -> SpecRowV {
    SpecRowV {
        id: d.id@,
        origin: Origin::Authored,
        name: d.title@,
        path: Seq::<char>::empty(),
        type_key: opt_view(d.type_key),
        node_id: None,
        state: None,
        status: Some(d.status@),
        conforms: d.conforms,
        updated_at: d.updated_at@,
        repo: Seq::<char>::empty(),
    }
}

pub open spec fn candidate_row(c: Candidate, repo: Seq<char>) -> SpecRowV {
    SpecRowV {
        id: "candidate:"@ + c.node_id@,
        origin: Origin::Repository,
        name: leaf_of(c.path@),
        path: c.path@,
        type_key: None,
        node_id: Some(c.node_id@),
        state: None,
        status: None,
        conforms: None,
        updated_at: Seq::<char>::empty(),
        repo: repo,
    }
}

/// Some binding already holds this node.
pub open spec fn node_bound(bindings: Seq<Binding>, node: Seq<char>) -> bool {
    exists|j: int| 0 <= j < bindings.len() && (#[trigger] bindings[j]).node_id@ == node
}

/// The binding rows, in input order.
pub open spec fn binding_rows(bindings: Seq<Binding>, repos: Seq<Seq<char>>) -> Seq<SpecRowV> {
    Seq::new(bindings.len(), |i: int| binding_row(bindings[i], repos[i]))
}

/// The authored rows, in input order.
pub open spec fn authored_rows(authored: Seq<Authored>) -> Seq<SpecRowV> {
    Seq::new(authored.len(), |i: int| authored_row(authored[i]))
}

/// The candidates no binding has claimed, in input order.
pub open spec fn candidate_rows(
    bindings: Seq<Binding>,
    candidates: Seq<Candidate>,
    repos: Seq<Seq<char>>,
) -> Seq<SpecRowV>
    decreases candidates.len(),
{
    if candidates.len() == 0 {
        seq![]
    } else {
        let rest = candidate_rows(bindings, candidates.drop_last(), repos.drop_last());
        if node_bound(bindings, candidates.last().node_id@) {
            rest
        } else {
            rest.push(candidate_row(candidates.last(), repos.last()))
        }
    }
}

/// An RFC 3339 timestamp as something orderable: the value itself, compared
/// as a string (the store writes one format, in which lexicographic order is
/// chronological order); `None` for a value that is not a timestamp, which
/// sorts below every one that is.
pub open spec fn instant_of(value: Seq<char>) -> Option<Seq<char>> {
    if rfc3339_ms(encode_utf8(value)) is Some {
        Some(value)
    } else {
        None
    }
}

/// `a` is strictly later than `b`, an unreadable time being the earliest.
pub open spec fn later(a: Option<Seq<char>>, b: Option<Seq<char>>) -> bool {
    match (a, b) {
        (Some(x), None) => true,
        (Some(x), Some(y)) => seq_lt(y, x),
        _ => false,
    }
}

/// The list's order: newest first, an authored document before a repository
/// file within the same instant, then by name.
pub open spec fn row_before(a: SpecRowV, b: SpecRowV) -> bool {
    let ia = instant_of(a.updated_at);
    let ib = instant_of(b.updated_at);
    if ia != ib {
        later(ia, ib)
    } else if a.origin != b.origin {
        a.origin == Origin::Authored
    } else {
        seq_lt(a.name, b.name)
    }
}

/// Where `x` goes in `s`: before the first element it sorts before.
pub open spec fn insert_at(s: Seq<SpecRowV>, x: SpecRowV) -> int
    decreases s.len(),
{
    if s.len() == 0 {
        0
    } else if row_before(x, s[0]) {
        0
    } else {
        1 + insert_at(s.drop_first(), x)
    }
}

/// A stable sort by [`row_before`]: each row in turn goes after every row
/// already placed that it does not sort before.
pub open spec fn sort_rows(s: Seq<SpecRowV>) -> Seq<SpecRowV>
    decreases s.len(),
{
    if s.len() == 0 {
        s
    } else {
        let sorted = sort_rows(s.drop_last());
        sorted.insert(insert_at(sorted, s.last()), s.last())
    }
}

pub open spec fn views(rows: Seq<SpecRow>) -> Seq<SpecRowV> {
    rows.map_values(|r: SpecRow| r@)
}

proof fn lemma_insert_at_bounds(s: Seq<SpecRowV>, x: SpecRowV)
    ensures
        0 <= insert_at(s, x) <= s.len(),
    decreases s.len(),
{
    if s.len() > 0 {
        lemma_insert_at_bounds(s.drop_first(), x);
    }
}

/// `row_before(a, b)` for two built rows.
fn before(a: &SpecRow, b: &SpecRow) -> (r: bool)
    ensures
        r == row_before(a@, b@),
{
    let ra = parse_rfc3339_ms(a.updated_at.as_str()).is_some();
    let rb = parse_rfc3339_ms(b.updated_at.as_str()).is_some();
    let same_instant = if ra && rb {
        str_eq(a.updated_at.as_str(), b.updated_at.as_str())
    } else {
        !ra && !rb
    };
    if !same_instant {
        if ra && rb {
            return lex_lt(&chars_of(b.updated_at.as_str()), &chars_of(a.updated_at.as_str()));
        }
        return ra;
    }
    if a.origin != b.origin {
        return a.origin == Origin::Authored;
    }
    let an = chars_of(a.name.as_str());
    let bn = chars_of(b.name.as_str());
    lex_lt(&an, &bn)
}

fn copy_opt(o: &Option<String>) -> (out: Option<String>)
    ensures
        opt_view(out) == opt_view(*o),
{
    match o {
        Some(s) => Some(s.clone()),
        None => None,
    }
}

fn copy_row(r: &SpecRow) -> (out: SpecRow)
    ensures
        out@ == r@,
{
    SpecRow {
        id: r.id.clone(),
        origin: r.origin,
        name: r.name.clone(),
        path: r.path.clone(),
        type_key: copy_opt(&r.type_key),
        node_id: copy_opt(&r.node_id),
        state: r.state,
        status: copy_opt(&r.status),
        conforms: r.conforms,
        updated_at: r.updated_at.clone(),
        repo: r.repo.clone(),
    }
}

/// Put the rows in the list's order.
fn sort_by_instant(rows: Vec<SpecRow>) -> (out: Vec<SpecRow>)
    ensures
        views(out@) == sort_rows(views(rows@)),
{
    let mut out: Vec<SpecRow> = Vec::new();
    let n = rows.len();
    let ghost vs = views(rows@);
    for i in 0..n
        invariant
            n == rows@.len(),
            vs == views(rows@),
            views(out@) == sort_rows(vs.take(i as int)),
    {
        let x = copy_row(&rows[i]);
        let ghost sorted = views(out@);
        let mut k: usize = 0;
        proof {
            assert(x@ == vs[i as int]);
            assert(sorted.skip(0) == sorted);
        }
        while k < out.len() && !before(&x, &out[k])
            invariant
                0 <= k <= out@.len(),
                sorted == views(out@),
                insert_at(sorted, x@) == k + insert_at(sorted.skip(k as int), x@),
            decreases out@.len() - k,
        {
            proof {
                assert(sorted.skip(k as int)[0] == out@[k as int]@);
                assert(sorted.skip(k as int).drop_first() == sorted.skip(k + 1));
            }
            k += 1;
        }
        proof {
            if k < out@.len() {
                assert(sorted.skip(k as int)[0] == out@[k as int]@);
            }
            assert(insert_at(sorted, x@) == k);
            let t = vs.take(i + 1);
            assert(t.drop_last() == vs.take(i as int));
            assert(t.last() == x@);
        }
        out.insert(k, x);
        proof {
            assert(views(out@) =~= sorted.insert(k as int, vs[i as int]));
        }
    }
    assert(vs.take(n as int) == vs);
    out
}

/// `r` is what `f` answered for some string reading `node`.
pub open spec fn answered<F: Fn(&str) -> String>(f: F, node: Seq<char>, r: Seq<char>) -> bool {
    exists|s: &str, out: String| s@ == node && out@ == r && call_ensures(f, (s,), out)
}

/// Merge every source into one list.
///
/// Authored documents come first within the same instant; beyond that it is
/// newest first, then by name. A candidate is dropped as soon as a binding
/// exists for the same node. `repo_of` names the repository a node came
/// from.
pub fn rows<F: Fn(&str) -> String>(
    bindings: &[Binding],
    authored: &[Authored],
    candidates: &[Candidate],
    repo_of: &F,
) -> (out: Vec<SpecRow>)
    requires
        forall|s: &str| call_requires(*repo_of, (s,)),
    ensures
        exists|rb: Seq<Seq<char>>, rc: Seq<Seq<char>>|
            {
                &&& rb.len() == bindings@.len()
                &&& rc.len() == candidates@.len()
                &&& forall|i: int|
                    0 <= i < bindings@.len() ==> answered(*repo_of, bindings@[i].node_id@, #[trigger] rb[i])
                &&& forall|i: int|
                    0 <= i < candidates@.len() && !node_bound(bindings@, candidates@[i].node_id@)
                        ==> answered(*repo_of, candidates@[i].node_id@, #[trigger] rc[i])
                &&& views(out@) == sort_rows(
                    binding_rows(bindings@, rb) + authored_rows(authored@) + candidate_rows(
                        bindings@,
                        candidates@,
                        rc,
                    ),
                )
            },
{
    let mut all: Vec<SpecRow> = Vec::new();
    let ghost mut rb: Seq<Seq<char>> = seq![];
    let nb = bindings.len();
    for i in 0..nb
        invariant
            nb == bindings@.len(),
            forall|s: &str| call_requires(*repo_of, (s,)),
            rb.len() == i,
            views(all@) == binding_rows(bindings@.take(i as int), rb),
            forall|j: int| 0 <= j < i ==> answered(*repo_of, bindings@[j].node_id@, #[trigger] rb[j]),
    {
        let b = &bindings[i];
        let node = b.node_id.as_str();
        let repo = repo_of(node);
        let row = SpecRow {
            id: b.id.clone(),
            origin: Origin::Repository,
            name: leaf(b.path.as_str()),
            path: b.path.clone(),
            type_key: copy_opt(&b.type_key),
            node_id: Some(b.node_id.clone()),
            state: Some(b.state),
            status: None,
            conforms: b.conforms,
            updated_at: b.updated_at.clone(),
            repo: repo,
        };
        proof {
            assert(answered(*repo_of, b.node_id@, repo@));
            let old_rb = rb;
            rb = rb.push(repo@);
            assert(row@ == binding_row(bindings@[i as int], repo@));
            assert(views(all@.push(row)) =~= views(all@).push(row@));
            let t = bindings@.take(i + 1);
            assert forall|j: int| 0 <= j < i + 1 implies #[trigger] binding_rows(t, rb)[j] == views(all@).push(row@)[j] by {
                if j < i {
                    assert(t[j] == bindings@.take(i as int)[j]);
                    assert(rb[j] == old_rb[j]);
                    assert(binding_rows(bindings@.take(i as int), old_rb)[j] == views(all@)[j]);
                }
            }
            assert(binding_rows(t, rb) =~= views(all@).push(row@));
        }
        all.push(row);
    }
    let na = authored.len();
    let ghost base = views(all@);
    for i in 0..na
        invariant
            na == authored@.len(),
            views(all@) == base + authored_rows(authored@.take(i as int)),
    {
        let d = &authored[i];
        let row = SpecRow {
            id: d.id.clone(),
            origin: Origin::Authored,
            name: d.title.clone(),
            path: String::new(),
            type_key: copy_opt(&d.type_key),
            node_id: None,
            state: None,
            status: Some(d.status.clone()),
            conforms: d.conforms,
            updated_at: d.updated_at.clone(),
            repo: String::new(),
        };
        proof {
            assert(row@ == authored_row(authored@[i as int]));
            assert(views(all@.push(row)) =~= views(all@).push(row@));
            let t = authored@.take(i + 1);
            assert forall|j: int| 0 <= j < i + 1 implies #[trigger] authored_rows(t)[j] == authored_rows(authored@.take(i as int)).push(row@)[j] by {
                if j < i {
                    assert(t[j] == authored@.take(i as int)[j]);
                }
            }
            assert(authored_rows(t) =~= authored_rows(authored@.take(i as int)).push(row@));
            assert(base + authored_rows(t) =~= (base + authored_rows(authored@.take(i as int))).push(row@));
        }
        all.push(row);
    }
    let ghost base2 = views(all@);
    let ghost mut rc: Seq<Seq<char>> = seq![];
    let nc = candidates.len();
    for i in 0..nc
        invariant
            nc == candidates@.len(),
            nb == bindings@.len(),
            forall|s: &str| call_requires(*repo_of, (s,)),
            rc.len() == i,
            views(all@) == base2 + candidate_rows(bindings@, candidates@.take(i as int), rc),
            forall|j: int|
                0 <= j < i && !node_bound(bindings@, candidates@[j].node_id@) ==> answered(
                    *repo_of,
                    candidates@[j].node_id@,
                    #[trigger] rc[j],
                ),
    {
        let c = &candidates[i];
        let cv = chars_of(c.node_id.as_str());
        let mut bound = false;
        let mut j: usize = 0;
        while j < nb
            invariant
                nb == bindings@.len(),
                0 <= j <= nb,
                cv@ == c.node_id@,
                !bound ==> forall|m: int| 0 <= m < j ==> bindings@[m].node_id@ != c.node_id@,
                bound ==> node_bound(bindings@, c.node_id@),
            decreases nb - j,
        {
            let bv = chars_of(bindings[j].node_id.as_str());
            if crate::text::seq_eq(&bv, &cv) {
                bound = true;
                proof {
                    assert(bindings@[j as int].node_id@ == c.node_id@);
                }
            }
            j += 1;
        }
        let ghost t = candidates@.take(i + 1);
        proof {
            assert(t.drop_last() == candidates@.take(i as int));
            assert(t.last() == candidates@[i as int]);
        }
        if bound {
            proof {
                let old_rc = rc;
                rc = rc.push(Seq::<char>::empty());
                assert(rc.drop_last() == old_rc);
                assert(node_bound(bindings@, t.last().node_id@));
                assert(candidate_rows(bindings@, t, rc) == candidate_rows(bindings@, candidates@.take(i as int), old_rc));
            }
        } else {
            let node = c.node_id.as_str();
            let repo = repo_of(node);
            let mut id: Vec<char> = Vec::new();
            push_str(&mut id, "candidate:");
            push_str(&mut id, node);
            let row = SpecRow {
                id: string_of(&id),
                origin: Origin::Repository,
                name: leaf(c.path.as_str()),
                path: c.path.clone(),
                type_key: None,
                node_id: Some(c.node_id.clone()),
                state: None,
                status: None,
                conforms: None,
                updated_at: String::new(),
                repo: repo,
            };
            proof {
                assert(answered(*repo_of, c.node_id@, repo@));
                let old_rc = rc;
                rc = rc.push(repo@);
                assert(rc.drop_last() == old_rc);
                assert(!node_bound(bindings@, c.node_id@));
                assert(row@ == candidate_row(candidates@[i as int], repo@));
                assert(views(all@.push(row)) =~= views(all@).push(row@));
                assert(candidate_rows(bindings@, t, rc) == candidate_rows(bindings@, candidates@.take(i as int), old_rc).push(row@));
                assert(views(all@.push(row)) =~= base2 + candidate_rows(bindings@, t, rc));
            }
            all.push(row);
        }
    }
    proof {
        assert(bindings@.take(nb as int) == bindings@);
        assert(authored@.take(na as int) == authored@);
        assert(candidates@.take(nc as int) == candidates@);
    }
    sort_by_instant(all)
}

} // verus!

verus! {

/// A document type as the workspace defines it.
#[derive(Debug, Clone, PartialEq, Eq)]
pub struct PipelineType {
    pub key: String,
    pub name: String,
    /// What the type is for, as the workspace describes it.
    pub description: String,
}

/// One document under a type, named the way a reader recognises it.
#[derive(Debug, Clone, PartialEq, Eq)]
pub struct PipelineEntry {
    pub id: String,
    /// An authored document's title, or a bound file's last path segment.
    pub name: String,
    pub conforms: Option<bool>,
    /// Editorial status for an authored document; `None` for a repository file.
    pub status: Option<String>,
}

#[verifier::ext_equal]
pub struct PipelineEntryV {
    pub id: Seq<char>,
    pub name: Seq<char>,
    pub conforms: Option<bool>,
    pub status: Option<Seq<char>>,
}

impl View for PipelineEntry {
    type V = PipelineEntryV;

    open spec fn view(&self) -> PipelineEntryV {
        PipelineEntryV {
            id: self.id@,
            name: self.name@,
            conforms: self.conforms,
            status: opt_view(self.status),
        }
    }
}

/// One type, and what the project has of it.
#[derive(Debug, Clone, PartialEq, Eq)]
pub struct PipelineRow {
    pub type_key: String,
    pub type_label: String,
    pub type_description: String,
    /// Documents written in Studio.
    pub authored: Vec<PipelineEntry>,
    /// Repository files bound to this type by a decision.
    pub bound: Vec<PipelineEntry>,
    /// Repository files the scanner thinks are this type, still unconfirmed.
    pub proposed: Vec<PipelineEntry>,
    /// Nothing of this type exists and nothing has been proposed.
    pub untouched: bool,
    /// Of `authored` + `bound`, how many passed their type's checks.
    pub valid: u32,
    /// `authored` + `bound`; proposals are not coverage.
    pub total: u32,
}

#[verifier::ext_equal]
pub struct PipelineRowV {
    pub type_key: Seq<char>,
    pub type_label: Seq<char>,
    pub type_description: Seq<char>,
    pub authored: Seq<PipelineEntryV>,
    pub bound: Seq<PipelineEntryV>,
    pub proposed: Seq<PipelineEntryV>,
    pub untouched: bool,
    pub valid: u32,
    pub total: u32,
}

pub open spec fn entry_views(es: Seq<PipelineEntry>) -> Seq<PipelineEntryV> {
    es.map_values(|e: PipelineEntry| e@)
}

impl View for PipelineRow {
    type V = PipelineRowV;

    open spec fn view(&self) -> PipelineRowV {
        PipelineRowV {
            type_key: self.type_key@,
            type_label: self.type_label@,
            type_description: self.type_description@,
            authored: entry_views(self.authored@),
            bound: entry_views(self.bound@),
            proposed: entry_views(self.proposed@),
            untouched: self.untouched,
            valid: self.valid,
            total: self.total,
        }
    }
}

pub open spec fn has_type(k: Option<String>, key: Seq<char>) -> bool {
    opt_view(k) == Some(key)
}

pub open spec fn authored_entry(d: Authored) -> PipelineEntryV {
    PipelineEntryV { id: d.id@, name: d.title@, conforms: d.conforms, status: Some(d.status@) }
}

pub open spec fn binding_entry(b: Binding) -> PipelineEntryV {
    PipelineEntryV { id: b.id@, name: leaf_of(b.path@), conforms: b.conforms, status: None }
}

/// A binding under this type that names a type at all: neither decided to be
/// no document nor left undecided.
pub open spec fn counted(b: Binding, key: Seq<char>) -> bool {
    has_type(b.type_key, key) && b.state != BindingState::NotADocument && b.state
        != BindingState::Unknown
}

/// The authored documents of a type, in input order.
pub open spec fn authored_of(key: Seq<char>, ds: Seq<Authored>) -> Seq<PipelineEntryV>
    decreases ds.len(),
{
    if ds.len() == 0 {
        seq![]
    } else if has_type(ds.last().type_key, key) {
        authored_of(key, ds.drop_last()).push(authored_entry(ds.last()))
    } else {
        authored_of(key, ds.drop_last())
    }
}

/// The files bound to a type by a decision, in input order.
pub open spec fn bound_of(key: Seq<char>, bs: Seq<Binding>) -> Seq<PipelineEntryV>
    decreases bs.len(),
{
    if bs.len() == 0 {
        seq![]
    } else if counted(bs.last(), key) && is_settled(bs.last().state) {
        bound_of(key, bs.drop_last()).push(binding_entry(bs.last()))
    } else {
        bound_of(key, bs.drop_last())
    }
}

/// The files a scanner proposed for a type, in input order.
pub open spec fn proposed_of(key: Seq<char>, bs: Seq<Binding>) -> Seq<PipelineEntryV>
    decreases bs.len(),
{
    if bs.len() == 0 {
        seq![]
    } else if counted(bs.last(), key) && !is_settled(bs.last().state) {
        proposed_of(key, bs.drop_last()).push(binding_entry(bs.last()))
    } else {
        proposed_of(key, bs.drop_last())
    }
}

pub open spec fn passing(es: Seq<PipelineEntryV>) -> nat
    decreases es.len(),
{
    if es.len() == 0 {
        0
    } else {
        passing(es.drop_last()) + if es.last().conforms == Some(true) {
            1nat
        } else {
            0nat
        }
    }
}

pub open spec fn capped(n: nat) -> u32 {
    if n <= u32::MAX {
        n as u32
    } else {
        u32::MAX
    }
}

/// One type's row: its authored and bound documents counted, its proposals
/// shown apart, and "untouched" only when there is nothing at all.
pub open spec fn pipeline_row(ty: PipelineType, ds: Seq<Authored>, bs: Seq<Binding>) -> PipelineRowV {
    let a = authored_of(ty.key@, ds);
    let b = bound_of(ty.key@, bs);
    let p = proposed_of(ty.key@, bs);
    PipelineRowV {
        type_key: ty.key@,
        type_label: ty.name@,
        type_description: ty.description@,
        authored: a,
        bound: b,
        proposed: p,
        untouched: a.len() == 0 && b.len() == 0 && p.len() == 0,
        valid: (passing(a) + passing(b)) as u32,
        total: capped(a.len() + b.len()),
    }
}

proof fn lemma_passing_push(es: Seq<PipelineEntryV>, e: PipelineEntryV)
    ensures
        passing(es.push(e)) == passing(es) + if e.conforms == Some(true) { 1nat } else { 0nat },
{
    assert(es.push(e).drop_last() == es);
}

proof fn lemma_passing_le(es: Seq<PipelineEntryV>)
    ensures
        passing(es) <= es.len(),
    decreases es.len(),
{
    if es.len() > 0 {
        lemma_passing_le(es.drop_last());
    }
}

proof fn lemma_of_len(key: Seq<char>, ds: Seq<Authored>, bs: Seq<Binding>)
    ensures
        authored_of(key, ds).len() <= ds.len(),
        bound_of(key, bs).len() + proposed_of(key, bs).len() <= bs.len(),
    decreases ds.len() + bs.len(),
{
    if ds.len() > 0 {
        lemma_of_len(key, ds.drop_last(), bs);
    }
    if bs.len() > 0 {
        lemma_of_len(key, ds, bs.drop_last());
    }
}

fn is_of_type(k: &Option<String>, key: &String) -> (r: bool)
    ensures
        r == has_type(*k, key@),
{
    match k {
        Some(s) => *s == *key,
        None => false,
    }
}

fn row_for(ty: &PipelineType, authored: &[Authored], bindings: &[Binding]) -> (out: PipelineRow)
    requires
        authored@.len() + bindings@.len() <= u32::MAX,
    ensures
        out@ == pipeline_row(*ty, authored@, bindings@),
{
    let mut valid: u32 = 0;
    let mut authored_entries: Vec<PipelineEntry> = Vec::new();
    let na = authored.len();
    for i in 0..na
        invariant
            na == authored@.len(),
            authored@.len() + bindings@.len() <= u32::MAX,
            entry_views(authored_entries@) == authored_of(ty.key@, authored@.take(i as int)),
            valid == passing(authored_of(ty.key@, authored@.take(i as int))),
            valid <= i,
    {
        let d = &authored[i];
        proof {
            assert(authored@.take(i + 1).drop_last() == authored@.take(i as int));
            assert(authored@.take(i + 1).last() == authored@[i as int]);
            lemma_passing_le(authored_of(ty.key@, authored@.take(i as int)));
        }
        if is_of_type(&d.type_key, &ty.key) {
            if d.conforms == Some(true) {
                valid += 1;
            }
            let e = PipelineEntry {
                id: d.id.clone(),
                name: d.title.clone(),
                conforms: d.conforms,
                status: Some(d.status.clone()),
            };
            proof {
                lemma_passing_push(authored_of(ty.key@, authored@.take(i as int)), e@);
                assert(entry_views(authored_entries@.push(e)) =~= entry_views(authored_entries@).push(e@));
            }
            authored_entries.push(e);
        }
    }
    let ghost a = authored_of(ty.key@, authored@);
    proof {
        assert(authored@.take(na as int) == authored@);
        lemma_of_len(ty.key@, authored@, bindings@);
        lemma_passing_le(a);
        assert(bindings@.take(0) == Seq::<Binding>::empty());
    }
    let mut bound: Vec<PipelineEntry> = Vec::new();
    let mut proposed: Vec<PipelineEntry> = Vec::new();
    let nb = bindings.len();
    for i in 0..nb
        invariant
            nb == bindings@.len(),
            authored@.len() + bindings@.len() <= u32::MAX,
            a.len() <= authored@.len(),
            entry_views(bound@) == bound_of(ty.key@, bindings@.take(i as int)),
            entry_views(proposed@) == proposed_of(ty.key@, bindings@.take(i as int)),
            valid == passing(a) + passing(bound_of(ty.key@, bindings@.take(i as int))),
            valid <= a.len() + i,
    {
        let b = &bindings[i];
        let ghost t = bindings@.take(i + 1);
        proof {
            assert(t.drop_last() == bindings@.take(i as int));
            assert(t.last() == bindings@[i as int]);
            lemma_passing_le(a);
            lemma_passing_le(bound_of(ty.key@, bindings@.take(i as int)));
            lemma_of_len(ty.key@, authored@, bindings@.take(i as int));
        }
        if is_of_type(&b.type_key, &ty.key) {
            let skip = match b.state {
                BindingState::NotADocument | BindingState::Unknown => true,
                _ => false,
            };
            if !skip {
                let e = PipelineEntry {
                    id: b.id.clone(),
                    name: leaf(b.path.as_str()),
                    conforms: b.conforms,
                    status: None,
                };
                if b.state.settled() {
                    if b.conforms == Some(true) {
                        valid += 1;
                    }
                    proof {
                        lemma_passing_push(bound_of(ty.key@, bindings@.take(i as int)), e@);
                        assert(entry_views(bound@.push(e)) =~= entry_views(bound@).push(e@));
                    }
                    bound.push(e);
                } else {
                    proof {
                        assert(entry_views(proposed@.push(e)) =~= entry_views(proposed@).push(e@));
                    }
                    proposed.push(e);
                }
            }
        }
    }
    proof {
        assert(bindings@.take(nb as int) == bindings@);
    }
    let total_n = authored_entries.len() + bound.len();
    let total: u32 = if total_n <= 4294967295 {
        total_n as u32
    } else {
        4294967295
    };
    let untouched = authored_entries.len() == 0 && bound.len() == 0 && proposed.len() == 0;
    PipelineRow {
        type_key: ty.key.clone(),
        type_label: ty.name.clone(),
        type_description: ty.description.clone(),
        untouched: untouched,
        authored: authored_entries,
        bound: bound,
        proposed: proposed,
        valid: valid,
        total: total,
    }
}

/// Group every document a project has under the type it belongs to: one row
/// per declared type, in the order the types were given. A binding naming a
/// type the workspace no longer declares appears in no row.
pub fn pipeline(types: &[PipelineType], authored: &[Authored], bindings: &[Binding]) -> (out: Vec<
    PipelineRow,
>)
    requires
        authored@.len() + bindings@.len() <= u32::MAX,
    ensures
        out@.len() == types@.len(),
        forall|t: int| 0 <= t < types@.len() ==> #[trigger] out@[t]@ == pipeline_row(types@[t], authored@, bindings@),
{
    let mut out: Vec<PipelineRow> = Vec::new();
    let n = types.len();
    for t in 0..n
        invariant
            n == types@.len(),
            authored@.len() + bindings@.len() <= u32::MAX,
            out@.len() == t,
            forall|k: int| 0 <= k < t ==> #[trigger] out@[k]@ == pipeline_row(types@[k], authored@, bindings@),
    {
        let row = row_for(&types[t], authored, bindings);
        out.push(row);
    }
    out
}

} // verus!
