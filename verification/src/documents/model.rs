//! A document type's template, as far as the structural check reads it.

use vstd::prelude::*;

use crate::documents::review_guide::ReviewGuide;
use crate::text::opt_view;

verus! {

/// One section a template declares.
#[derive(Clone, Debug, PartialEq, Eq)]
pub struct Section {
    pub key: String,
    pub title: String,
    pub required: bool,
    /// The least number of words a filled section has.
    pub min_words: Option<usize>,
    pub description: Option<String>,
    /// Other headings that stand in for the title.
    pub aliases: Vec<String>,
}

/// What a template demands of a document beyond its sections.
#[derive(Clone, Debug, PartialEq, Eq)]
pub struct Rules {
    /// Front-matter keys that must be filled.
    pub front_matter: Vec<String>,
    /// The least number of words a title has.
    pub min_title_words: usize,
    /// Whether leftover template markers fail the document.
    pub forbid_placeholders: bool,
}

/// How a question is answered.
#[derive(Clone, Copy, Debug, PartialEq, Eq, Structural)]
pub enum QuestionKind {
    Text,
    LongText,
    Single,
    Multi,
    Bool,
}

/// One question of a type's questionnaire.
#[derive(Clone, Debug, PartialEq, Eq)]
pub struct Question {
    pub id: String,
    pub prompt: String,
    pub kind: QuestionKind,
    /// The key of the section its answer is written under.
    pub section: Option<String>,
    /// The capability a "yes" (or any answer) to it seeds.
    pub capability: Option<String>,
}

/// A document type's template.
#[derive(Clone, Debug, PartialEq, Eq)]
pub struct TemplateSpec {
    pub body: String,
    pub sections: Vec<Section>,
    pub rules: Rules,
    /// The questions whose answers fill the template.
    pub questionnaire: Vec<Question>,
    /// The type's own review guide, when it states one.
    pub review: Option<ReviewGuide>,
}

/// Who a document type belongs to: the kit itself, or a workspace that
/// overrides or adds it.
#[derive(Clone, Copy, Debug, PartialEq, Eq)]
pub enum Owner {
    Builtin,
    Workspace { tenant_id: u128 },
}

/// A document type: its key, the name a document of it is called by, its
/// template, and who it belongs to.
#[derive(Clone, Debug, PartialEq, Eq)]
pub struct DocumentType {
    pub key: String,
    pub name: String,
    pub template: TemplateSpec,
    pub owner: Owner,
}

/// The headings a section is found by: its title, then its aliases.
pub open spec fn section_titles(s: Section) -> Seq<Seq<char>> {
    seq![s.title@] + s.aliases@.map_values(|a: String| a@)
}

impl Section {
    /// The headings the section is found by: its title, then its aliases.
    pub fn titles(&self) -> (out: Vec<String>)
        ensures
            out@.map_values(|t: String| t@) == section_titles(*self),
    {
        let mut out: Vec<String> = Vec::new();
        out.push(self.title.clone());
        let n = self.aliases.len();
        for i in 0..n
            invariant
                n == self.aliases@.len(),
                out@.len() == i + 1,
                out@[0]@ == self.title@,
                forall|j: int| 0 <= j < i ==> (#[trigger] out@[j + 1])@ == self.aliases@[j]@,
        {
            out.push(self.aliases[i].clone());
        }
        proof {
            assert(out@.map_values(|t: String| t@) =~= section_titles(*self)) by {
                assert forall|j: int| 0 <= j < out@.len() implies out@.map_values(|t: String| t@)[j]
                    == section_titles(*self)[j] by {
                    if j > 0 {
                        assert(out@[(j - 1) + 1] == out@[j]);
                    }
                }
            }
        }
        out
    }
}

impl Default for Rules {
    /// No required front-matter keys, a title of at least two words, and
    /// placeholders forbidden.
    fn default() -> (r: Rules)
        ensures
            r.front_matter@.len() == 0,
            r.min_title_words == 2,
            r.forbid_placeholders,
    {
        Rules { front_matter: Vec::new(), min_title_words: 2, forbid_placeholders: true }
    }
}

/// What a classification pass did.
#[derive(Debug, Clone, Copy, Default, PartialEq, Eq)]
pub struct ClassifiedCounts {
    /// Files given a type, or left undetermined for a person to settle.
    pub classified: usize,
    /// Files recorded as not documents, by their path.
    pub not_documents: usize,
    /// Files left exactly as they were, because a person had already ruled on
    /// them or Spec Quality had paid for the answer.
    pub kept: usize,
}

} // verus!
