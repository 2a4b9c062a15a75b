//! What a rule reports: a headline message followed by an ordered list
//! of help notes and suggested rewrites. The rules decide the content;
//! the lint driver only attaches it to a source location.
use vstd::prelude::*;

verus! {

/// How confidently a suggested rewrite may be applied unreviewed.
#[derive(Debug, Clone, Copy, PartialEq, Eq, Structural)]
pub enum Applicability {
    MachineApplicable,
    MaybeIncorrect,
}

/// A suggested rewrite of the flagged text.
pub struct Suggestion {
    /// What the suggestion does, as shown to the author.
    pub message: String,
    /// The text that replaces the flagged span.
    pub replacement: String,
    /// Text appended at the end of the enclosing block, for a rewrite
    /// that also needs a definition there.
    pub appended: Option<String>,
    pub applicability: Applicability,
}

/// One entry below a diagnostic's headline.
pub enum Part {
    Help(String),
    Note(String),
    Suggest(Suggestion),
}

/// A complete finding.
pub struct Diagnostic {
    pub message: String,
    pub parts: Vec<Part>,
}

/// The mathematical content of a [`Suggestion`].
pub struct SuggestionModel {
    pub message: Seq<char>,
    pub replacement: Seq<char>,
    pub appended: Option<Seq<char>>,
    pub applicability: Applicability,
}

pub enum PartModel {
    Help(Seq<char>),
    Note(Seq<char>),
    Suggest(SuggestionModel),
}

pub struct DiagnosticModel {
    pub message: Seq<char>,
    pub parts: Seq<PartModel>,
}

impl View for Suggestion {
    type V = SuggestionModel;

    open spec fn view(&self) -> SuggestionModel {
        SuggestionModel {
            message: self.message@,
            replacement: self.replacement@,
            appended: match self.appended {
                Some(s) => Some(s@),
                None => None,
            },
            applicability: self.applicability,
        }
    }
}

impl View for Part {
    type V = PartModel;

    open spec fn view(&self) -> PartModel {
        match self {
            Part::Help(s) => PartModel::Help(s@),
            Part::Note(s) => PartModel::Note(s@),
            Part::Suggest(s) => PartModel::Suggest(s@),
        }
    }
}

impl View for Diagnostic {
    type V = DiagnosticModel;

    open spec fn view(&self) -> DiagnosticModel {
        DiagnosticModel {
            message: self.message@,
            parts: self.parts@.map_values(|p: Part| p@),
        }
    }
}

} // verus!
