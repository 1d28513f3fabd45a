//! The stage descriptors that a parsed pipeline consists of, their
//! mathematical models, and the error taxonomy of the engine.

use vstd::prelude::*;

verus! {

/// A Unicode normalization form the pipeline language can name.
#[derive(Clone, Copy, PartialEq, Eq, Structural, Debug)]
pub enum Form {
    Nfd,
    Nfc,
}

/// What a transformation stage operates on.
#[derive(Clone, Copy, PartialEq, Eq, Structural, Debug)]
pub enum Target {
    Filename,
    Content,
}

/// The rename command; only literal removal exists so far.
#[derive(Clone, Copy, PartialEq, Eq, Structural, Debug)]
pub enum Command {
    Remove,
}

/// A rename pattern: a literal string, or a regular expression that the
/// grammar accepts but the executor does not yet evaluate.
#[derive(Clone, Debug)]
pub enum Pattern {
    Regex(String),
    Str(String),
}

/// The model of a pattern: its text as a character sequence.
pub enum PatternModel {
    Regex(Seq<char>),
    Str(Seq<char>),
}

impl View for Pattern {
    type V = PatternModel;

    open spec fn view(&self) -> PatternModel {
        match self {
            Pattern::Regex(t) => PatternModel::Regex(t@),
            Pattern::Str(t) => PatternModel::Str(t@),
        }
    }
}

/// A declared normalization stage: expected source form, desired target form.
#[derive(Clone, Copy, Debug)]
pub struct Normalize {
    pub from: Form,
    pub to: Form,
}

/// A declared re-encoding stage. `None` means auto-detect (mojibake
/// repair); `Some((from, to))` re-encodes through the two named charsets.
#[derive(Clone, Debug)]
pub struct Unbake {
    pub encoding: Option<(String, String)>,
}

/// A declared rename stage: a command and its patterns, in source order.
#[derive(Clone, Debug)]
pub struct Rename {
    pub command: Command,
    pub patterns: Vec<Pattern>,
}

/// One parsed pipeline stage.
#[derive(Clone, Debug)]
pub enum Token {
    Path(String),
    Target(Target),
    Normalize(Normalize),
    Unbake(Unbake),
    Rename(Rename),
}

/// The model of a stage, over character sequences.
pub enum StageModel {
    Path(Seq<char>),
    Target(Target),
    Normalize(Form, Form),
    Unbake(Option<(Seq<char>, Seq<char>)>),
    Rename(Seq<PatternModel>),
}

impl View for Token {
    type V = StageModel;

    open spec fn view(&self) -> StageModel {
        match self {
            Token::Path(p) => StageModel::Path(p@),
            Token::Target(t) => StageModel::Target(*t),
            Token::Normalize(n) => StageModel::Normalize(n.from, n.to),
            Token::Unbake(u) => StageModel::Unbake(
                match &u.encoding {
                    Some(pair) => Some((pair.0@, pair.1@)),
                    None => None,
                },
            ),
            Token::Rename(r) => StageModel::Rename(r.patterns@.map_values(|p: Pattern| p@)),
        }
    }
}

/// The models of a stage list, in order.
pub open spec fn stage_models(ts: Seq<Token>) -> Seq<StageModel> {
    ts.map_values(|t: Token| t@)
}

/// Everything that can end a run. Parse failures abort before any file is
/// touched; `UnknownEncoding`, `RegexUnsupported`, `NameTooLong` and
/// `DestinationCollision` abort the whole planning run; `LogFormat` and
/// `RenameSourceMissing` abort a replay.
#[derive(Clone, Copy, PartialEq, Eq, Structural, Debug)]
pub enum PipelineError {
    MissingRootPath,
    DuplicateRootPath,
    MissingTarget,
    DuplicateTarget,
    ContentTargetUnsupported,
    UnknownEncoding,
    RegexUnsupported,
    NameTooLong,
    DestinationCollision,
    LogFormat,
    RenameSourceMissing,
}

} // verus!
