//! The pipeline language. One declaration per line:
//!
//! ```text
//! PATH=<root directory>
//! TARGET=filename | TARGET=content
//! NORMALIZE(<form>-><form>)        with form NFC or NFD
//! RECODE(AUTO) | RECODE(<label>-><label>)
//! RENAME(remove,"<literal>",...)   also /<regex>/ patterns
//! ```
//!
//! Blank lines are skipped; declaration order is stage order; the whole
//! parse succeeds or fails atomically. The grammar is defined by the spec
//! functions below and the executable parser is proved against them.

use vstd::prelude::*;
use crate::stages::{Form, Normalize, Pattern, PatternModel, Rename, StageModel, Target, Token,
    Unbake, stage_models};
use crate::text::{find_in, lemma_spec_find, spec_find, str_chars, subvec, chars_string,
    slice_eq_str};

verus! {

/// A parsed pattern: quoted text is a literal, slash-delimited text a
/// regular expression.
pub open spec fn pattern_of(close: char, text: Seq<char>) -> PatternModel {
    if close == '"' {
        PatternModel::Str(text)
    } else {
        PatternModel::Regex(text)
    }
}

/// The pattern list of a rename declaration: a (possibly empty) chain of
/// `,"text"` or `,/text/` groups, each read up to the next closing
/// delimiter.
pub open spec fn parse_patterns(s: Seq<char>) -> Option<Seq<PatternModel>>
    decreases s.len(),
{
    if s.len() == 0 {
        Some(Seq::<PatternModel>::empty())
    } else if s.len() >= 3 && s[0] == ',' && (s[1] == '"' || s[1] == '/') {
        let close = s[1];
        match spec_find(s, seq![close], 2) {
            Some(j) => if j + 1 <= s.len() {
                match parse_patterns(s.skip(j + 1 as int)) {
                    Some(rest) => Some(seq![pattern_of(close, s.subrange(2, j as int))] + rest),
                    None => None,
                }
            } else {
                None
            },
            None => None,
        }
    } else {
        None
    }
}

/// One declaration line. Unknown or malformed lines parse to `None`.
pub open spec fn parse_line(l: Seq<char>) -> Option<StageModel> {
    if l == "RECODE(AUTO)"@ {
        Some(StageModel::Unbake(None))
    } else if l.len() > "PATH="@.len() && l.subrange(0, "PATH="@.len() as int) == "PATH="@ {
        Some(StageModel::Path(l.skip("PATH="@.len() as int)))
    } else if l == "TARGET=filename"@ {
        Some(StageModel::Target(Target::Filename))
    } else if l == "TARGET=content"@ {
        Some(StageModel::Target(Target::Content))
    } else if l == "NORMALIZE(NFD->NFC)"@ {
        Some(StageModel::Normalize(Form::Nfd, Form::Nfc))
    } else if l == "NORMALIZE(NFC->NFD)"@ {
        Some(StageModel::Normalize(Form::Nfc, Form::Nfd))
    } else if l == "NORMALIZE(NFC->NFC)"@ {
        Some(StageModel::Normalize(Form::Nfc, Form::Nfc))
    } else if l == "NORMALIZE(NFD->NFD)"@ {
        Some(StageModel::Normalize(Form::Nfd, Form::Nfd))
    } else if l.len() > "RENAME(remove"@.len() && l.subrange(0, "RENAME(remove"@.len() as int)
        == "RENAME(remove"@ && l.last() == ')' {
        match parse_patterns(l.subrange("RENAME(remove"@.len() as int, l.len() - 1)) {
            Some(ps) => Some(StageModel::Rename(ps)),
            None => None,
        }
    } else if l.len() > "RECODE("@.len() + 1 && l.subrange(0, "RECODE("@.len() as int)
        == "RECODE("@ && l.last() == ')' {
        let inner = l.subrange("RECODE("@.len() as int, l.len() - 1);
        match spec_find(inner, "->"@, 0) {
            Some(j) => if 1 <= j && j + 2 < inner.len() {
                Some(
                    StageModel::Unbake(
                        Some((inner.subrange(0, j as int), inner.skip(j + 2 as int))),
                    ),
                )
            } else {
                None
            },
            None => None,
        }
    } else {
        None
    }
}

/// The whole pipeline source: lines split on `'\n'`, blank lines skipped,
/// every other line one declaration; any bad line fails the whole parse.
pub open spec fn parse_flow(src: Seq<char>) -> Option<Seq<StageModel>>
    decreases src.len(),
{
    if src.len() == 0 {
        Some(Seq::<StageModel>::empty())
    } else {
        let found = spec_find(src, seq!['\n'], 0);
        let line = if found matches Some(j) && j + 1 <= src.len() {
            src.subrange(0, found->Some_0 as int)
        } else {
            src
        };
        let rest = if found matches Some(j) && j + 1 <= src.len() {
            src.skip(found->Some_0 + 1 as int)
        } else {
            Seq::<char>::empty()
        };
        let head = if line.len() == 0 {
            Some(Seq::<StageModel>::empty())
        } else {
            match parse_line(line) {
                Some(m) => Some(seq![m]),
                None => None,
            }
        };
        match head {
            None => None,
            Some(h) => match parse_flow(rest) {
                None => None,
                Some(t) => Some(h + t),
            },
        }
    }
}

/// Does `s` begin with the characters of `prefix`?
fn starts_with_str(v: &[char], prefix: &str) -> (r: bool)
    ensures
        r == (v@.len() >= prefix@.len() && v@.subrange(0, prefix@.len() as int) == prefix@),
{
    let m = prefix.unicode_len();
    if v.len() < m {
        return false;
    }
    let mut k: usize = 0;
    while k < m
        invariant
            k <= m,
            m == prefix@.len(),
            v@.len() >= m,
            forall|t: int| 0 <= t < k ==> v@[t] == prefix@[t],
        decreases m - k,
    {
        if v[k] != prefix.get_char(k) {
            proof {
                assert(v@.subrange(0, m as int)[k as int] == v@[k as int]);
            }
            return false;
        }
        k += 1;
    }
    proof {
        assert(v@.subrange(0, m as int) =~= prefix@);
    }
    true
}

/// Parse the pattern list of a rename declaration.
fn parse_patterns_exec(s: &[char]) -> (r: Option<Vec<Pattern>>)
    ensures
        (r is Some) == (parse_patterns(s@) is Some),
        r matches Some(v) ==> parse_patterns(s@) == Some(v@.map_values(|p: Pattern| p@)),
    decreases s@.len(),
{
    if s.len() == 0 {
        let out: Vec<Pattern> = Vec::new();
        proof {
            assert(out@.map_values(|p: Pattern| p@) =~= Seq::<PatternModel>::empty());
        }
        return Some(out);
    }
    if s.len() >= 3 && s[0] == ',' && (s[1] == '"' || s[1] == '/') {
        let close = s[1];
        let mut cv: Vec<char> = Vec::new();
        cv.push(close);
        proof {
            assert(cv@ =~= seq![close]);
        }
        match find_in(s, cv.as_slice(), 2) {
            Some(j) => {
                proof {
                    lemma_spec_find(s@, cv@, 2);
                }
                let text = subvec(s, 2, j);
                let text_s = chars_string(text.as_slice());
                let rest_v = subvec(s, j + 1, s.len());
                match parse_patterns_exec(rest_v.as_slice()) {
                    Some(mut rest) => {
                        let head = if close == '"' {
                            Pattern::Str(text_s)
                        } else {
                            Pattern::Regex(text_s)
                        };
                        let ghost head_model = head@;
                        let mut out: Vec<Pattern> = Vec::new();
                        out.push(head);
                        let ghost rest_models = rest@.map_values(|p: Pattern| p@);
                        out.append(&mut rest);
                        proof {
                            assert(out@.map_values(|p: Pattern| p@) =~= seq![head_model]
                                + rest_models);
                            assert(head_model == pattern_of(close, s@.subrange(2, j as int)));
                        }
                        Some(out)
                    },
                    None => None,
                }
            },
            None => None,
        }
    } else {
        None
    }
}

/// Parse one declaration line.
fn parse_line_exec(v: &[char]) -> (r: Option<Token>)
    ensures
        (r is Some) == (parse_line(v@) is Some),
        r matches Some(t) ==> parse_line(v@) == Some(t@),
{
    if slice_eq_str(v, "RECODE(AUTO)") {
        Some(Token::Unbake(Unbake { encoding: None }))
    } else if starts_with_str(v, "PATH=") && v.len() > "PATH=".unicode_len() {
        let m = "PATH=".unicode_len();
        let rest = subvec(v, m, v.len());
        Some(Token::Path(chars_string(rest.as_slice())))
    } else if slice_eq_str(v, "TARGET=filename") {
        Some(Token::Target(Target::Filename))
    } else if slice_eq_str(v, "TARGET=content") {
        Some(Token::Target(Target::Content))
    } else if slice_eq_str(v, "NORMALIZE(NFD->NFC)") {
        Some(Token::Normalize(Normalize { from: Form::Nfd, to: Form::Nfc }))
    } else if slice_eq_str(v, "NORMALIZE(NFC->NFD)") {
        Some(Token::Normalize(Normalize { from: Form::Nfc, to: Form::Nfd }))
    } else if slice_eq_str(v, "NORMALIZE(NFC->NFC)") {
        Some(Token::Normalize(Normalize { from: Form::Nfc, to: Form::Nfc }))
    } else if slice_eq_str(v, "NORMALIZE(NFD->NFD)") {
        Some(Token::Normalize(Normalize { from: Form::Nfd, to: Form::Nfd }))
    } else if starts_with_str(v, "RENAME(remove") && v.len() > "RENAME(remove".unicode_len()
        && v[v.len() - 1] == ')' {
        let m = "RENAME(remove".unicode_len();
        let inner = subvec(v, m, v.len() - 1);
        match parse_patterns_exec(inner.as_slice()) {
            Some(ps) => Some(Token::Rename(Rename { command: crate::stages::Command::Remove,
                patterns: ps })),
            None => None,
        }
    } else if starts_with_str(v, "RECODE(") && v.len() >= 2 && v.len() - 1
        > "RECODE(".unicode_len() && v[v.len() - 1] == ')' {
        let m = "RECODE(".unicode_len();
        let inner = subvec(v, m, v.len() - 1);
        let arrow = str_chars("->");
        match find_in(inner.as_slice(), arrow.as_slice(), 0) {
            Some(j) => {
                proof {
                    lemma_spec_find(inner@, arrow@, 0);
                }
                if 1 <= j && j + 2 < inner.len() {
                    let from = subvec(inner.as_slice(), 0, j);
                    let to = subvec(inner.as_slice(), j + 2, inner.len());
                    Some(
                        Token::Unbake(
                            Unbake {
                                encoding: Some(
                                    (chars_string(from.as_slice()), chars_string(to.as_slice())),
                                ),
                            },
                        ),
                    )
                } else {
                    None
                }
            },
            None => None,
        }
    } else {
        None
    }
}

/// Parse a whole pipeline source.
fn parse_flow_exec(s: &[char]) -> (r: Option<Vec<Token>>)
    ensures
        (r is Some) == (parse_flow(s@) is Some),
        r matches Some(v) ==> parse_flow(s@) == Some(stage_models(v@)),
    decreases s@.len(),
{
    if s.len() == 0 {
        let out: Vec<Token> = Vec::new();
        proof {
            assert(stage_models(out@) =~= Seq::<StageModel>::empty());
        }
        return Some(out);
    }
    let mut nl: Vec<char> = Vec::new();
    nl.push('\n');
    proof {
        assert(nl@ =~= seq!['\n']);
    }
    let found = find_in(s, nl.as_slice(), 0);
    proof {
        lemma_spec_find(s@, nl@, 0);
    }
    let (line, rest) = match found {
        Some(j) => (subvec(s, 0, j), subvec(s, j + 1, s.len())),
        None => (subvec(s, 0, s.len()), Vec::<char>::new()),
    };
    proof {
        if found is None {
            assert(s@.subrange(0, s@.len() as int) =~= s@);
        }
    }
    let head: Option<Token> = if line.len() == 0 {
        None
    } else {
        match parse_line_exec(line.as_slice()) {
            Some(t) => Some(t),
            None => {
                return None;
            },
        }
    };
    match parse_flow_exec(rest.as_slice()) {
        Some(tail) => {
            let mut out: Vec<Token> = Vec::new();
            let ghost head_model: Option<StageModel> = match &head {
                Some(t) => Some(t@),
                None => None,
            };
            match head {
                Some(t) => {
                    out.push(t);
                },
                None => {},
            }
            let ghost tail_tokens = tail@;
            let mut tail_mut = tail;
            out.append(&mut tail_mut);
            proof {
                match head_model {
                    Some(m) => {
                        assert(stage_models(out@) =~= seq![m] + stage_models(tail_tokens));
                    },
                    None => {
                        assert(stage_models(out@) =~= Seq::<StageModel>::empty() + stage_models(
                            tail_tokens,
                        ));
                    },
                }
            }
            Some(out)
        },
        None => None,
    }
}

/// A pipeline description: the source text, held for the lifetime of the
/// workflow.
pub struct Workflow {
    source_content: String,
}

impl View for Workflow {
    type V = Seq<char>;

    closed spec fn view(&self) -> Seq<char> {
        self.source_content@
    }
}

impl Workflow {
    /// A workflow over the given pipeline source text.
    pub fn new(source: String) -> (w: Workflow)
        ensures
            w@ == source@,
    {
        Workflow { source_content: source }
    }

    /// Parse the source into its stage list: `None` exactly when the
    /// source is not a well-formed pipeline; on success the returned
    /// stages model the parsed declarations, in source order.
    pub fn get_tokens(&self) -> (r: Option<Vec<Token>>)
        ensures
            (r is Some) == (parse_flow(self@) is Some),
            r matches Some(v) ==> parse_flow(self@) == Some(stage_models(v@)),
    {
        let sv = str_chars(self.source_content.as_str());
        parse_flow_exec(sv.as_slice())
    }
}

} // verus!
