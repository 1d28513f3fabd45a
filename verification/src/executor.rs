//! The stage executor: the meaning of each pipeline stage on one file
//! name, the per-stage functions, and the `Executor` that folds a stage
//! list over one candidate path.

use vstd::prelude::*;
use crate::codec::{
    cjkish, known_label, nfc_of, nfd_of, nfkc_of, nfkd_of, recode_text, recoded_of, to_nfc,
    to_nfd, unbake_windows_1252_gbk, unbaked_of,
};
use crate::paths::{
    file_name_chars, file_name_of, lemma_name_start_bounds, lemma_with_own_name,
    replace_file_name, with_file_name,
};
use crate::stages::{Command, Form, Pattern, PatternModel, PipelineError, StageModel, Token,
    stage_models};
use crate::text::{contains_pattern, has_sub, remove_all, remove_pattern, str_chars};

verus! {

/// Paths longer than this many characters are refused by the engine.
pub const NAME_LIMIT: usize = 0x1000_0000;

/// The marker of doubly decoded text: a repaired name that still contains
/// it is taken for an over-decoding and discarded.
pub open spec fn over_decoded_marker() -> Seq<char> {
    seq!['&', '#']
}

/// How many characters of `s` the CJK predicate accepts.
pub open spec fn cjk_count(s: Seq<char>) -> nat
    decreases s.len(),
{
    if s.len() == 0 {
        0
    } else {
        cjk_count(s.drop_last()) + if cjkish(s.last()) {
            1nat
        } else {
            0nat
        }
    }
}

/// The charset guesser: a string is taken for CJK text when at least four
/// fifths of its characters (by integer arithmetic) are CJK-ish.
pub open spec fn spec_guess_is_cjk(s: Seq<char>) -> bool {
    cjk_count(s) >= s.len() / 5 * 4
}

/// Guess whether `s` is already CJK text, by the fraction of CJK-ish
/// characters in it.
pub fn guess_is_cjk(s: &str) -> (r: bool)
    ensures
        r == spec_guess_is_cjk(s@),
{
    let n = s.unicode_len();
    let mut count: usize = 0;
    let mut i: usize = 0;
    while i < n
        invariant
            i <= n,
            n == s@.len(),
            count <= i,
            count == cjk_count(s@.take(i as int)),
        decreases n - i,
    {
        proof {
            assert(s@.take(i + 1 as int).drop_last() =~= s@.take(i as int));
            assert(s@.take(i + 1 as int).last() == s@[i as int]);
        }
        if cjk::is_cjkish_codepoint(s.get_char(i)) {
            count += 1;
        }
        i += 1;
    }
    proof {
        assert(s@.take(n as int) =~= s@);
    }
    count >= n / 5 * 4
}

/// What a `Normalize(from, to)` stage does to one file name: when the name
/// is in the declared source form (or its compatibility variant), convert
/// it to the target form; otherwise leave it alone.
pub open spec fn normalize_name(from: Form, to: Form, name: Seq<char>) -> Seq<char> {
    if from is Nfd && to is Nfc {
        if nfd_of(name) == name || nfkd_of(name) == name {
            nfc_of(name)
        } else {
            name
        }
    } else if from is Nfc && to is Nfd {
        if nfc_of(name) == name || nfkc_of(name) == name {
            nfd_of(name)
        } else {
            name
        }
    } else {
        name
    }
}

/// Keep a repaired name only when it is free of the over-decoding marker.
pub open spec fn guard_recode(name: Seq<char>, repaired: Seq<char>) -> Seq<char> {
    if has_sub(repaired, over_decoded_marker()) {
        name
    } else {
        repaired
    }
}

/// What a `Recode(AUTO)` stage does to one file name: leave CJK-looking
/// names alone; otherwise re-read the name's Windows-1252 bytes as GBK,
/// discarding the repair when the marker guard fires.
pub open spec fn unbake_auto_name(name: Seq<char>) -> Seq<char> {
    if spec_guess_is_cjk(name) {
        name
    } else {
        guard_recode(name, unbaked_of(name))
    }
}

/// What an explicit `Recode(from -> to)` stage does to one file name:
/// fail the run when either label is unknown; otherwise re-encode, with
/// the same marker guard.
pub open spec fn recode_name(from: Seq<char>, to: Seq<char>, name: Seq<char>) -> Result<
    Seq<char>,
    PipelineError,
> {
    if known_label(from) && known_label(to) {
        Ok(guard_recode(name, recoded_of(from, to, name)))
    } else {
        Err(PipelineError::UnknownEncoding)
    }
}

/// Does some pattern in the list call for a regular expression?
pub open spec fn patterns_have_regex(ps: Seq<PatternModel>) -> bool {
    exists|i: int| 0 <= i < ps.len() && ps[i] is Regex
}

/// Remove each literal pattern from the name, in declaration order.
pub open spec fn remove_patterns_model(ps: Seq<PatternModel>, name: Seq<char>) -> Seq<char>
    decreases ps.len(),
{
    if ps.len() == 0 {
        name
    } else {
        let after = match ps[0] {
            PatternModel::Str(t) => remove_all(name, t),
            PatternModel::Regex(_) => name,
        };
        remove_patterns_model(ps.skip(1), after)
    }
}

/// What a `Rename(remove, patterns)` stage does to one file name: regular
/// expressions are not yet supported and fail the run; literal patterns
/// are each removed everywhere, in declaration order.
pub open spec fn rename_name(ps: Seq<PatternModel>, name: Seq<char>) -> Result<
    Seq<char>,
    PipelineError,
> {
    if patterns_have_regex(ps) {
        Err(PipelineError::RegexUnsupported)
    } else {
        Ok(remove_patterns_model(ps, name))
    }
}

/// A name already in composed (NFC) form is untouched by a
/// `Normalize(NFD -> NFC)` stage, so such a name never yields a rename.
pub proof fn lemma_normalize_nfc_noop(name: Seq<char>)
    requires
        nfc_of(name) == name,
    ensures
        normalize_name(Form::Nfd, Form::Nfc, name) == name,
{
}

/// Auto-recode never adopts a repair that carries the over-decoding
/// marker: whenever the stage changes a name, the new name is marker-free.
pub proof fn lemma_unbake_auto_guarded(name: Seq<char>)
    ensures
        unbake_auto_name(name) != name ==> !has_sub(
            unbake_auto_name(name),
            over_decoded_marker(),
        ),
{
}

/// What one stage does to one file name. `Path` and `Target` stages are
/// consumed by the tree runner and the validator, so they change nothing
/// here.
pub open spec fn stage_name(m: StageModel, name: Seq<char>) -> Result<Seq<char>, PipelineError> {
    match m {
        StageModel::Path(_) => Ok(name),
        StageModel::Target(_) => Ok(name),
        StageModel::Normalize(f, t) => Ok(normalize_name(f, t, name)),
        StageModel::Unbake(opt) => match opt {
            None => Ok(unbake_auto_name(name)),
            Some(pair) => recode_name(pair.0, pair.1, name),
        },
        StageModel::Rename(ps) => rename_name(ps, name),
    }
}

/// What one stage does to one candidate path: rewrite the file-name
/// component, refusing paths beyond the engine's length limit.
pub open spec fn stage_path(m: StageModel, path: Seq<char>) -> Result<Seq<char>, PipelineError> {
    if path.len() >= NAME_LIMIT {
        Err(PipelineError::NameTooLong)
    } else {
        match stage_name(m, file_name_of(path)) {
            Ok(n) => Ok(with_file_name(path, n)),
            Err(e) => Err(e),
        }
    }
}

/// The whole pipeline folded over one candidate path, left to right.
pub open spec fn pipeline_path(ms: Seq<StageModel>, path: Seq<char>) -> Result<
    Seq<char>,
    PipelineError,
>
    decreases ms.len(),
{
    if ms.len() == 0 {
        Ok(path)
    } else {
        match stage_path(ms[0], path) {
            Ok(p) => pipeline_path(ms.skip(1), p),
            Err(e) => Err(e),
        }
    }
}

/// `Normalize(NFD -> NFC)` on one path: when the file-name component is
/// NFD- or NFKD-normalized, recompose it to NFC and put it back;
/// otherwise return the path unchanged. A name already in composed form
/// always comes back unchanged.
pub fn convert_to_nfc(path: &str) -> (r: String)
    ensures
        r@ == with_file_name(path@, normalize_name(Form::Nfd, Form::Nfc, file_name_of(path@))),
        nfc_of(file_name_of(path@)) == file_name_of(path@) ==> r@ == path@,
        nfd_of(file_name_of(path@)) == file_name_of(path@) || nfkd_of(file_name_of(path@))
            == file_name_of(path@) ==> r@ == with_file_name(path@, nfc_of(file_name_of(path@)))
            && nfc_of(nfc_of(file_name_of(path@))) == nfc_of(file_name_of(path@)),
{
    let pv = str_chars(path);
    let name_v = file_name_chars(pv.as_slice());
    let name_s = crate::text::chars_string(name_v.as_slice());
    proof {
        lemma_with_own_name(path@);
    }
    if unicode_normalization::is_nfd(name_s.as_str()) || unicode_normalization::is_nfkd(
        name_s.as_str(),
    ) {
        let composed = to_nfc(name_s.as_str());
        let cv = str_chars(composed.as_str());
        let out = replace_file_name(pv.as_slice(), cv.as_slice());
        crate::text::chars_string(out.as_slice())
    } else {
        String::from_str(path)
    }
}

/// `Normalize(NFC -> NFD)` on one path: the symmetric, form-correct
/// conversion — when the file-name component is NFC- or NFKC-normalized,
/// decompose it to NFD and put it back; otherwise return the path
/// unchanged.
pub fn convert_to_nfd(path: &str) -> (r: String)
    ensures
        r@ == with_file_name(path@, normalize_name(Form::Nfc, Form::Nfd, file_name_of(path@))),
        nfd_of(file_name_of(path@)) == file_name_of(path@) ==> r@ == path@,
{
    let pv = str_chars(path);
    let name_v = file_name_chars(pv.as_slice());
    let name_s = crate::text::chars_string(name_v.as_slice());
    proof {
        lemma_with_own_name(path@);
    }
    if unicode_normalization::is_nfc(name_s.as_str()) || unicode_normalization::is_nfkc(
        name_s.as_str(),
    ) {
        let decomposed = to_nfd(name_s.as_str());
        let dv = str_chars(decomposed.as_str());
        let out = replace_file_name(pv.as_slice(), dv.as_slice());
        crate::text::chars_string(out.as_slice())
    } else {
        String::from_str(path)
    }
}

/// `Recode(AUTO)` on one path: mojibake repair. Returns the repaired path
/// when the name does not look like CJK text and the Windows-1252-to-GBK
/// re-reading is free of the over-decoding marker; `None` when there is
/// nothing to repair. A repair that is returned never contains the marker.
pub fn latin1_to_utf8(path: &str) -> (r: Option<String>)
    requires
        path@.len() < 0x1000_0000_0000_0000,
    ensures
        ({
            let name = file_name_of(path@);
            match r {
                Some(p) => !spec_guess_is_cjk(name) && !has_sub(
                    unbaked_of(name),
                    over_decoded_marker(),
                ) && p@ == with_file_name(path@, unbaked_of(name)),
                None => spec_guess_is_cjk(name) || has_sub(
                    unbaked_of(name),
                    over_decoded_marker(),
                ),
            }
        }),
{
    proof {
        lemma_name_start_bounds(path@);
    }
    let pv = str_chars(path);
    let name_v = file_name_chars(pv.as_slice());
    let name_s = crate::text::chars_string(name_v.as_slice());
    if guess_is_cjk(name_s.as_str()) {
        return None;
    }
    let repaired = unbake_windows_1252_gbk(name_s.as_str());
    let rv = str_chars(repaired.as_str());
    let mut marker: Vec<char> = Vec::new();
    marker.push('&');
    marker.push('#');
    proof {
        assert(marker@ =~= over_decoded_marker());
    }
    if contains_pattern(rv.as_slice(), marker.as_slice()) {
        return None;
    }
    let out = replace_file_name(pv.as_slice(), rv.as_slice());
    Some(crate::text::chars_string(out.as_slice()))
}

/// Explicit `Recode(from -> to)` on one path: re-encode the file-name
/// component through the two named charsets, keep the original name when
/// the marker guard fires, and fail the run when a label is unknown.
/// Recoding through UTF-8 on both sides is the identity.
pub fn change_encoding(from: &str, to: &str, path: &str) -> (r: Result<String, PipelineError>)
    requires
        path@.len() < 0x1000_0000_0000_0000,
    ensures
        ({
            let name = file_name_of(path@);
            match r {
                Ok(p) => recode_name(from@, to@, name) matches Ok(n) && p@ == with_file_name(
                    path@,
                    n,
                ),
                Err(e) => recode_name(from@, to@, name) == Err::<Seq<char>, PipelineError>(e),
            }
        }),
        from@ == "utf-8"@ && to@ == "utf-8"@ ==> (r matches Ok(p) && p@ == path@),
{
    proof {
        lemma_name_start_bounds(path@);
        lemma_with_own_name(path@);
    }
    let pv = str_chars(path);
    let name_v = file_name_chars(pv.as_slice());
    let name_s = crate::text::chars_string(name_v.as_slice());
    let repaired = match recode_text(from, to, name_s.as_str()) {
        Some(t) => t,
        None => {
            return Err(PipelineError::UnknownEncoding);
        },
    };
    let rv = str_chars(repaired.as_str());
    let mut marker: Vec<char> = Vec::new();
    marker.push('&');
    marker.push('#');
    proof {
        assert(marker@ =~= over_decoded_marker());
    }
    if contains_pattern(rv.as_slice(), marker.as_slice()) {
        proof {
            lemma_with_own_name(path@);
        }
        Ok(String::from_str(path))
    } else {
        let out = replace_file_name(pv.as_slice(), rv.as_slice());
        Ok(crate::text::chars_string(out.as_slice()))
    }
}

/// `Rename(remove, patterns)` on one path: remove every literal pattern
/// from the file-name component, in declaration order; a regular
/// expression pattern fails the run with a distinct error.
pub fn remove_str_by_patterns(patterns: &Vec<Pattern>, path: &str) -> (r: Result<
    String,
    PipelineError,
>)
    ensures
        ({
            let ps = patterns@.map_values(|p: Pattern| p@);
            let name = file_name_of(path@);
            match r {
                Ok(s) => rename_name(ps, name) matches Ok(n) && s@ == with_file_name(path@, n),
                Err(e) => rename_name(ps, name) == Err::<Seq<char>, PipelineError>(e),
            }
        }),
{
    let ghost ps = patterns@.map_values(|p: Pattern| p@);
    let pv = str_chars(path);
    let mut name_v = file_name_chars(pv.as_slice());
    let mut i: usize = 0;
    proof {
        assert(ps.skip(0) =~= ps);
    }
    while i < patterns.len()
        invariant
            i <= patterns@.len(),
            ps == patterns@.map_values(|p: Pattern| p@),
            ps.len() == patterns@.len(),
            forall|k: int| 0 <= k < i ==> !(ps[k] is Regex),
            remove_patterns_model(ps, file_name_of(path@)) == remove_patterns_model(
                ps.skip(i as int),
                name_v@,
            ),
        decreases patterns@.len() - i,
    {
        proof {
            assert(ps.skip(i as int)[0] == ps[i as int]);
            assert(ps.skip(i as int).skip(1) =~= ps.skip(i + 1 as int));
        }
        match &patterns[i] {
            Pattern::Regex(_) => {
                proof {
                    assert(ps[i as int] is Regex);
                }
                return Err(PipelineError::RegexUnsupported);
            },
            Pattern::Str(t) => {
                let tv = str_chars(t.as_str());
                name_v = remove_pattern(name_v.as_slice(), tv.as_slice());
            },
        }
        i += 1;
    }
    proof {
        assert(ps.skip(ps.len() as int) =~= Seq::<PatternModel>::empty());
        assert(!patterns_have_regex(ps));
    }
    let out = replace_file_name(pv.as_slice(), name_v.as_slice());
    Ok(crate::text::chars_string(out.as_slice()))
}

/// Apply one stage to one candidate path, as `stage_path` describes.
pub fn apply_stage(t: &Token, path: &str) -> (r: Result<String, PipelineError>)
    ensures
        ({
            match r {
                Ok(s) => stage_path(t@, path@) == Ok::<Seq<char>, PipelineError>(s@),
                Err(e) => stage_path(t@, path@) == Err::<Seq<char>, PipelineError>(e),
            }
        }),
{
    if path.unicode_len() >= NAME_LIMIT {
        return Err(PipelineError::NameTooLong);
    }
    proof {
        lemma_with_own_name(path@);
    }
    match t {
        Token::Path(_) => Ok(String::from_str(path)),
        Token::Target(_) => Ok(String::from_str(path)),
        Token::Normalize(n) => {
            match (n.from, n.to) {
                (Form::Nfd, Form::Nfc) => Ok(convert_to_nfc(path)),
                (Form::Nfc, Form::Nfd) => Ok(convert_to_nfd(path)),
                _ => Ok(String::from_str(path)),
            }
        },
        Token::Unbake(u) => {
            match &u.encoding {
                None => {
                    match latin1_to_utf8(path) {
                        Some(s) => Ok(s),
                        None => Ok(String::from_str(path)),
                    }
                },
                Some(pair) => change_encoding(pair.0.as_str(), pair.1.as_str(), path),
            }
        },
        Token::Rename(rn) => {
            match rn.command {
                Command::Remove => remove_str_by_patterns(&rn.patterns, path),
            }
        },
    }
}

/// Folds a validated stage list over one candidate path at a time.
pub struct Executor {
    tasks: Vec<Token>,
}

impl View for Executor {
    type V = Seq<StageModel>;

    closed spec fn view(&self) -> Seq<StageModel> {
        stage_models(self.tasks@)
    }
}

impl Executor {
    /// An executor with no stages yet.
    pub fn new() -> (e: Executor)
        ensures
            e@ == Seq::<StageModel>::empty(),
    {
        let e = Executor { tasks: Vec::new() };
        proof {
            assert(e@ =~= Seq::<StageModel>::empty());
        }
        e
    }

    /// Append one stage to the list.
    pub fn add_task(&mut self, task: Token)
        ensures
            final(self)@ == old(self)@.push(task@),
    {
        let ghost t = task@;
        self.tasks.push(task);
        proof {
            assert(final(self)@ =~= old(self)@.push(t));
        }
    }

    /// Thread one candidate path through every stage, left to right.
    pub fn exec(&self, path: &str) -> (r: Result<String, PipelineError>)
        ensures
            ({
                match r {
                    Ok(s) => pipeline_path(self@, path@) == Ok::<Seq<char>, PipelineError>(s@),
                    Err(e) => pipeline_path(self@, path@) == Err::<Seq<char>, PipelineError>(e),
                }
            }),
    {
        run_stages(&self.tasks, path)
    }
}

/// Thread one candidate path through a stage list, left to right.
pub fn run_stages(tokens: &Vec<Token>, path: &str) -> (r: Result<String, PipelineError>)
    ensures
        ({
            match r {
                Ok(s) => pipeline_path(stage_models(tokens@), path@) == Ok::<
                    Seq<char>,
                    PipelineError,
                >(s@),
                Err(e) => pipeline_path(stage_models(tokens@), path@) == Err::<
                    Seq<char>,
                    PipelineError,
                >(e),
            }
        }),
{
    let ghost ms = stage_models(tokens@);
    let mut current = String::from_str(path);
    let mut i: usize = 0;
    proof {
        assert(ms.skip(0) =~= ms);
    }
    while i < tokens.len()
        invariant
            i <= tokens@.len(),
            ms == stage_models(tokens@),
            ms.len() == tokens@.len(),
            pipeline_path(ms, path@) == pipeline_path(ms.skip(i as int), current@),
        decreases tokens@.len() - i,
    {
        proof {
            assert(ms.skip(i as int)[0] == ms[i as int]);
            assert(ms[i as int] == tokens@[i as int]@);
            assert(ms.skip(i as int).skip(1) =~= ms.skip(i + 1 as int));
        }
        match apply_stage(&tokens[i], current.as_str()) {
            Ok(next) => {
                current = next;
            },
            Err(e) => {
                return Err(e);
            },
        }
        i += 1;
    }
    proof {
        assert(ms.skip(ms.len() as int) =~= Seq::<StageModel>::empty());
    }
    Ok(current)
}

} // verus!
