//! The pipeline validator and the tree runner: check the structural
//! invariants of a stage list, then drive the stage executor over a
//! directory listing and collect the resulting renames. The caller walks
//! the file system and hands the listing in; the runner decides.

use vstd::prelude::*;
use crate::executor::{
    normalize_name, patterns_have_regex, pipeline_path, remove_patterns_model, run_stages,
    stage_name, stage_path, unbake_auto_name, NAME_LIMIT,
};
use crate::log::LogEntry;
use crate::paths::{file_name_of, is_hidden, is_hidden_name, file_name_chars,
    lemma_with_own_name, with_file_name};
use crate::stages::{Form, PatternModel, PipelineError, StageModel, Target, Token, Normalize,
    Unbake, stage_models};
use crate::text::{chars_string, str_chars};

verus! {

/// How many root-path stages a stage list declares.
pub open spec fn count_paths(ms: Seq<StageModel>) -> nat
    decreases ms.len(),
{
    if ms.len() == 0 {
        0
    } else {
        count_paths(ms.drop_last()) + if ms.last() is Path {
            1nat
        } else {
            0nat
        }
    }
}

/// How many target stages a stage list declares.
pub open spec fn count_targets(ms: Seq<StageModel>) -> nat
    decreases ms.len(),
{
    if ms.len() == 0 {
        0
    } else {
        count_targets(ms.drop_last()) + if ms.last() is Target {
            1nat
        } else {
            0nat
        }
    }
}

/// The first declared root path, if any.
pub open spec fn first_path(ms: Seq<StageModel>) -> Option<Seq<char>>
    decreases ms.len(),
{
    if ms.len() == 0 {
        None
    } else {
        match ms[0] {
            StageModel::Path(p) => Some(p),
            _ => first_path(ms.skip(1)),
        }
    }
}

/// The first declared target, if any.
pub open spec fn first_target(ms: Seq<StageModel>) -> Option<Target>
    decreases ms.len(),
{
    if ms.len() == 0 {
        None
    } else {
        match ms[0] {
            StageModel::Target(t) => Some(t),
            _ => first_target(ms.skip(1)),
        }
    }
}

/// The structural invariants a pipeline must meet before execution:
/// exactly one root path, exactly one target, and the target must be
/// `filename` — transforming file contents is unsupported.
pub open spec fn spec_validate(ms: Seq<StageModel>) -> Result<(), PipelineError> {
    if count_paths(ms) == 0 {
        Err(PipelineError::MissingRootPath)
    } else if count_paths(ms) > 1 {
        Err(PipelineError::DuplicateRootPath)
    } else if count_targets(ms) == 0 {
        Err(PipelineError::MissingTarget)
    } else if count_targets(ms) > 1 {
        Err(PipelineError::DuplicateTarget)
    } else if first_target(ms) == Some(Target::Content) {
        Err(PipelineError::ContentTargetUnsupported)
    } else {
        Ok(())
    }
}

/// Check a stage list against the structural invariants; validation never
/// reorders or changes stages.
pub fn validate(tokens: &Vec<Token>) -> (r: Result<(), PipelineError>)
    ensures
        r == spec_validate(stage_models(tokens@)),
{
    let ghost ms = stage_models(tokens@);
    let mut paths: usize = 0;
    let mut targets: usize = 0;
    let mut target: Option<Target> = None;
    let mut i: usize = 0;
    proof {
        assert(ms.take(0) =~= Seq::<StageModel>::empty());
        assert(ms.skip(0) =~= ms);
    }
    while i < tokens.len()
        invariant
            i <= tokens@.len(),
            ms == stage_models(tokens@),
            ms.len() == tokens@.len(),
            paths <= i,
            targets <= i,
            paths as nat == count_paths(ms.take(i as int)),
            targets as nat == count_targets(ms.take(i as int)),
            (target is Some) == (targets >= 1),
            match target {
                Some(t) => first_target(ms) == Some(t),
                None => first_target(ms) == first_target(ms.skip(i as int)),
            },
        decreases tokens@.len() - i,
    {
        proof {
            assert(ms.take(i + 1 as int).drop_last() =~= ms.take(i as int));
            assert(ms.take(i + 1 as int).last() == ms[i as int]);
            assert(ms[i as int] == tokens@[i as int]@);
            assert(ms.skip(i as int)[0] == ms[i as int]);
            assert(ms.skip(i as int).skip(1) =~= ms.skip(i + 1 as int));
        }
        match &tokens[i] {
            Token::Path(_) => {
                paths += 1;
            },
            Token::Target(t) => {
                targets += 1;
                if targets == 1 {
                    target = Some(*t);
                }
            },
            _ => {},
        }
        i += 1;
    }
    proof {
        assert(ms.take(ms.len() as int) =~= ms);
        if i == tokens.len() && target is None {
            assert(ms.skip(ms.len() as int) =~= Seq::<StageModel>::empty());
        }
    }
    if paths == 0 {
        Err(PipelineError::MissingRootPath)
    } else if paths > 1 {
        Err(PipelineError::DuplicateRootPath)
    } else if targets == 0 {
        Err(PipelineError::MissingTarget)
    } else if targets > 1 {
        Err(PipelineError::DuplicateTarget)
    } else {
        match target {
            Some(Target::Content) => Err(PipelineError::ContentTargetUnsupported),
            _ => Ok(()),
        }
    }
}

/// The first declared root path of a stage list, for the caller to
/// resolve and walk.
pub fn root_path_of(tokens: &Vec<Token>) -> (r: Option<String>)
    ensures
        match r {
            Some(s) => first_path(stage_models(tokens@)) == Some(s@),
            None => first_path(stage_models(tokens@)) is None,
        },
{
    let ghost ms = stage_models(tokens@);
    let mut i: usize = 0;
    proof {
        assert(ms.skip(0) =~= ms);
    }
    while i < tokens.len()
        invariant
            i <= tokens@.len(),
            ms == stage_models(tokens@),
            ms.len() == tokens@.len(),
            first_path(ms) == first_path(ms.skip(i as int)),
        decreases tokens@.len() - i,
    {
        proof {
            assert(ms.skip(i as int)[0] == ms[i as int]);
            assert(ms[i as int] == tokens@[i as int]@);
            assert(ms.skip(i as int).skip(1) =~= ms.skip(i + 1 as int));
        }
        match &tokens[i] {
            Token::Path(p) => {
                return Some(String::from_str(p.as_str()));
            },
            _ => {},
        }
        i += 1;
    }
    proof {
        assert(ms.skip(ms.len() as int) =~= Seq::<StageModel>::empty());
    }
    None
}

/// One entry of a directory listing: its path, and whether it is a
/// directory.
pub struct FileEntry {
    pub path: String,
    pub is_dir: bool,
}

impl View for FileEntry {
    type V = (Seq<char>, bool);

    open spec fn view(&self) -> (Seq<char>, bool) {
        (self.path@, self.is_dir)
    }
}

/// The models of a directory listing.
pub open spec fn entry_models(es: Seq<FileEntry>) -> Seq<(Seq<char>, bool)> {
    es.map_values(|e: FileEntry| e@)
}

/// The models of a rename log.
pub open spec fn log_models(es: Seq<LogEntry>) -> Seq<(Seq<char>, Seq<char>)> {
    es.map_values(|e: LogEntry| e@)
}

/// Planning over a listing, with `acc` the renames already decided:
/// directories and hidden entries are skipped; each remaining file is
/// threaded through the stages; a changed path becomes a log pair unless
/// its destination collides with one already decided, which fails the
/// run; a stage error fails the run.
pub open spec fn spec_plan_from(
    ms: Seq<StageModel>,
    es: Seq<(Seq<char>, bool)>,
    acc: Seq<(Seq<char>, Seq<char>)>,
) -> Result<Seq<(Seq<char>, Seq<char>)>, PipelineError>
    decreases es.len(),
{
    if es.len() == 0 {
        Ok(acc)
    } else {
        let e = es[0];
        if e.1 || is_hidden_name(file_name_of(e.0)) {
            spec_plan_from(ms, es.skip(1), acc)
        } else {
            match pipeline_path(ms, e.0) {
                Err(err) => Err(err),
                Ok(p2) => if p2 == e.0 {
                    spec_plan_from(ms, es.skip(1), acc)
                } else if exists|k: int| 0 <= k < acc.len() && acc[k].1 == p2 {
                    Err(PipelineError::DestinationCollision)
                } else {
                    spec_plan_from(ms, es.skip(1), acc.push((e.0, p2)))
                },
            }
        }
    }
}

/// What a whole planning run decides: validate, then plan every entry.
pub open spec fn spec_run(ms: Seq<StageModel>, es: Seq<(Seq<char>, bool)>) -> Result<
    Seq<(Seq<char>, Seq<char>)>,
    PipelineError,
> {
    match spec_validate(ms) {
        Err(e) => Err(e),
        Ok(_) => spec_plan_from(ms, es, Seq::<(Seq<char>, Seq<char>)>::empty()),
    }
}

/// Plan a listing against an already validated stage list.
fn plan_entries(tokens: &Vec<Token>, entries: &Vec<FileEntry>) -> (r: Result<
    Vec<LogEntry>,
    PipelineError,
>)
    ensures
        ({
            let ms = stage_models(tokens@);
            let es = entry_models(entries@);
            match r {
                Ok(log) => spec_plan_from(ms, es, Seq::<(Seq<char>, Seq<char>)>::empty()) == Ok::<
                    Seq<(Seq<char>, Seq<char>)>,
                    PipelineError,
                >(log_models(log@)),
                Err(e) => spec_plan_from(ms, es, Seq::<(Seq<char>, Seq<char>)>::empty()) == Err::<
                    Seq<(Seq<char>, Seq<char>)>,
                    PipelineError,
                >(e),
            }
        }),
{
    let ghost ms = stage_models(tokens@);
    let ghost es = entry_models(entries@);
    let mut out: Vec<LogEntry> = Vec::new();
    let mut i: usize = 0;
    proof {
        assert(es.skip(0) =~= es);
        assert(log_models(out@) =~= Seq::<(Seq<char>, Seq<char>)>::empty());
    }
    while i < entries.len()
        invariant
            i <= entries@.len(),
            ms == stage_models(tokens@),
            es == entry_models(entries@),
            es.len() == entries@.len(),
            spec_plan_from(ms, es, Seq::<(Seq<char>, Seq<char>)>::empty()) == spec_plan_from(
                ms,
                es.skip(i as int),
                log_models(out@),
            ),
        decreases entries@.len() - i,
    {
        proof {
            assert(es.skip(i as int)[0] == es[i as int]);
            assert(es[i as int] == entries@[i as int]@);
            assert(es.skip(i as int).skip(1) =~= es.skip(i + 1 as int));
        }
        let entry = &entries[i];
        let skip_entry = if entry.is_dir {
            true
        } else {
            let pv = str_chars(entry.path.as_str());
            let name_v = file_name_chars(pv.as_slice());
            let name_s = chars_string(name_v.as_slice());
            is_hidden(name_s.as_str())
        };
        if !skip_entry {
            match run_stages(tokens, entry.path.as_str()) {
                Err(e) => {
                    return Err(e);
                },
                Ok(p2) => {
                    if !(p2 == entry.path) {
                        let ghost dest = p2@;
                        let ghost pre = log_models(out@);
                        let mut j: usize = 0;
                        let mut collides = false;
                        while j < out.len() && !collides
                            invariant
                                j <= out@.len(),
                                dest == p2@,
                                pre == log_models(out@),
                                pre.len() == out@.len(),
                                collides ==> exists|k: int|
                                    0 <= k < pre.len() && pre[k].1 == dest,
                                !collides ==> forall|k: int|
                                    0 <= k < j ==> pre[k].1 != dest,
                            decreases out@.len() - j,
                        {
                            proof {
                                assert(pre[j as int] == out@[j as int]@);
                            }
                            if out[j].to == p2 {
                                proof {
                                    assert(pre[j as int].1 == dest);
                                }
                                collides = true;
                            }
                            j += 1;
                        }
                        if collides {
                            return Err(PipelineError::DestinationCollision);
                        }
                        let from_copy = String::from_str(entry.path.as_str());
                        out.push(LogEntry { from: from_copy, to: p2 });
                        proof {
                            assert(log_models(out@) =~= pre.push((es[i as int].0, dest)));
                        }
                    }
                },
            }
        }
        i += 1;
    }
    proof {
        assert(es.skip(es.len() as int) =~= Seq::<(Seq<char>, bool)>::empty());
    }
    Ok(out)
}

/// Validate a stage list and plan a directory listing against it: the
/// returned log holds one `from`-to-`to` pair per visible regular file
/// whose path the pipeline changed, in listing order.
pub fn plan(tokens: &Vec<Token>, entries: &Vec<FileEntry>) -> (r: Result<
    Vec<LogEntry>,
    PipelineError,
>)
    ensures
        ({
            let ms = stage_models(tokens@);
            let es = entry_models(entries@);
            match r {
                Ok(log) => spec_run(ms, es) == Ok::<Seq<(Seq<char>, Seq<char>)>, PipelineError>(
                    log_models(log@),
                ),
                Err(e) => spec_run(ms, es) == Err::<Seq<(Seq<char>, Seq<char>)>, PipelineError>(
                    e,
                ),
            }
        }),
{
    match validate(tokens) {
        Err(e) => Err(e),
        Ok(_) => plan_entries(tokens, entries),
    }
}

/// The stages of the built-in normalize-and-recode flow: recompose NFD
/// names to NFC, then auto-repair mojibake.
pub open spec fn builtin_normalize_stages() -> Seq<StageModel> {
    seq![StageModel::Normalize(Form::Nfd, Form::Nfc), StageModel::Unbake(None)]
}

/// The stage list of the built-in normalize-and-recode flow.
fn builtin_normalize_tokens() -> (r: Vec<Token>)
    ensures
        stage_models(r@) == builtin_normalize_stages(),
{
    let mut tokens: Vec<Token> = Vec::new();
    tokens.push(Token::Normalize(Normalize { from: Form::Nfd, to: Form::Nfc }));
    tokens.push(Token::Unbake(Unbake { encoding: None }));
    proof {
        assert(stage_models(tokens@) =~= builtin_normalize_stages());
    }
    tokens
}

/// One path through the built-in normalize-and-recode flow.
pub fn try_to_nfc_and_utf8(path: &str) -> (r: Result<String, PipelineError>)
    ensures
        ({
            match r {
                Ok(s) => pipeline_path(builtin_normalize_stages(), path@) == Ok::<
                    Seq<char>,
                    PipelineError,
                >(s@),
                Err(e) => pipeline_path(builtin_normalize_stages(), path@) == Err::<
                    Seq<char>,
                    PipelineError,
                >(e),
            }
        }),
{
    let tokens = builtin_normalize_tokens();
    run_stages(&tokens, path)
}

/// Plan the built-in normalize-and-recode flow over a directory listing.
pub fn normalize_plan(entries: &Vec<FileEntry>) -> (r: Result<Vec<LogEntry>, PipelineError>)
    ensures
        ({
            let es = entry_models(entries@);
            match r {
                Ok(log) => spec_plan_from(
                    builtin_normalize_stages(),
                    es,
                    Seq::<(Seq<char>, Seq<char>)>::empty(),
                ) == Ok::<Seq<(Seq<char>, Seq<char>)>, PipelineError>(log_models(log@)),
                Err(e) => spec_plan_from(
                    builtin_normalize_stages(),
                    es,
                    Seq::<(Seq<char>, Seq<char>)>::empty(),
                ) == Err::<Seq<(Seq<char>, Seq<char>)>, PipelineError>(e),
            }
        }),
{
    let tokens = builtin_normalize_tokens();
    plan_entries(&tokens, entries)
}

/// A run whose pipeline is a root path, a filename target and one
/// transformation stage, over a listing of one visible file: the plan is
/// exactly one rename when the stage changes the path, and empty when it
/// does not.
proof fn lemma_plan_single_stage(d: Seq<char>, m: StageModel, path: Seq<char>, n: Seq<char>)
    requires
        path.len() < NAME_LIMIT,
        !is_hidden_name(file_name_of(path)),
        !(m is Path),
        !(m is Target),
        stage_name(m, file_name_of(path)) == Ok::<Seq<char>, PipelineError>(n),
    ensures
        ({
            let target = with_file_name(path, n);
            spec_run(
                seq![StageModel::Path(d), StageModel::Target(Target::Filename), m],
                seq![(path, false)],
            ) == Ok::<Seq<(Seq<char>, Seq<char>)>, PipelineError>(
                if target == path {
                    Seq::<(Seq<char>, Seq<char>)>::empty()
                } else {
                    seq![(path, target)]
                },
            )
        }),
{
    let m0 = StageModel::Path(d);
    let m1 = StageModel::Target(Target::Filename);
    let ms = seq![m0, m1, m];
    let target = with_file_name(path, n);
    assert(ms.drop_last() =~= seq![m0, m1]);
    assert(seq![m0, m1].drop_last() =~= seq![m0]);
    assert(seq![m0].drop_last() =~= Seq::<StageModel>::empty());
    assert(count_paths(Seq::<StageModel>::empty()) == 0);
    assert(count_paths(seq![m0]) == 1);
    assert(count_paths(seq![m0, m1]) == 1);
    assert(count_paths(ms) == 1);
    assert(count_targets(Seq::<StageModel>::empty()) == 0);
    assert(count_targets(seq![m0]) == 0);
    assert(count_targets(seq![m0, m1]) == 1);
    assert(count_targets(ms) == 1);
    assert(ms.skip(1) =~= seq![m1, m]);
    assert(first_target(seq![m1, m]) == Some(Target::Filename));
    assert(first_target(ms) == Some(Target::Filename));
    assert(spec_validate(ms) == Ok::<(), PipelineError>(()));
    lemma_with_own_name(path);
    assert(seq![m1, m].skip(1) =~= seq![m]);
    assert(seq![m].skip(1) =~= Seq::<StageModel>::empty());
    assert(stage_path(m0, path) == Ok::<Seq<char>, PipelineError>(path));
    assert(stage_path(m1, path) == Ok::<Seq<char>, PipelineError>(path));
    assert(stage_path(m, path) == Ok::<Seq<char>, PipelineError>(target));
    assert(pipeline_path(Seq::<StageModel>::empty(), target) == Ok::<Seq<char>, PipelineError>(
        target,
    ));
    assert(pipeline_path(seq![m], path) == Ok::<Seq<char>, PipelineError>(target));
    assert(pipeline_path(seq![m1, m], path) == Ok::<Seq<char>, PipelineError>(target));
    assert(pipeline_path(ms, path) == Ok::<Seq<char>, PipelineError>(target));
    let es = seq![(path, false)];
    let acc0 = Seq::<(Seq<char>, Seq<char>)>::empty();
    assert(es.skip(1) =~= Seq::<(Seq<char>, bool)>::empty());
    if target == path {
        assert(spec_plan_from(ms, es.skip(1), acc0) == Ok::<
            Seq<(Seq<char>, Seq<char>)>,
            PipelineError,
        >(acc0));
        assert(spec_plan_from(ms, es, acc0) == Ok::<Seq<(Seq<char>, Seq<char>)>, PipelineError>(
            acc0,
        ));
    } else {
        assert(!(exists|k: int| 0 <= k < acc0.len() && acc0[k].1 == target));
        let acc1 = acc0.push((path, target));
        assert(spec_plan_from(ms, es.skip(1), acc1) == Ok::<
            Seq<(Seq<char>, Seq<char>)>,
            PipelineError,
        >(acc1));
        assert(acc1 =~= seq![(path, target)]);
    }
}

/// The normalize scenario, in general: the pipeline
/// `[PATH, TARGET=filename, NORMALIZE(NFD->NFC)]` over one visible file
/// plans exactly the rename from the path to the path with the
/// recomposed name — and nothing when recomposition changes nothing.
pub proof fn lemma_plan_normalize_single(d: Seq<char>, path: Seq<char>)
    requires
        path.len() < NAME_LIMIT,
        !is_hidden_name(file_name_of(path)),
    ensures
        ({
            let target = with_file_name(
                path,
                normalize_name(Form::Nfd, Form::Nfc, file_name_of(path)),
            );
            spec_run(
                seq![
                    StageModel::Path(d),
                    StageModel::Target(Target::Filename),
                    StageModel::Normalize(Form::Nfd, Form::Nfc),
                ],
                seq![(path, false)],
            ) == Ok::<Seq<(Seq<char>, Seq<char>)>, PipelineError>(
                if target == path {
                    Seq::<(Seq<char>, Seq<char>)>::empty()
                } else {
                    seq![(path, target)]
                },
            )
        }),
{
    lemma_plan_single_stage(
        d,
        StageModel::Normalize(Form::Nfd, Form::Nfc),
        path,
        normalize_name(Form::Nfd, Form::Nfc, file_name_of(path)),
    );
}

/// The auto-recode scenario, in general: the pipeline
/// `[PATH, TARGET=filename, RECODE(AUTO)]` over one visible file plans
/// exactly the rename from the path to the path with the repaired name —
/// and nothing when the guesser or the marker guard declines the repair.
pub proof fn lemma_plan_unbake_auto_single(d: Seq<char>, path: Seq<char>)
    requires
        path.len() < NAME_LIMIT,
        !is_hidden_name(file_name_of(path)),
    ensures
        ({
            let target = with_file_name(path, unbake_auto_name(file_name_of(path)));
            spec_run(
                seq![
                    StageModel::Path(d),
                    StageModel::Target(Target::Filename),
                    StageModel::Unbake(None),
                ],
                seq![(path, false)],
            ) == Ok::<Seq<(Seq<char>, Seq<char>)>, PipelineError>(
                if target == path {
                    Seq::<(Seq<char>, Seq<char>)>::empty()
                } else {
                    seq![(path, target)]
                },
            )
        }),
{
    lemma_plan_single_stage(
        d,
        StageModel::Unbake(None),
        path,
        unbake_auto_name(file_name_of(path)),
    );
}

/// The rename scenario, in general: the pipeline
/// `[PATH, TARGET=filename, RENAME(remove, ...)]` with literal patterns
/// over one visible file plans exactly the rename from the path to the
/// path with every pattern removed — and nothing when removal changes
/// nothing.
pub proof fn lemma_plan_rename_single(d: Seq<char>, ps: Seq<PatternModel>, path: Seq<char>)
    requires
        path.len() < NAME_LIMIT,
        !is_hidden_name(file_name_of(path)),
        !patterns_have_regex(ps),
    ensures
        ({
            let target = with_file_name(
                path,
                remove_patterns_model(ps, file_name_of(path)),
            );
            spec_run(
                seq![
                    StageModel::Path(d),
                    StageModel::Target(Target::Filename),
                    StageModel::Rename(ps),
                ],
                seq![(path, false)],
            ) == Ok::<Seq<(Seq<char>, Seq<char>)>, PipelineError>(
                if target == path {
                    Seq::<(Seq<char>, Seq<char>)>::empty()
                } else {
                    seq![(path, target)]
                },
            )
        }),
{
    lemma_plan_single_stage(
        d,
        StageModel::Rename(ps),
        path,
        remove_patterns_model(ps, file_name_of(path)),
    );
}

/// `from` is the path of some listing entry that is neither a directory
/// nor hidden.
pub open spec fn visible_source(es: Seq<(Seq<char>, bool)>, from: Seq<char>) -> bool {
    exists|j: int|
        0 <= j < es.len() && !(#[trigger] es[j]).1 && !is_hidden_name(file_name_of(es[j].0))
            && from == es[j].0
}

/// Every rename a plan decides stems from a visible entry: each log pair
/// extends the accumulator or takes its source path from a listing entry
/// that is neither a directory nor hidden.
pub proof fn lemma_plan_from_sources(
    ms: Seq<StageModel>,
    es: Seq<(Seq<char>, bool)>,
    acc: Seq<(Seq<char>, Seq<char>)>,
    log: Seq<(Seq<char>, Seq<char>)>,
)
    requires
        spec_plan_from(ms, es, acc) == Ok::<Seq<(Seq<char>, Seq<char>)>, PipelineError>(log),
    ensures
        forall|k: int|
            0 <= k < log.len() ==> (0 <= k < acc.len() && log[k] == acc[k])
                || #[trigger] visible_source(es, log[k].0),
    decreases es.len(),
{
    if es.len() == 0 {
    } else {
        let e = es[0];
        let step_case = !e.1 && !is_hidden_name(file_name_of(e.0));
        if !step_case {
            lemma_plan_from_sources(ms, es.skip(1), acc, log);
            assert forall|k: int|
                0 <= k < log.len() && !(0 <= k < acc.len() && log[k] == acc[k])
                    implies #[trigger] visible_source(es, log[k].0) by {
                assert(visible_source(es.skip(1), log[k].0));
                let j0 = choose|j: int|
                    0 <= j < es.skip(1).len() && !(#[trigger] es.skip(1)[j]).1
                        && !is_hidden_name(file_name_of(es.skip(1)[j].0)) && log[k].0
                        == es.skip(1)[j].0;
                assert(es.skip(1)[j0] == es[j0 + 1]);
                assert(!(es[j0 + 1]).1 && !is_hidden_name(file_name_of(es[j0 + 1].0)) && log[k].0
                    == es[j0 + 1].0);
            }
        } else {
            match pipeline_path(ms, e.0) {
                Err(_) => {},
                Ok(p2) => {
                    let acc2: Seq<(Seq<char>, Seq<char>)> = if p2 == e.0 {
                        acc
                    } else {
                        acc.push((e.0, p2))
                    };
                    if p2 != e.0 && exists|k: int| 0 <= k < acc.len() && acc[k].1 == p2 {
                    } else {
                        lemma_plan_from_sources(ms, es.skip(1), acc2, log);
                        assert forall|k: int|
                            0 <= k < log.len() && !(0 <= k < acc.len() && log[k] == acc[k])
                                implies #[trigger] visible_source(es, log[k].0) by {
                            if 0 <= k < acc2.len() && log[k] == acc2[k] {
                                assert(p2 != e.0 && k == acc.len());
                                assert(log[k].0 == e.0);
                                assert(!(es[0]).1 && !is_hidden_name(file_name_of(es[0].0))
                                    && log[k].0 == es[0].0);
                            } else {
                                assert(visible_source(es.skip(1), log[k].0));
                                let j0 = choose|j: int|
                                    0 <= j < es.skip(1).len() && !(#[trigger] es.skip(1)[j]).1
                                        && !is_hidden_name(file_name_of(es.skip(1)[j].0))
                                        && log[k].0 == es.skip(1)[j].0;
                                assert(es.skip(1)[j0] == es[j0 + 1]);
                                assert(!(es[j0 + 1]).1 && !is_hidden_name(
                                    file_name_of(es[j0 + 1].0),
                                ) && log[k].0 == es[j0 + 1].0);
                            }
                        }
                    }
                },
            }
        }
    }
}

/// Hidden entries and directories never appear as rename sources: every
/// pair of a successful planning run takes its source path from a listing
/// entry that is neither a directory nor hidden.
pub proof fn lemma_plan_no_hidden_sources(
    ms: Seq<StageModel>,
    es: Seq<(Seq<char>, bool)>,
    log: Seq<(Seq<char>, Seq<char>)>,
)
    requires
        spec_run(ms, es) == Ok::<Seq<(Seq<char>, Seq<char>)>, PipelineError>(log),
    ensures
        forall|k: int| 0 <= k < log.len() ==> #[trigger] visible_source(es, log[k].0),
{
    lemma_plan_from_sources(ms, es, Seq::<(Seq<char>, Seq<char>)>::empty(), log);
}

} // verus!
