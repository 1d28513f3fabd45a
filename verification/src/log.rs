//! The rename log: one `from=>to` line per accepted rename, written after
//! planning and read back line by line during replay. The replay itself is
//! modelled here as a pure function over a list of existing paths; the
//! caller performs the actual renames in the same order.

use vstd::prelude::*;
use crate::paths::{file_name_of, file_name_chars};
use crate::stages::PipelineError;
use crate::text::{
    chars_string, find_in, has_sub, lemma_find_at, lemma_spec_find, occurs_at, spec_find,
    str_chars, subvec, slice_eq_str,
};

verus! {

/// One planned rename: the path as found, and the path it becomes.
pub struct LogEntry {
    pub from: String,
    pub to: String,
}

impl View for LogEntry {
    type V = (Seq<char>, Seq<char>);

    open spec fn view(&self) -> (Seq<char>, Seq<char>) {
        (self.from@, self.to@)
    }
}

/// The delimiter between the two paths of a log line.
pub open spec fn log_delim() -> Seq<char> {
    seq!['=', '>']
}

/// One log line, newline included.
pub open spec fn render_line(e: (Seq<char>, Seq<char>)) -> Seq<char> {
    e.0 + log_delim() + e.1 + seq!['\n']
}

/// A whole log: the lines of the entries, in order.
pub open spec fn render_log_spec(es: Seq<(Seq<char>, Seq<char>)>) -> Seq<char>
    decreases es.len(),
{
    if es.len() == 0 {
        Seq::<char>::empty()
    } else {
        render_log_spec(es.drop_last()) + render_line(es.last())
    }
}

/// Serialize a rename log, one `from=>to` line per entry.
pub fn render_log(entries: &Vec<LogEntry>) -> (r: String)
    ensures
        r@ == render_log_spec(entries@.map_values(|e: LogEntry| e@)),
{
    let ghost es = entries@.map_values(|e: LogEntry| e@);
    let mut out: Vec<char> = Vec::new();
    let mut i: usize = 0;
    proof {
        assert(es.take(0) =~= Seq::<(Seq<char>, Seq<char>)>::empty());
    }
    while i < entries.len()
        invariant
            i <= entries@.len(),
            es == entries@.map_values(|e: LogEntry| e@),
            es.len() == entries@.len(),
            out@ == render_log_spec(es.take(i as int)),
        decreases entries@.len() - i,
    {
        let fv = str_chars(entries[i].from.as_str());
        let tv = str_chars(entries[i].to.as_str());
        let mut k: usize = 0;
        let ghost mid0 = out@;
        while k < fv.len()
            invariant
                k <= fv@.len(),
                out@ == mid0 + fv@.take(k as int),
            decreases fv@.len() - k,
        {
            out.push(fv[k]);
            proof {
                assert(out@ =~= mid0 + fv@.take(k + 1 as int));
            }
            k += 1;
        }
        out.push('=');
        out.push('>');
        let ghost mid1 = out@;
        let mut k2: usize = 0;
        while k2 < tv.len()
            invariant
                k2 <= tv@.len(),
                out@ == mid1 + tv@.take(k2 as int),
            decreases tv@.len() - k2,
        {
            out.push(tv[k2]);
            proof {
                assert(out@ =~= mid1 + tv@.take(k2 + 1 as int));
            }
            k2 += 1;
        }
        out.push('\n');
        proof {
            assert(es.take(i + 1 as int).drop_last() =~= es.take(i as int));
            assert(es.take(i + 1 as int).last() == es[i as int]);
            assert(fv@.take(fv@.len() as int) =~= fv@);
            assert(tv@.take(tv@.len() as int) =~= tv@);
            assert(out@ =~= render_log_spec(es.take(i + 1 as int)));
        }
        i += 1;
    }
    proof {
        assert(es.take(es.len() as int) =~= es);
    }
    chars_string(out.as_slice())
}

/// Serialize one rename as its log line, newline included, so a caller
/// can write each line as it is produced and a crash still leaves a
/// valid, replayable prefix.
pub fn render_entry(entry: &LogEntry) -> (r: String)
    ensures
        r@ == render_line(entry@),
{
    let fv = str_chars(entry.from.as_str());
    let tv = str_chars(entry.to.as_str());
    let mut out: Vec<char> = Vec::new();
    let mut k: usize = 0;
    while k < fv.len()
        invariant
            k <= fv@.len(),
            out@ == fv@.take(k as int),
        decreases fv@.len() - k,
    {
        out.push(fv[k]);
        proof {
            assert(out@ =~= fv@.take(k + 1 as int));
        }
        k += 1;
    }
    out.push('=');
    out.push('>');
    let ghost mid = out@;
    let mut k2: usize = 0;
    while k2 < tv.len()
        invariant
            k2 <= tv@.len(),
            out@ == mid + tv@.take(k2 as int),
        decreases tv@.len() - k2,
    {
        out.push(tv[k2]);
        proof {
            assert(out@ =~= mid + tv@.take(k2 + 1 as int));
        }
        k2 += 1;
    }
    out.push('\n');
    proof {
        assert(fv@.take(fv@.len() as int) =~= fv@);
        assert(tv@.take(tv@.len() as int) =~= tv@);
        assert(out@ =~= render_line(entry@));
    }
    chars_string(out.as_slice())
}

/// A path is log-clean when it holds neither the delimiter nor a line
/// break, so the log format cannot mistake it.
pub open spec fn log_clean(s: Seq<char>) -> bool {
    !has_sub(s, log_delim()) && !has_sub(s, seq!['\n'])
}

/// One written line (without its newline) is read back as the pair it
/// renders.
pub proof fn lemma_log_line_round_trip(from: Seq<char>, to: Seq<char>)
    requires
        log_clean(from),
        log_clean(to),
    ensures
        parse_log_line(from + log_delim() + to) == Some((from, to)),
{
    let l = from + log_delim() + to;
    let j = from.len() as int;
    assert(occurs_at(l, log_delim(), j)) by {
        assert(l.subrange(j, j + 2) =~= log_delim());
    }
    assert forall|k: int| 0 <= k < j implies !occurs_at(l, log_delim(), k) by {
        if occurs_at(l, log_delim(), k) {
            if k + 2 <= from.len() {
                assert(occurs_at(from, log_delim(), k)) by {
                    assert(from.subrange(k, k + 2) =~= l.subrange(k, k + 2));
                }
                assert(has_sub(from, log_delim()));
            } else {
                assert(k == j - 1);
                assert(l.subrange(k, k + 2)[1] == l[k + 1]);
                assert(l[j] == log_delim()[0]);
                assert(false);
            }
        }
    }
    lemma_find_at(l, log_delim(), j);
    assert(l.skip(j + 2) =~= to);
    assert(l.subrange(0, j) =~= from);
}

/// One log line (without its newline): the text before the first `=>` and
/// the text after it; a line with no delimiter, or with a second
/// delimiter, is malformed.
pub open spec fn parse_log_line(l: Seq<char>) -> Option<(Seq<char>, Seq<char>)> {
    match spec_find(l, log_delim(), 0) {
        Some(j) => if j + 2 <= l.len() {
            if has_sub(l.skip(j + 2 as int), log_delim()) {
                None
            } else {
                Some((l.subrange(0, j as int), l.skip(j + 2 as int)))
            }
        } else {
            None
        },
        None => None,
    }
}

/// The lines of a log file: split on `'\n'`, with the final newline, if
/// any, closing the last line rather than opening an empty one.
pub open spec fn spec_lines(src: Seq<char>) -> Seq<Seq<char>>
    decreases src.len(),
{
    if src.len() == 0 {
        Seq::<Seq<char>>::empty()
    } else {
        let found = spec_find(src, seq!['\n'], 0);
        if found matches Some(j) && j + 1 <= src.len() {
            seq![src.subrange(0, found->Some_0 as int)] + spec_lines(
                src.skip(found->Some_0 + 1 as int),
            )
        } else {
            seq![src]
        }
    }
}

/// Every line must be a rename; any malformed line — a blank one
/// included — fails the whole read.
pub open spec fn parse_lines(ls: Seq<Seq<char>>) -> Option<Seq<(Seq<char>, Seq<char>)>>
    decreases ls.len(),
{
    if ls.len() == 0 {
        Some(Seq::<(Seq<char>, Seq<char>)>::empty())
    } else {
        match parse_log_line(ls[0]) {
            Some(e) => match parse_lines(ls.skip(1)) {
                Some(t) => Some(seq![e] + t),
                None => None,
            },
            None => None,
        }
    }
}

pub open spec fn parse_log_spec(src: Seq<char>) -> Option<Seq<(Seq<char>, Seq<char>)>> {
    parse_lines(spec_lines(src))
}

/// A rendered log also splits at its first entry's line.
proof fn lemma_render_front(es: Seq<(Seq<char>, Seq<char>)>)
    requires
        es.len() > 0,
    ensures
        render_log_spec(es) == render_line(es[0]) + render_log_spec(es.skip(1)),
    decreases es.len(),
{
    if es.len() == 1 {
        assert(render_log_spec(es.drop_last()) =~= Seq::<char>::empty());
        assert(render_log_spec(es.skip(1)) =~= Seq::<char>::empty());
        assert(render_log_spec(es.drop_last()) + render_line(es.last()) =~= render_line(es[0])
            + render_log_spec(es.skip(1)));
    } else {
        lemma_render_front(es.drop_last());
        assert(es.skip(1).drop_last() =~= es.drop_last().skip(1));
        assert(es.skip(1).last() == es.last());
        assert(es.drop_last()[0] == es[0]);
        assert(render_log_spec(es.skip(1)) == render_log_spec(es.drop_last().skip(1))
            + render_line(es.last()));
        assert(render_log_spec(es) =~= (render_line(es[0]) + render_log_spec(
            es.drop_last().skip(1),
        )) + render_line(es.last()));
        assert((render_line(es[0]) + render_log_spec(es.drop_last().skip(1))) + render_line(
            es.last(),
        ) =~= render_line(es[0]) + (render_log_spec(es.drop_last().skip(1)) + render_line(
            es.last(),
        )));
    }
}

/// The log format is unambiguous for clean paths: a log written for a
/// list of renames is read back as exactly that list.
pub proof fn lemma_log_round_trip(es: Seq<(Seq<char>, Seq<char>)>)
    requires
        forall|i: int|
            0 <= i < es.len() ==> log_clean((#[trigger] es[i]).0) && log_clean(es[i].1),
    ensures
        parse_log_spec(render_log_spec(es)) == Some(es),
    decreases es.len(),
{
    if es.len() == 0 {
        assert(parse_log_spec(render_log_spec(es)) == Some(Seq::<(Seq<char>, Seq<char>)>::empty()));
        assert(Seq::<(Seq<char>, Seq<char>)>::empty() =~= es);
    } else {
        lemma_render_front(es);
        let from = es[0].0;
        let to = es[0].1;
        let body = from + log_delim() + to;
        let rest = render_log_spec(es.skip(1));
        let src = render_log_spec(es);
        assert(render_line(es[0]) =~= body + seq!['\n']);
        assert(src =~= body + seq!['\n'] + rest);
        let j = body.len() as int;
        assert(occurs_at(src, seq!['\n'], j)) by {
            assert(src.subrange(j, j + 1) =~= seq!['\n']);
        }
        assert forall|k: int| 0 <= k < j implies !occurs_at(src, seq!['\n'], k) by {
            if occurs_at(src, seq!['\n'], k) {
                assert(src.subrange(k, k + 1)[0] == src[k]);
                assert(src[k] == body[k]);
                if k < from.len() {
                    assert(body[k] == from[k]);
                    assert(occurs_at(from, seq!['\n'], k)) by {
                        assert(from.subrange(k, k + 1) =~= seq!['\n']);
                    }
                    assert(has_sub(from, seq!['\n']));
                    assert(false);
                } else if k < from.len() + 2 {
                    assert(body[k] == log_delim()[k - from.len()]);
                    assert(false);
                } else {
                    let t = k - from.len() - 2;
                    assert(body[k] == to[t]);
                    assert(occurs_at(to, seq!['\n'], t)) by {
                        assert(to.subrange(t, t + 1) =~= seq!['\n']);
                    }
                    assert(has_sub(to, seq!['\n']));
                    assert(false);
                }
            }
        }
        lemma_find_at(src, seq!['\n'], j);
        assert(src.subrange(0, j) =~= body);
        assert(src.skip(j + 1) =~= rest);
        assert(body.len() > 0);
        assert(spec_lines(src) =~= seq![body] + spec_lines(rest));
        assert((seq![body] + spec_lines(rest)).skip(1) =~= spec_lines(rest));
        lemma_log_line_round_trip(from, to);
        assert(parse_log_line(body) == Some((from, to)));
        assert((from, to) == es[0]);
        assert forall|i: int|
            0 <= i < es.skip(1).len() implies log_clean((#[trigger] es.skip(1)[i]).0)
            && log_clean(es.skip(1)[i].1) by {
            assert(es.skip(1)[i] == es[i + 1]);
        }
        lemma_log_round_trip(es.skip(1));
        assert(seq![es[0]] + es.skip(1) =~= es);
    }
}

/// Parse one log line.
fn parse_log_line_exec(v: &[char]) -> (r: Option<LogEntry>)
    ensures
        (r is Some) == (parse_log_line(v@) is Some),
        r matches Some(e) ==> parse_log_line(v@) == Some(e@),
{
    let mut delim: Vec<char> = Vec::new();
    delim.push('=');
    delim.push('>');
    proof {
        assert(delim@ =~= log_delim());
    }
    let n = v.len();
    match find_in(v, delim.as_slice(), 0) {
        Some(j) => {
            proof {
                lemma_spec_find(v@, delim@, 0);
            }
            let to_v = subvec(v, j + 2, n);
            if contains_delim(to_v.as_slice()) {
                None
            } else {
                let from_v = subvec(v, 0, j);
                Some(
                    LogEntry {
                        from: chars_string(from_v.as_slice()),
                        to: chars_string(to_v.as_slice()),
                    },
                )
            }
        },
        None => None,
    }
}

/// Does the text contain the log delimiter?
fn contains_delim(v: &[char]) -> (r: bool)
    ensures
        r == has_sub(v@, log_delim()),
{
    let mut delim: Vec<char> = Vec::new();
    delim.push('=');
    delim.push('>');
    proof {
        assert(delim@ =~= log_delim());
    }
    crate::text::contains_pattern(v, delim.as_slice())
}

/// Read a whole log file back into entries: `LogFormat` exactly when some
/// non-blank line is malformed.
pub fn parse_log(src: &str) -> (r: Result<Vec<LogEntry>, PipelineError>)
    ensures
        (r is Ok) == (parse_log_spec(src@) is Some),
        r matches Ok(v) ==> parse_log_spec(src@) == Some(v@.map_values(|e: LogEntry| e@)),
        r matches Err(e) ==> e == PipelineError::LogFormat,
{
    let sv = str_chars(src);
    match parse_log_exec(sv.as_slice()) {
        Some(v) => Ok(v),
        None => Err(PipelineError::LogFormat),
    }
}

fn parse_log_exec(s: &[char]) -> (r: Option<Vec<LogEntry>>)
    ensures
        (r is Some) == (parse_log_spec(s@) is Some),
        r matches Some(v) ==> parse_log_spec(s@) == Some(v@.map_values(|e: LogEntry| e@)),
    decreases s@.len(),
{
    if s.len() == 0 {
        let out: Vec<LogEntry> = Vec::new();
        proof {
            assert(out@.map_values(|e: LogEntry| e@) =~= Seq::<(Seq<char>, Seq<char>)>::empty());
        }
        return Some(out);
    }
    let mut nl: Vec<char> = Vec::new();
    nl.push('\n');
    proof {
        assert(nl@ =~= seq!['\n']);
    }
    let found = find_in(s, nl.as_slice(), 0);
    proof {
        lemma_spec_find(s@, nl@, 0);
    }
    let (line, rest) = match found {
        Some(j) => (subvec(s, 0, j), subvec(s, j + 1, s.len())),
        None => (subvec(s, 0, s.len()), Vec::<char>::new()),
    };
    proof {
        if found is None {
            assert(s@.subrange(0, s@.len() as int) =~= s@);
        }
        assert(spec_lines(s@)[0] == line@);
        assert(spec_lines(s@).skip(1) =~= spec_lines(rest@));
    }
    let head = match parse_log_line_exec(line.as_slice()) {
        Some(e) => e,
        None => {
            return None;
        },
    };
    match parse_log_exec(rest.as_slice()) {
        Some(tail) => {
            let mut out: Vec<LogEntry> = Vec::new();
            let ghost head_model = head@;
            out.push(head);
            let ghost tail_entries = tail@;
            let mut tail_mut = tail;
            out.append(&mut tail_mut);
            proof {
                let f = |e: LogEntry| e@;
                assert(out@.map_values(f) =~= seq![head_model] + tail_entries.map_values(f));
            }
            Some(out)
        },
        None => None,
    }
}

/// Read one log line: the rename it declares, or the log-format error on
/// which a replay aborts at this line.
pub fn parse_log_entry(line: &str) -> (r: Result<LogEntry, PipelineError>)
    ensures
        (r is Ok) == (parse_log_line(line@) is Some),
        r matches Ok(e) ==> parse_log_line(line@) == Some(e@),
        r matches Err(e) ==> e == PipelineError::LogFormat,
{
    let lv = str_chars(line);
    match parse_log_line_exec(lv.as_slice()) {
        Some(e) => Ok(e),
        None => Err(PipelineError::LogFormat),
    }
}

/// The kind prefix of a log file name: everything before the first `'.'`.
pub open spec fn log_kind_of(name: Seq<char>) -> Seq<char> {
    match spec_find(name, seq!['.'], 0) {
        Some(j) => name.subrange(0, j as int),
        None => name,
    }
}

/// Whether a log file, by the kind prefix of its file name, is one the
/// replay flow acts on; only the `normalize` kind is recognized so far.
pub fn is_replayable_log_name(path: &str) -> (r: bool)
    ensures
        r == (log_kind_of(file_name_of(path@)) == "normalize"@),
{
    let pv = str_chars(path);
    let name_v = file_name_chars(pv.as_slice());
    let mut dot: Vec<char> = Vec::new();
    dot.push('.');
    proof {
        assert(dot@ =~= seq!['.']);
    }
    let prefix = match find_in(name_v.as_slice(), dot.as_slice(), 0) {
        Some(j) => {
            proof {
                lemma_spec_find(name_v@, dot@, 0);
            }
            subvec(name_v.as_slice(), 0, j)
        },
        None => {
            proof {
                assert(name_v@.subrange(0, name_v@.len() as int) =~= name_v@);
            }
            subvec(name_v.as_slice(), 0, name_v.len())
        },
    };
    slice_eq_str(prefix.as_slice(), "normalize")
}

/// First position of `x` in `names` at or after `from`.
pub open spec fn first_index(names: Seq<Seq<char>>, x: Seq<char>, from: nat) -> Option<nat>
    decreases names.len() - from,
{
    if from >= names.len() {
        None
    } else if names[from as int] == x {
        Some(from)
    } else {
        first_index(names, x, (from + 1) as nat)
    }
}

/// Replaying a log, line by line: each line is parsed and its rename
/// applied before the next line is read, so a malformed line (missing
/// delimiter, a second delimiter, a blank line) or a missing source
/// aborts the replay with the renames of the earlier lines already
/// performed. The result is the paths after the renames that did happen,
/// and the error that stopped the replay, if one did.
pub open spec fn spec_replay(
    names: Seq<Seq<char>>,
    ls: Seq<Seq<char>>,
) -> (Seq<Seq<char>>, Option<PipelineError>)
    decreases ls.len(),
{
    if ls.len() == 0 {
        (names, None)
    } else {
        match parse_log_line(ls[0]) {
            None => (names, Some(PipelineError::LogFormat)),
            Some(e) => match first_index(names, e.0, 0) {
                None => (names, Some(PipelineError::RenameSourceMissing)),
                Some(j) => spec_replay(names.update(j as int, e.1), ls.skip(1)),
            },
        }
    }
}

/// One replay step on the model: move the first path equal to the
/// entry's source to its destination; false when no path matches.
fn rename_in(current: &mut Vec<String>, entry: &LogEntry) -> (r: bool)
    ensures
        ({
            let cur = old(current)@.map_values(|s: String| s@);
            match first_index(cur, entry@.0, 0) {
                Some(j) => r && final(current)@.map_values(|s: String| s@) == cur.update(
                    j as int,
                    entry@.1,
                ),
                None => !r && final(current)@ == old(current)@,
            }
        }),
{
    let ghost cur = current@.map_values(|s: String| s@);
    let mut j: usize = 0;
    let mut found: Option<usize> = None;
    while j < current.len() && found.is_none()
        invariant
            j <= current@.len(),
            current@ == old(current)@,
            cur == current@.map_values(|s: String| s@),
            cur.len() == current@.len(),
            match found {
                Some(k) => k < cur.len() && first_index(cur, entry@.0, 0) == Some(k as nat),
                None => first_index(cur, entry@.0, 0) == first_index(cur, entry@.0, j as nat),
            },
        decreases current@.len() - j,
    {
        if current[j] == entry.from {
            proof {
                assert(cur[j as int] == entry@.0);
            }
            found = Some(j);
        }
        j += 1;
    }
    match found {
        Some(k) => {
            let replacement = String::from_str(entry.to.as_str());
            current.set(k, replacement);
            proof {
                assert(current@.map_values(|s: String| s@) =~= cur.update(k as int, entry@.1));
            }
            true
        },
        None => {
            proof {
                assert(first_index(cur, entry@.0, j as nat) is None);
            }
            false
        },
    }
}

fn replay_rec(current: &mut Vec<String>, s: &[char]) -> (r: Option<PipelineError>)
    ensures
        ({
            let m = spec_replay(old(current)@.map_values(|t: String| t@), spec_lines(s@));
            final(current)@.map_values(|t: String| t@) == m.0 && r == m.1
        }),
    decreases s@.len(),
{
    if s.len() == 0 {
        return None;
    }
    let mut nl: Vec<char> = Vec::new();
    nl.push('\n');
    proof {
        assert(nl@ =~= seq!['\n']);
    }
    let found = find_in(s, nl.as_slice(), 0);
    proof {
        lemma_spec_find(s@, nl@, 0);
    }
    let (line, rest) = match found {
        Some(j) => (subvec(s, 0, j), subvec(s, j + 1, s.len())),
        None => (subvec(s, 0, s.len()), Vec::<char>::new()),
    };
    proof {
        if found is None {
            assert(s@.subrange(0, s@.len() as int) =~= s@);
        }
        assert(spec_lines(s@)[0] == line@);
        assert(spec_lines(s@).skip(1) =~= spec_lines(rest@));
    }
    let entry = match parse_log_line_exec(line.as_slice()) {
        Some(e) => e,
        None => {
            return Some(PipelineError::LogFormat);
        },
    };
    if rename_in(current, &entry) {
        replay_rec(current, rest.as_slice())
    } else {
        Some(PipelineError::RenameSourceMissing)
    }
}

/// Replay a whole log, line by line, over a list of existing paths: the
/// pure model of the replay flow. The caller performs the same renames in
/// the same order on the file system, stopping where the model stops.
pub fn replay_log(names: &Vec<String>, src: &str) -> (r: (Vec<String>, Option<PipelineError>))
    ensures
        ({
            let m = spec_replay(names@.map_values(|t: String| t@), spec_lines(src@));
            r.0@.map_values(|t: String| t@) == m.0 && r.1 == m.1
        }),
{
    let mut current: Vec<String> = names.clone();
    proof {
        assert forall|t: int| 0 <= t < names@.len() implies current@[t] == names@[t] by {
            assert(vstd::pervasive::cloned::<String>(names@[t], current@[t]));
        }
        assert(names@ =~= current@);
    }
    let sv = str_chars(src);
    let err = replay_rec(&mut current, sv.as_slice());
    (current, err)
}

} // verus!
