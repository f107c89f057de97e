//! Codex CLI sessions. Codex appends to one rollout log per session, so the
//! log itself carries the project and whether a turn is still running; what
//! was learned of each log is kept between polls, keyed by its path.

use vstd::prelude::*;

use super::paths::{project_name, project_name_spec};
use super::{sessions_view, Agent, AgentSession, SessionModel, SessionStatus};
use crate::numbers::{double_gt, greater};
use crate::sort::{is_sorted_by, key_order, lemma_sort_by_sorted, lemma_sort_map, sort_by, stable_sort_exec, total_preorder, SortKey};
use crate::text::{
    chars_eq, chars_of, lemma_lex_total, lemma_lex_trans, lex_le, lex_le_exec, opt_view, owned,
    rfind_sub, rfind_sub_exec,
};

verus! {

/// A span of time, as `std::time::Duration` holds it.
#[derive(Clone, Copy)]
pub struct Elapsed {
    pub secs: u64,
    pub nanos: u32,
}

/// How far back a rollout counts as a session worth showing, in seconds.
pub const CODEX_RECENT_SECS: u64 = 21600;

/// A turn that stopped writing this long ago is over, in seconds, even if
/// its log never said so.
pub const CODEX_STALE_SECS: u64 = 300;

/// Whether a log last written `idle` ago is still shown.
pub fn is_recent(idle: Elapsed) -> (r: bool)
    ensures
        r == !(idle.secs > CODEX_RECENT_SECS || (idle.secs == CODEX_RECENT_SECS && idle.nanos > 0)),
{
    !(idle.secs > CODEX_RECENT_SECS || (idle.secs == CODEX_RECENT_SECS && idle.nanos > 0))
}

pub open spec fn fresh(idle: Elapsed) -> bool {
    idle.secs < CODEX_STALE_SECS
}

pub open spec fn started_marker() -> Seq<char> {
    "\"type\":\"task_started\""@
}

pub open spec fn completed_marker() -> Seq<char> {
    "\"type\":\"task_complete\""@
}

/// Whether the last task marker in newly appended log text was a start;
/// `None` when the text has neither marker.
pub open spec fn running_spec(appended: Seq<char>) -> Option<bool> {
    match (rfind_sub(appended, started_marker()), rfind_sub(appended, completed_marker())) {
        (Some(s), Some(c)) => Some(s > c),
        (Some(_), None) => Some(true),
        (None, Some(_)) => Some(false),
        (None, None) => None,
    }
}

pub fn running_state(appended: &str) -> (r: Option<bool>)
    ensures
        r == running_spec(appended@),
{
    let text = chars_of(appended);
    let started = rfind_sub_exec(text.as_slice(), chars_of("\"type\":\"task_started\"").as_slice());
    let completed = rfind_sub_exec(
        text.as_slice(),
        chars_of("\"type\":\"task_complete\"").as_slice(),
    );
    match (started, completed) {
        (Some(s), Some(c)) => Some(s > c),
        (Some(_), None) => Some(true),
        (None, Some(_)) => Some(false),
        (None, None) => None,
    }
}

/// The project folder a rollout's first line names: its `session_meta`
/// holds it under `payload.cwd`.
pub fn codex_cwd_of(first_line: &str) -> (r: Option<String>)
    ensures
        opt_view(r) == super::workspaces::json_text_at(first_line@, seq!["payload"@, "cwd"@]),
{
    let keys: [&str; 2] = ["payload", "cwd"];
    assert(super::workspaces::keys_view(keys@) =~= seq!["payload"@, "cwd"@]);
    super::workspaces::json_text(first_line, keys.as_slice())
}

// ---------------------------------------------------------------------------
// What is known of each log.

/// What has been learned of one rollout log.
pub struct CodexProbe {
    /// How far into the log the task markers have been scanned, in bytes.
    pub read_to: u64,
    /// The project folder, from the log's first line; empty until read.
    pub cwd: String,
    pub running: bool,
}

pub struct ProbeModel {
    pub read_to: u64,
    pub cwd: Seq<char>,
    pub running: bool,
}

impl View for CodexProbe {
    type V = ProbeModel;

    open spec fn view(&self) -> ProbeModel {
        ProbeModel { read_to: self.read_to, cwd: self.cwd@, running: self.running }
    }
}

pub open spec fn fresh_probe() -> ProbeModel {
    ProbeModel { read_to: 0, cwd: Seq::empty(), running: false }
}

impl CodexProbe {
    /// Nothing known yet.
    pub fn new() -> (r: Self)
        ensures
            r@ == fresh_probe(),
    {
        let cwd = String::new();
        assert(cwd@ =~= Seq::<char>::empty());
        CodexProbe { read_to: 0, cwd, running: false }
    }

    pub fn copy(&self) -> (r: Self)
        ensures
            r@ == self@,
    {
        CodexProbe { read_to: self.read_to, cwd: self.cwd.clone(), running: self.running }
    }

    /// Whether the project folder still has to be read from the log.
    pub fn needs_cwd(&self) -> (r: bool)
        ensures
            r == (self.cwd@.len() == 0),
    {
        chars_of(self.cwd.as_str()).len() == 0
    }

    /// Whether the log has grown past what was scanned.
    pub fn needs_scan(&self, len: u64) -> (r: bool)
        ensures
            r == (len > self.read_to),
    {
        len > self.read_to
    }

    /// Takes the scan of the log up to `len`: a marker found decides whether
    /// a turn runs; without one the last answer stands.
    pub fn scanned(self, len: u64, running: Option<bool>) -> (r: Self)
        ensures
            r@ == (ProbeModel {
                read_to: len,
                cwd: self@.cwd,
                running: match running {
                    Some(b) => b,
                    None => self@.running,
                },
            }),
    {
        CodexProbe {
            read_to: len,
            cwd: self.cwd,
            running: match running {
                Some(b) => b,
                None => self.running,
            },
        }
    }
}

pub open spec fn entries_map(es: Seq<(String, CodexProbe)>) -> Map<Seq<char>, ProbeModel>
    decreases es.len(),
{
    if es.len() == 0 {
        Map::empty()
    } else {
        entries_map(es.drop_last()).insert(es.last().0@, es.last().1@)
    }
}

pub open spec fn keys_unique(es: Seq<(String, CodexProbe)>) -> bool {
    forall|i: int, j: int| 0 <= i < j < es.len() ==> (#[trigger] es[i]).0@ != (#[trigger] es[j]).0@
}

proof fn lemma_entries_lookup(es: Seq<(String, CodexProbe)>, k: Seq<char>)
    requires
        keys_unique(es),
    ensures
        forall|i: int| 0 <= i < es.len() && (#[trigger] es[i]).0@ == k ==> entries_map(es).contains_key(k)
            && entries_map(es)[k] == es[i].1@,
        (forall|i: int| 0 <= i < es.len() ==> (#[trigger] es[i]).0@ != k) ==> !entries_map(
            es,
        ).contains_key(k),
    decreases es.len(),
{
    if es.len() > 0 {
        let d = es.drop_last();
        assert(keys_unique(d)) by {
            assert forall|i: int, j: int| 0 <= i < j < d.len() implies (#[trigger] d[i]).0@ != (
            #[trigger] d[j]).0@ by {
                assert(d[i] == es[i] && d[j] == es[j]);
            }
        }
        lemma_entries_lookup(d, k);
        assert forall|i: int| 0 <= i < es.len() && (#[trigger] es[i]).0@ == k implies entries_map(
            es,
        ).contains_key(k) && entries_map(es)[k] == es[i].1@ by {
            if i < es.len() - 1 {
                assert(d[i] == es[i]);
                assert(es[i].0@ != es[es.len() - 1].0@);
            }
        }
        if forall|i: int| 0 <= i < es.len() ==> (#[trigger] es[i]).0@ != k {
            assert forall|i: int| 0 <= i < d.len() implies (#[trigger] d[i]).0@ != k by {
                assert(d[i] == es[i]);
            }
            assert(es[es.len() - 1].0@ != k);
        }
    }
}

proof fn lemma_entries_update(es: Seq<(String, CodexProbe)>, i: int, e: (String, CodexProbe))
    requires
        keys_unique(es),
        0 <= i < es.len(),
        e.0@ == es[i].0@,
    ensures
        entries_map(es.update(i, e)) == entries_map(es).insert(e.0@, e.1@),
    decreases es.len(),
{
    let u = es.update(i, e);
    if i == es.len() - 1 {
        assert(u.drop_last() =~= es.drop_last());
        assert(entries_map(u) =~= entries_map(es).insert(e.0@, e.1@));
    } else {
        let d = es.drop_last();
        assert(keys_unique(d)) by {
            assert forall|a: int, b: int| 0 <= a < b < d.len() implies (#[trigger] d[a]).0@ != (
            #[trigger] d[b]).0@ by {
                assert(d[a] == es[a] && d[b] == es[b]);
            }
        }
        lemma_entries_update(d, i, e);
        assert(u.drop_last() =~= d.update(i, e));
        assert(es[i].0@ != es[es.len() - 1].0@);
        assert(u.last() == es.last());
        assert(entries_map(u) =~= entries_map(es).insert(e.0@, e.1@));
    }
}

/// What is known of each rollout log, by its path.
pub struct CodexProbes {
    entries: Vec<(String, CodexProbe)>,
}

impl View for CodexProbes {
    type V = Map<Seq<char>, ProbeModel>;

    closed spec fn view(&self) -> Map<Seq<char>, ProbeModel> {
        entries_map(self.entries@)
    }
}

impl CodexProbes {
    /// Each path is kept once.
    pub closed spec fn wf(&self) -> bool {
        keys_unique(self.entries@)
    }

    pub fn new() -> (r: Self)
        ensures
            r.wf(),
            r@ == Map::<Seq<char>, ProbeModel>::empty(),
    {
        CodexProbes { entries: Vec::new() }
    }

    fn position(&self, path: &str) -> (r: Option<usize>)
        requires
            self.wf(),
        ensures
            match r {
                Some(i) => i < self.entries@.len() && self.entries@[i as int].0@ == path@,
                None => forall|i: int|
                    0 <= i < self.entries@.len() ==> (#[trigger] self.entries@[i]).0@ != path@,
            },
    {
        let want = chars_of(path);
        let mut i: usize = 0;
        while i < self.entries.len()
            invariant
                i <= self.entries@.len(),
                want@ == path@,
                forall|k: int| 0 <= k < i ==> (#[trigger] self.entries@[k]).0@ != path@,
            decreases self.entries.len() - i,
        {
            if chars_eq(chars_of(self.entries[i].0.as_str()).as_slice(), want.as_slice()) {
                return Some(i);
            }
            i = i + 1;
        }
        None
    }

    /// The probe of this log, made fresh (and kept) if the log is new.
    pub fn entry(&mut self, path: &str) -> (r: CodexProbe)
        requires
            old(self).wf(),
        ensures
            final(self).wf(),
            r@ == if old(self)@.contains_key(path@) {
                old(self)@[path@]
            } else {
                fresh_probe()
            },
            final(self)@ == old(self)@.insert(path@, r@),
    {
        proof {
            lemma_entries_lookup(self.entries@, path@);
        }
        match self.position(path) {
            Some(i) => {
                let r = self.entries[i].1.copy();
                proof {
                    assert(self@.insert(path@, r@) =~= self@);
                }
                r
            },
            None => {
                let ghost before = self.entries@;
                self.entries.push((owned(path), CodexProbe::new()));
                assert(self.entries@.drop_last() =~= before);
                assert(keys_unique(self.entries@)) by {
                    assert forall|a: int, b: int| 0 <= a < b < self.entries@.len() implies (
                    #[trigger] self.entries@[a]).0@ != (#[trigger] self.entries@[b]).0@ by {
                        if b < before.len() {
                            assert(self.entries@[a] == before[a] && self.entries@[b] == before[b]);
                        } else {
                            assert(self.entries@[a] == before[a]);
                        }
                    }
                }
                CodexProbe::new()
            },
        }
    }

    /// Keeps what was learned of this log.
    pub fn store(&mut self, path: &str, probe: CodexProbe)
        requires
            old(self).wf(),
        ensures
            final(self).wf(),
            final(self)@ == old(self)@.insert(path@, probe@),
    {
        match self.position(path) {
            Some(i) => {
                let ghost before = self.entries@;
                let key = owned(path);
                proof {
                    lemma_entries_update(before, i as int, (key, probe));
                }
                self.entries.set(i, (key, probe));
                assert(self.entries@ =~= before.update(i as int, (key, probe)));
                assert(keys_unique(self.entries@)) by {
                    assert forall|a: int, b: int| 0 <= a < b < self.entries@.len() implies (
                    #[trigger] self.entries@[a]).0@ != (#[trigger] self.entries@[b]).0@ by {
                        assert(self.entries@[a].0@ == before[a].0@);
                        assert(self.entries@[b].0@ == before[b].0@);
                    }
                }
            },
            None => {
                let ghost before = self.entries@;
                self.entries.push((owned(path), probe));
                assert(self.entries@.drop_last() =~= before);
                assert(keys_unique(self.entries@)) by {
                    assert forall|a: int, b: int| 0 <= a < b < self.entries@.len() implies (
                    #[trigger] self.entries@[a]).0@ != (#[trigger] self.entries@[b]).0@ by {
                        if b < before.len() {
                            assert(self.entries@[a] == before[a] && self.entries@[b] == before[b]);
                        } else {
                            assert(self.entries@[a] == before[a]);
                        }
                    }
                }
            },
        }
    }

    /// Forgets every log that was not seen in this poll.
    pub fn retain_seen(&mut self, seen: &Vec<String>)
        requires
            old(self).wf(),
        ensures
            final(self).wf(),
            final(self)@ == old(self)@.restrict(Set::new(|k: Seq<char>| exists|i: int| 0 <= i < seen@.len() && (#[trigger] seen@[i])@ == k)),
    {
        let ghost keep = Set::new(|k: Seq<char>| exists|i: int| 0 <= i < seen@.len() && (#[trigger] seen@[i])@ == k);
        let mut taken: Vec<(String, CodexProbe)> = Vec::new();
        std::mem::swap(&mut taken, &mut self.entries);
        let ghost es = taken@;
        assert(es.len() == taken.len());
        let mut out: Vec<(String, CodexProbe)> = Vec::new();
        let mut i: usize = 0;
        assert(entries_map(es.take(0)) =~= Map::<Seq<char>, ProbeModel>::empty());
        assert(entries_map(out@) =~= entries_map(es.take(0)).restrict(keep));
        while taken.len() > 0
            invariant
                keys_unique(es),
                keep == Set::new(|k: Seq<char>| exists|i: int| 0 <= i < seen@.len() && (#[trigger] seen@[i])@ == k),
                es.len() <= usize::MAX,
                i + taken@.len() == es.len(),
                taken@ == es.subrange(i as int, es.len() as int),
                entries_map(out@) == entries_map(es.take(i as int)).restrict(keep),
                keys_unique(out@),
                forall|j: int| 0 <= j < out@.len() ==> exists|m: int| 0 <= m < i && (#[trigger] out@[j]) == es[m],
            decreases taken@.len(),
        {
            let e = taken.remove(0);
            assert(e == es[i as int]);
            assert(es.take(i + 1).drop_last() =~= es.take(i as int));
            assert(es.take(i + 1).last() == e);
            let mut found = false;
            let mut j: usize = 0;
            let name = chars_of(e.0.as_str());
            while j < seen.len()
                invariant
                    j <= seen@.len(),
                    name@ == e.0@,
                    found == exists|m: int| 0 <= m < j && (#[trigger] seen@[m])@ == e.0@,
                decreases seen.len() - j,
            {
                if chars_eq(chars_of(seen[j].as_str()).as_slice(), name.as_slice()) {
                    found = true;
                }
                j = j + 1;
            }
            assert(found == keep.contains(e.0@));
            let ghost before = out@;
            if found {
                out.push(e);
                assert(out@.drop_last() =~= before);
                assert(entries_map(out@) =~= entries_map(es.take(i + 1)).restrict(keep));
                assert(keys_unique(out@)) by {
                    assert forall|a: int, b: int| 0 <= a < b < out@.len() implies (
                    #[trigger] out@[a]).0@ != (#[trigger] out@[b]).0@ by {
                        if b < before.len() {
                            assert(out@[a] == before[a] && out@[b] == before[b]);
                        } else {
                            assert(out@[a] == before[a]);
                            let m = choose|m: int| 0 <= m < i && before[a] == es[m];
                            assert(es[m].0@ != es[i as int].0@);
                        }
                    }
                }
                assert forall|q: int| 0 <= q < out@.len() implies exists|m: int|
                    0 <= m < i + 1 && (#[trigger] out@[q]) == es[m] by {
                    if q < before.len() {
                        assert(out@[q] == before[q]);
                    } else {
                        assert(out@[q] == es[i as int]);
                    }
                }
            } else {
                assert(entries_map(out@) =~= entries_map(es.take(i + 1)).restrict(keep));
            }
            i = i + 1;
            assert(taken@ =~= es.subrange(i as int, es.len() as int));
        }
        assert(es.take(i as int) =~= es);
        self.entries = out;
    }
}

// ---------------------------------------------------------------------------
// One row per project.

/// The row for a log: its path is the id, its file name the name, and a
/// turn counts as running only while the log was written recently.
pub open spec fn codex_row(
    id: Seq<char>,
    stem: Seq<char>,
    probe: ProbeModel,
    idle: Elapsed,
    modified: u64,
    on_windows: bool,
) -> SessionModel {
    SessionModel {
        id,
        agent: Agent::Codex,
        name: stem,
        path: probe.cwd,
        project: project_name_spec(probe.cwd, on_windows),
        status: if probe.running && fresh(idle) {
            SessionStatus::Busy
        } else {
            SessionStatus::Idle
        },
        detail: None,
        updated_at: modified,
    }
}

pub fn codex_session(
    id: String,
    stem: String,
    probe: &CodexProbe,
    idle: Elapsed,
    modified: u64,
    on_windows: bool,
) -> (r: AgentSession)
    ensures
        r@ == codex_row(id@, stem@, probe@, idle, modified, on_windows),
{
    AgentSession {
        id,
        agent: Agent::Codex,
        name: stem,
        path: probe.cwd.clone(),
        project: project_name(probe.cwd.as_str(), on_windows),
        status: if probe.running && idle.secs < CODEX_STALE_SECS {
            SessionStatus::Busy
        } else {
            SessionStatus::Idle
        },
        detail: None,
        updated_at: modified,
    }
}

/// A newer log of the same project takes the row, and so does any running
/// one.
pub open spec fn replaces(new: SessionModel, current: SessionModel) -> bool {
    new.status == SessionStatus::Busy || double_gt(new.updated_at, current.updated_at)
}

/// The rows by project path, in path order, one per path: `s` takes the row
/// of its path when it `replaces` it, and is placed in order when its path
/// is new.
pub open spec fn merge_row(rows: Seq<SessionModel>, s: SessionModel) -> Seq<SessionModel>
    decreases rows.len(),
{
    if rows.len() == 0 {
        seq![s]
    } else if rows[0].path == s.path {
        if replaces(s, rows[0]) {
            seq![s] + rows.drop_first()
        } else {
            rows
        }
    } else if lex_le(s.path, rows[0].path) {
        seq![s] + rows
    } else {
        seq![rows[0]] + merge_row(rows.drop_first(), s)
    }
}

/// Adds one session to the rows, keyed and ordered by project path.
pub fn merge_codex(rows: &mut Vec<AgentSession>, s: AgentSession)
    ensures
        sessions_view(final(rows)@) == merge_row(sessions_view(old(rows)@), s@),
{
    let ghost whole = sessions_view(rows@);
    let want = chars_of(s.path.as_str());
    let mut i: usize = 0;
    assert(whole.subrange(0, whole.len() as int) =~= whole);
    assert(whole.subrange(0, 0) + merge_row(whole, s@) =~= merge_row(whole, s@));
    while i < rows.len()
        invariant
            i <= rows@.len(),
            sessions_view(rows@) == whole,
            whole == sessions_view(old(rows)@),
            want@ == s.path@,
            merge_row(whole, s@) == whole.subrange(0, i as int) + merge_row(
                whole.subrange(i as int, whole.len() as int),
                s@,
            ),
        decreases rows.len() - i,
    {
        let ghost rest = whole.subrange(i as int, whole.len() as int);
        assert(rest[0] == rows@[i as int]@);
        let here = chars_of(rows[i].path.as_str());
        if chars_eq(here.as_slice(), want.as_slice()) {
            if s.status == SessionStatus::Busy || greater(s.updated_at, rows[i].updated_at) {
                rows.set(i, s);
                assert(sessions_view(rows@) =~= whole.subrange(0, i as int) + (seq![s@]
                    + rest.drop_first()));
            } else {
                assert(whole.subrange(0, i as int) + rest =~= whole);
            }
            return;
        }
        if lex_le_exec(want.as_slice(), here.as_slice()) {
            rows.insert(i, s);
            assert(sessions_view(rows@) =~= whole.subrange(0, i as int) + (seq![s@] + rest));
            return;
        }
        assert(rest.drop_first() =~= whole.subrange(i + 1, whole.len() as int));
        assert(whole.subrange(0, i + 1) =~= whole.subrange(0, i as int) + seq![rest[0]]);
        assert(whole.subrange(0, i as int) + (seq![rest[0]] + merge_row(rest.drop_first(), s@))
            =~= whole.subrange(0, i + 1) + merge_row(rest.drop_first(), s@));
        i = i + 1;
    }
    assert(whole.subrange(i as int, whole.len() as int) =~= Seq::<SessionModel>::empty());
    rows.push(s);
    assert(sessions_view(rows@) =~= whole + seq![s@]);
}

/// Paths strictly increasing: one row per path, in path order.
pub open spec fn by_path(rows: Seq<SessionModel>) -> bool {
    forall|i: int, j: int|
        0 <= i < j < rows.len() ==> lex_le(#[trigger] rows[i].path, #[trigger] rows[j].path)
            && rows[i].path != rows[j].path
}

proof fn lemma_lex_antisym(a: Seq<char>, b: Seq<char>)
    requires
        lex_le(a, b),
        lex_le(b, a),
    ensures
        a == b,
    decreases a.len(),
{
    if a.len() > 0 && b.len() > 0 && a[0] == b[0] {
        lemma_lex_antisym(a.drop_first(), b.drop_first());
        assert(a =~= seq![a[0]] + a.drop_first());
        assert(b =~= seq![b[0]] + b.drop_first());
    } else if a.len() == 0 && b.len() == 0 {
        assert(a =~= b);
    }
}

/// Merging a session keeps one row per path in path order, and the session
/// then has a row for its path.
pub proof fn lemma_merge_by_path(rows: Seq<SessionModel>, s: SessionModel)
    requires
        by_path(rows),
    ensures
        by_path(merge_row(rows, s)),
        exists|i: int| 0 <= i < merge_row(rows, s).len() && (#[trigger] merge_row(rows, s)[i]).path
            == s.path,
        forall|i: int| 0 <= i < merge_row(rows, s).len() ==> (#[trigger] merge_row(rows, s)[i])
            == s || rows.contains(merge_row(rows, s)[i]),
    decreases rows.len(),
{
    let r = merge_row(rows, s);
    if rows.len() == 0 {
        assert(r[0].path == s.path);
    } else if rows[0].path == s.path {
        assert(r[0].path == s.path);
        if replaces(s, rows[0]) {
            assert forall|i: int, j: int| 0 <= i < j < r.len() implies lex_le(
                #[trigger] r[i].path,
                #[trigger] r[j].path,
            ) && r[i].path != r[j].path by {
                assert(r[j] == rows[j]);
                if i > 0 {
                    assert(r[i] == rows[i]);
                }
            }
            assert forall|i: int| 0 <= i < r.len() implies (#[trigger] r[i]) == s || rows.contains(
                r[i],
            ) by {
                if i > 0 {
                    assert(r[i] == rows[i]);
                }
            }
        } else {
            assert forall|i: int| 0 <= i < r.len() implies (#[trigger] r[i]) == s || rows.contains(
                r[i],
            ) by {
                assert(r[i] == rows[i]);
            }
        }
    } else if lex_le(s.path, rows[0].path) {
        assert(r[0].path == s.path);
        assert forall|i: int, j: int| 0 <= i < j < r.len() implies lex_le(
            #[trigger] r[i].path,
            #[trigger] r[j].path,
        ) && r[i].path != r[j].path by {
            assert(r[j] == rows[j - 1]);
            if i > 0 {
                assert(r[i] == rows[i - 1]);
            } else if j > 1 {
                assert(lex_le(rows[0].path, rows[j - 1].path));
                lemma_lex_trans(s.path, rows[0].path, rows[j - 1].path);
                if s.path == rows[j - 1].path {
                    lemma_lex_antisym(s.path, rows[0].path);
                }
            }
        }
        assert forall|i: int| 0 <= i < r.len() implies (#[trigger] r[i]) == s || rows.contains(r[i]) by {
            if i > 0 {
                assert(r[i] == rows[i - 1]);
            }
        }
    } else {
        let t = rows.drop_first();
        assert(by_path(t)) by {
            assert forall|i: int, j: int| 0 <= i < j < t.len() implies lex_le(
                #[trigger] t[i].path,
                #[trigger] t[j].path,
            ) && t[i].path != t[j].path by {
                assert(t[i] == rows[i + 1] && t[j] == rows[j + 1]);
            }
        }
        lemma_merge_by_path(t, s);
        let m = merge_row(t, s);
        lemma_lex_total(s.path, rows[0].path);
        assert forall|i: int, j: int| 0 <= i < j < r.len() implies lex_le(
            #[trigger] r[i].path,
            #[trigger] r[j].path,
        ) && r[i].path != r[j].path by {
            assert(r[j] == m[j - 1]);
            if i > 0 {
                assert(r[i] == m[i - 1]);
            } else {
                assert(r[0] == rows[0]);
                if m[j - 1] == s {
                } else {
                    assert(t.contains(m[j - 1]));
                    let k = choose|k: int| 0 <= k < t.len() && t[k] == m[j - 1];
                    assert(t[k] == rows[k + 1]);
                }
            }
        }
        let w = choose|w: int| 0 <= w < m.len() && (#[trigger] m[w]).path == s.path;
        assert(r[w + 1] == m[w]);
        assert forall|i: int| 0 <= i < r.len() implies (#[trigger] r[i]) == s || rows.contains(r[i]) by {
            if i > 0 {
                assert(r[i] == m[i - 1]);
                if m[i - 1] != s {
                    assert(t.contains(m[i - 1]));
                    let k = choose|k: int| 0 <= k < t.len() && t[k] == m[i - 1];
                    assert(rows[k + 1] == t[k]);
                }
            } else {
                assert(rows[0] == r[0]);
            }
        }
    }
}

// ---------------------------------------------------------------------------
// The newest day folders.

impl SortKey for String {
    /// Newest first: the names are dates, so the greatest name comes first.
    open spec fn stays_before(&self, other: &Self) -> bool {
        lex_le(other@, self@)
    }

    fn le(&self, other: &Self) -> (r: bool) {
        lex_le_exec(chars_of(other.as_str()).as_slice(), chars_of(self.as_str()).as_slice())
    }
}

pub open spec fn newest_first() -> spec_fn(Seq<char>, Seq<char>) -> bool {
    |a: Seq<char>, b: Seq<char>| lex_le(b, a)
}

pub open spec fn names_view(v: Seq<String>) -> Seq<Seq<char>> {
    v.map_values(|s: String| s@)
}

/// The `keep` greatest names, greatest first (`sort`, `reverse`,
/// `truncate`). Rollout folders are named by year, month and day.
pub open spec fn newest_names_spec(names: Seq<Seq<char>>, keep: nat) -> Seq<Seq<char>> {
    let s = sort_by(names, newest_first());
    if s.len() <= keep {
        s
    } else {
        s.subrange(0, keep as int)
    }
}

pub fn newest_names(names: Vec<String>, keep: usize) -> (r: Vec<String>)
    ensures
        names_view(r@) == newest_names_spec(names_view(names@), keep as nat),
{
    let ghost input = names@;
    let mut sorted = stable_sort_exec(names);
    proof {
        let f = |s: String| s@;
        lemma_sort_map(input, f, key_order::<String>(), newest_first());
        assert(names_view(input) =~= input.map_values(f));
        assert(names_view(sorted@) =~= sorted@.map_values(f));
    }
    let ghost full = sorted@;
    sorted.truncate(keep);
    proof {
        if full.len() > keep {
            assert(names_view(sorted@) =~= names_view(full).subrange(0, keep as int));
        }
    }
    sorted
}

} // verus!
