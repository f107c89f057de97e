//! What the coding tools on this machine are doing: the sessions of the
//! coding agent's command-line tool, Codex CLI sessions and the projects VS Code and Cursor have open.
//!
//! Times are Unix milliseconds kept as the bit patterns of the doubles they
//! were read as, and compared the way doubles compare.

use vstd::prelude::*;

use crate::numbers::{double_gt, double_key, greater, total_key};
use crate::sort::{
    count_where, is_sorted_by, key_order, lemma_sort_by_sorted, lemma_sort_map, sort_by, stable_sort_exec,
    total_preorder, SortKey,
};
use crate::text::{chars_eq, chars_of, clone_opt, contains, contains_exec, opt_view, owned};

pub mod paths;
pub mod codex;
pub mod workspaces;

use workspaces::{editor_running, editors, workspaces_view, EditorKind, EditorWorkspace, WorkspaceModel};

verus! {

#[derive(Debug, Clone, Copy, PartialEq, Eq, Structural)]
pub enum SessionStatus {
    /// The agent is working.
    Busy,
    /// The agent stopped and wants an answer.
    Waiting,
    Idle,
}

#[derive(Debug, Clone, Copy, PartialEq, Eq, Structural)]
pub enum Agent {
    Claude,
    Codex,
}

/// One row of the developer panel.
pub struct AgentSession {
    pub id: String,
    pub agent: Agent,
    pub name: String,
    pub path: String,
    pub project: String,
    pub status: SessionStatus,
    /// What it is waiting for, when the session says so.
    pub detail: Option<String>,
    /// Unix milliseconds of the last status change, as the bits of a double.
    pub updated_at: u64,
}

pub struct SessionModel {
    pub id: Seq<char>,
    pub agent: Agent,
    pub name: Seq<char>,
    pub path: Seq<char>,
    pub project: Seq<char>,
    pub status: SessionStatus,
    pub detail: Option<Seq<char>>,
    pub updated_at: u64,
}

impl View for AgentSession {
    type V = SessionModel;

    open spec fn view(&self) -> SessionModel {
        SessionModel {
            id: self.id@,
            agent: self.agent,
            name: self.name@,
            path: self.path@,
            project: self.project@,
            status: self.status,
            detail: opt_view(self.detail),
            updated_at: self.updated_at,
        }
    }
}

pub open spec fn sessions_view(v: Seq<AgentSession>) -> Seq<SessionModel> {
    v.map_values(|s: AgentSession| s@)
}

impl AgentSession {
    pub fn copy(&self) -> (r: AgentSession)
        ensures
            r@ == self@,
    {
        AgentSession {
            id: self.id.clone(),
            agent: self.agent,
            name: self.name.clone(),
            path: self.path.clone(),
            project: self.project.clone(),
            status: self.status,
            detail: clone_opt(&self.detail),
            updated_at: self.updated_at,
        }
    }
}

// ---------------------------------------------------------------------------
// Agent session files.

/// A session file of the coding agent, as far as the panel reads it.
pub struct SessionFile {
    pub pid: u32,
    pub session_id: String,
    pub cwd: String,
    pub name: String,
    pub status: String,
    pub waiting_for: Option<String>,
    /// Unix milliseconds, as the bits of a double; 0 when absent.
    pub status_updated_at: u64,
    pub updated_at: u64,
}

/// Sessions of the agent's desktop app live in throwaway folders.
pub open spec fn scratch_marker() -> Seq<char> {
    "/scratch-workspaces/"@
}

pub open spec fn claude_status(s: Seq<char>) -> SessionStatus {
    if s == "busy"@ {
        SessionStatus::Busy
    } else if s == "waiting"@ {
        SessionStatus::Waiting
    } else {
        SessionStatus::Idle
    }
}

/// The row for a session file: none when its process is gone or it belongs
/// to a scratch folder. The status change time wins over the file's time
/// when it is positive.
pub open spec fn claude_row(
    file_id: Seq<char>,
    cwd: Seq<char>,
    name: Seq<char>,
    status: Seq<char>,
    waiting_for: Option<Seq<char>>,
    status_updated_at: u64,
    updated_at: u64,
    alive: bool,
    on_windows: bool,
) -> Option<SessionModel> {
    if !alive || contains(cwd, scratch_marker()) {
        None
    } else {
        Some(
            SessionModel {
                id: file_id,
                agent: Agent::Claude,
                name,
                path: cwd,
                project: paths::project_name_spec(cwd, on_windows),
                status: claude_status(status),
                detail: match waiting_for {
                    Some(d) => if d.len() > 0 {
                        Some(d)
                    } else {
                        None
                    },
                    None => None,
                },
                updated_at: if double_gt(status_updated_at, 0) {
                    status_updated_at
                } else {
                    updated_at
                },
            },
        )
    }
}

pub open spec fn opt_session_view(s: Option<AgentSession>) -> Option<SessionModel> {
    match s {
        Some(x) => Some(x@),
        None => None,
    }
}

/// Turns a session file into a row; `alive` says whether its process runs,
/// `on_windows` how its folder path is read.
pub fn claude_session(file: SessionFile, alive: bool, on_windows: bool) -> (r: Option<AgentSession>)
    ensures
        opt_session_view(r) == claude_row(
            file.session_id@,
            file.cwd@,
            file.name@,
            file.status@,
            opt_view(file.waiting_for),
            file.status_updated_at,
            file.updated_at,
            alive,
            on_windows,
        ),
{
    if !alive {
        return None;
    }
    if contains_exec(chars_of(file.cwd.as_str()).as_slice(), chars_of("/scratch-workspaces/").as_slice()) {
        return None;
    }
    let st = chars_of(file.status.as_str());
    let status = if chars_eq(st.as_slice(), chars_of("busy").as_slice()) {
        SessionStatus::Busy
    } else if chars_eq(st.as_slice(), chars_of("waiting").as_slice()) {
        SessionStatus::Waiting
    } else {
        SessionStatus::Idle
    };
    let detail = match file.waiting_for {
        Some(d) => if chars_of(d.as_str()).len() > 0 {
            Some(d)
        } else {
            None
        },
        None => None,
    };
    let updated_at = if greater(file.status_updated_at, 0) {
        file.status_updated_at
    } else {
        file.updated_at
    };
    let project = paths::project_name(file.cwd.as_str(), on_windows);
    Some(
        AgentSession {
            id: file.session_id,
            agent: Agent::Claude,
            name: file.name,
            path: file.cwd,
            project,
            status,
            detail,
            updated_at,
        },
    )
}

// ---------------------------------------------------------------------------
// Ordering and trimming.

/// Attention first: waiting, then busy, then idle.
pub open spec fn rank(s: SessionStatus) -> int {
    match s {
        SessionStatus::Waiting => 0,
        SessionStatus::Busy => 1,
        SessionStatus::Idle => 2,
    }
}

/// By rank, then the most recent first.
pub open spec fn session_order() -> spec_fn(SessionModel, SessionModel) -> bool {
    |a: SessionModel, b: SessionModel|
        rank(a.status) < rank(b.status) || (rank(a.status) == rank(b.status) && double_key(
            a.updated_at,
        ) >= double_key(b.updated_at))
}

impl SortKey for AgentSession {
    open spec fn stays_before(&self, other: &Self) -> bool {
        rank(self.status) < rank(other.status) || (rank(self.status) == rank(other.status)
            && double_key(self.updated_at) >= double_key(other.updated_at))
    }

    fn le(&self, other: &Self) -> (r: bool) {
        let a = rank_exec(self.status);
        let b = rank_exec(other.status);
        a < b || (a == b && total_key(self.updated_at) >= total_key(other.updated_at))
    }
}

fn rank_exec(s: SessionStatus) -> (r: u8)
    ensures
        r == rank(s),
{
    match s {
        SessionStatus::Waiting => 0,
        SessionStatus::Busy => 1,
        SessionStatus::Idle => 2,
    }
}

/// The panel is a glance, not a session manager: every session that is
/// doing something stays, and only this many idle ones.
pub const MAX_IDLE_SESSIONS: usize = 3;

/// Keeps the first `MAX_IDLE_SESSIONS` idle sessions, counting `seen` idle
/// ones already kept, and every other session.
pub open spec fn trim_idle(s: Seq<SessionModel>, seen: nat) -> Seq<SessionModel>
    decreases s.len(),
{
    if s.len() == 0 {
        Seq::empty()
    } else if s[0].status != SessionStatus::Idle {
        seq![s[0]] + trim_idle(s.drop_first(), seen)
    } else if seen < MAX_IDLE_SESSIONS {
        seq![s[0]] + trim_idle(s.drop_first(), seen + 1)
    } else {
        trim_idle(s.drop_first(), seen + 1)
    }
}

pub open spec fn prioritized(s: Seq<SessionModel>) -> Seq<SessionModel> {
    trim_idle(sort_by(s, session_order()), 0)
}

fn sort_sessions(v: Vec<AgentSession>) -> (r: Vec<AgentSession>)
    ensures
        sessions_view(r@) == sort_by(sessions_view(v@), session_order()),
{
    let ghost input = v@;
    let r = stable_sort_exec(v);
    proof {
        let f = |s: AgentSession| s@;
        lemma_sort_map(input, f, key_order::<AgentSession>(), session_order());
        assert(sessions_view(input) =~= input.map_values(f));
        assert(sessions_view(r@) =~= r@.map_values(f));
    }
    r
}

/// Sorts attention first, then recency, and trims the idle tail.
pub fn prioritize(sessions: &mut Vec<AgentSession>)
    ensures
        sessions_view(final(sessions)@) == prioritized(sessions_view(old(sessions)@)),
{
    let mut taken: Vec<AgentSession> = Vec::new();
    std::mem::swap(&mut taken, sessions);
    let mut sorted = sort_sessions(taken);
    let ghost sv = sessions_view(sorted@);
    let mut out: Vec<AgentSession> = Vec::new();
    let mut idle: usize = 0;
    assert(sv.subrange(0, sv.len() as int) =~= sv);
    assert(sessions_view(out@) + trim_idle(sv, 0) =~= trim_idle(sv, 0));
    assert(sv.len() == sorted.len());
    while sorted.len() > 0
        invariant
            sv.len() <= usize::MAX,
            sv.len() >= sorted@.len(),
            sessions_view(sorted@) == sv.subrange(sv.len() - sorted@.len(), sv.len() as int),
            idle <= sv.len() - sorted@.len(),
            trim_idle(sv, 0) == sessions_view(out@) + trim_idle(
                sessions_view(sorted@),
                idle as nat,
            ),
        decreases sorted@.len(),
    {
        let ghost rest = sessions_view(sorted@);
        let s = sorted.remove(0);
        assert(rest[0] == s@);
        assert(rest.drop_first() =~= sessions_view(sorted@));
        let ghost before = sessions_view(out@);
        if s.status != SessionStatus::Idle {
            out.push(s);
            assert(sessions_view(out@) =~= before + seq![rest[0]]);
        } else {
            if idle < MAX_IDLE_SESSIONS {
                out.push(s);
                assert(sessions_view(out@) =~= before + seq![rest[0]]);
            }
            idle = idle + 1;
        }
    }
    assert(trim_idle(sessions_view(sorted@), idle as nat) =~= Seq::<SessionModel>::empty());
    assert(sessions_view(out@) + Seq::<SessionModel>::empty() =~= sessions_view(out@));
    *sessions = out;
}

// ---------------------------------------------------------------------------
// Two agents in one list.

/// Alternates between the two lists, starting with the first, and goes on
/// with whichever is longer.
pub open spec fn interleaved(a: Seq<SessionModel>, b: Seq<SessionModel>) -> Seq<SessionModel>
    decreases a.len() + b.len(),
{
    if a.len() == 0 {
        b
    } else if b.len() == 0 {
        a
    } else {
        seq![a[0], b[0]] + interleaved(a.drop_first(), b.drop_first())
    }
}

/// Interleaving keeps every session of both lists: the `i`-th session of
/// each list sits at `2i` (the first list) and `2i + 1` (the second) while
/// both last, and the rest of the longer list follows in its order.
pub proof fn lemma_interleave_keeps_all(a: Seq<SessionModel>, b: Seq<SessionModel>)
    ensures
        interleaved(a, b).len() == a.len() + b.len(),
        forall|i: int|
            0 <= i < a.len() && i < b.len() ==> #[trigger] interleaved(a, b)[2 * i] == a[i]
                && interleaved(a, b)[2 * i + 1] == b[i],
        a.len() <= b.len() ==> forall|k: int|
            a.len() <= k < b.len() ==> #[trigger] interleaved(a, b)[a.len() + k] == b[k],
        b.len() <= a.len() ==> forall|k: int|
            b.len() <= k < a.len() ==> #[trigger] interleaved(a, b)[b.len() + k] == a[k],
    decreases a.len() + b.len(),
{
    let r = interleaved(a, b);
    if a.len() > 0 && b.len() > 0 {
        let a1 = a.drop_first();
        let b1 = b.drop_first();
        lemma_interleave_keeps_all(a1, b1);
        let rest = interleaved(a1, b1);
        assert(r == seq![a[0], b[0]] + rest);
        assert forall|i: int| 0 <= i < a.len() && i < b.len() implies #[trigger] r[2 * i] == a[i]
            && r[2 * i + 1] == b[i] by {
            if i > 0 {
                assert(r[2 * i] == rest[2 * (i - 1)]);
                assert(r[2 * i + 1] == rest[2 * (i - 1) + 1]);
            }
        }
        if a.len() <= b.len() {
            assert forall|k: int| a.len() <= k < b.len() implies #[trigger] r[a.len() + k] == b[k] by {
                assert(r[a.len() + k] == rest[a1.len() + (k - 1)]);
            }
        }
        if b.len() <= a.len() {
            assert forall|k: int| b.len() <= k < a.len() implies #[trigger] r[b.len() + k] == a[k] by {
                assert(r[b.len() + k] == rest[b1.len() + (k - 1)]);
            }
        }
    }
}

/// Alternates between the two agents so a busy one cannot push the other
/// out of the visible rows; each list is already sorted by urgency.
pub fn interleave(claude: Vec<AgentSession>, codex: Vec<AgentSession>) -> (r: Vec<AgentSession>)
    ensures
        sessions_view(r@) == interleaved(sessions_view(claude@), sessions_view(codex@)),
{
    let mut a = claude;
    let mut b = codex;
    let mut out: Vec<AgentSession> = Vec::new();
    let ghost whole = interleaved(sessions_view(a@), sessions_view(b@));
    assert(sessions_view(out@) + whole =~= whole);
    while a.len() > 0 || b.len() > 0
        invariant
            whole == sessions_view(out@) + interleaved(sessions_view(a@), sessions_view(b@)),
        decreases a@.len() + b@.len(),
    {
        let ghost before = sessions_view(out@);
        let ghost av = sessions_view(a@);
        let ghost bv = sessions_view(b@);
        if a.len() == 0 {
            let x = b.remove(0);
            out.push(x);
            assert(sessions_view(out@) =~= before + seq![bv[0]]);
            assert(bv =~= seq![bv[0]] + sessions_view(b@));
            assert(interleaved(av, bv) == bv);
            assert(interleaved(sessions_view(a@), sessions_view(b@)) == sessions_view(b@));
        } else if b.len() == 0 {
            let x = a.remove(0);
            out.push(x);
            assert(sessions_view(out@) =~= before + seq![av[0]]);
            assert(av =~= seq![av[0]] + sessions_view(a@));
            assert(interleaved(sessions_view(a@), sessions_view(b@)) == sessions_view(a@));
        } else {
            let x = a.remove(0);
            let y = b.remove(0);
            out.push(x);
            out.push(y);
            assert(sessions_view(out@) =~= before + seq![av[0], bv[0]]);
            assert(av.drop_first() =~= sessions_view(a@));
            assert(bv.drop_first() =~= sessions_view(b@));
        }
    }
    assert(sessions_view(out@) + Seq::<SessionModel>::empty() =~= sessions_view(out@));
    out
}

// ---------------------------------------------------------------------------
// What prioritizing keeps.

pub open spec fn is_idle() -> spec_fn(SessionModel) -> bool {
    |s: SessionModel| s.status == SessionStatus::Idle
}

pub open spec fn is_active() -> spec_fn(SessionModel) -> bool {
    |s: SessionModel| s.status != SessionStatus::Idle
}

proof fn lemma_session_order_total()
    ensures
        total_preorder(session_order()),
{
}

proof fn lemma_count_front(s: Seq<SessionModel>, p: spec_fn(SessionModel) -> bool)
    requires
        s.len() > 0,
    ensures
        count_where(s, p) == count_where(s.drop_first(), p) + if p(s[0]) {
            1nat
        } else {
            0nat
        },
{
    let one = seq![s[0]];
    crate::sort::lemma_count_concat(one, s.drop_first(), p);
    assert(one + s.drop_first() =~= s);
    assert(one.drop_last() =~= Seq::<SessionModel>::empty());
    assert(count_where(Seq::<SessionModel>::empty(), p) == 0);
    assert(one.last() == s[0]);
    assert(count_where(one, p) == count_where(one.drop_last(), p) + if p(one.last()) {
        1nat
    } else {
        0nat
    });
}

proof fn lemma_trim_idle_counts(s: Seq<SessionModel>, seen: nat)
    ensures
        count_where(trim_idle(s, seen), is_active()) == count_where(s, is_active()),
        count_where(trim_idle(s, seen), is_idle()) == if seen >= MAX_IDLE_SESSIONS {
            0
        } else if count_where(s, is_idle()) <= MAX_IDLE_SESSIONS - seen {
            count_where(s, is_idle())
        } else {
            (MAX_IDLE_SESSIONS - seen) as nat
        },
        forall|i: int| 0 <= i < trim_idle(s, seen).len() ==> s.contains(#[trigger] trim_idle(s, seen)[i]),
    decreases s.len(),
{
    if s.len() > 0 {
        let rest = s.drop_first();
        lemma_count_front(s, is_active());
        lemma_count_front(s, is_idle());
        let next = if s[0].status != SessionStatus::Idle {
            seen
        } else {
            seen + 1
        };
        lemma_trim_idle_counts(rest, next);
        let t = trim_idle(rest, next);
        if s[0].status != SessionStatus::Idle || seen < MAX_IDLE_SESSIONS {
            let r = seq![s[0]] + t;
            assert(r.len() > 0 && r.drop_first() =~= t && r[0] == s[0]);
            lemma_count_front(r, is_active());
            lemma_count_front(r, is_idle());
            assert forall|i: int| 0 <= i < r.len() implies s.contains(#[trigger] r[i]) by {
                if i == 0 {
                    assert(s[0] == r[0]);
                } else {
                    assert(r[i] == t[i - 1]);
                    assert(rest.contains(t[i - 1]));
                    let k = choose|k: int| 0 <= k < rest.len() && rest[k] == t[i - 1];
                    assert(s[k + 1] == rest[k]);
                }
            }
        } else {
            assert forall|i: int| 0 <= i < t.len() implies s.contains(#[trigger] t[i]) by {
                assert(rest.contains(t[i]));
                let k = choose|k: int| 0 <= k < rest.len() && rest[k] == t[i];
                assert(s[k + 1] == rest[k]);
            }
        }
    }
}

proof fn lemma_trim_idle_sorted(s: Seq<SessionModel>, seen: nat)
    requires
        is_sorted_by(s, session_order()),
    ensures
        is_sorted_by(trim_idle(s, seen), session_order()),
    decreases s.len(),
{
    if s.len() > 0 {
        let rest = s.drop_first();
        let next = if s[0].status != SessionStatus::Idle {
            seen
        } else {
            seen + 1
        };
        assert(is_sorted_by(rest, session_order())) by {
            assert forall|i: int, j: int| 0 <= i < j < rest.len() implies session_order()(
                rest[i],
                rest[j],
            ) by {
                assert(rest[i] == s[i + 1] && rest[j] == s[j + 1]);
            }
        }
        lemma_trim_idle_sorted(rest, next);
        lemma_trim_idle_counts(rest, next);
        let t = trim_idle(rest, next);
        if s[0].status != SessionStatus::Idle || seen < MAX_IDLE_SESSIONS {
            let r = seq![s[0]] + t;
            assert forall|i: int, j: int| 0 <= i < j < r.len() implies session_order()(r[i], r[j]) by {
                assert(r[j] == t[j - 1]);
                assert(rest.contains(t[j - 1]));
                let k = choose|k: int| 0 <= k < rest.len() && rest[k] == t[j - 1];
                assert(s[k + 1] == rest[k]);
                if i > 0 {
                    assert(r[i] == t[i - 1]);
                } else {
                    assert(session_order()(s[0], s[k + 1]));
                }
            }
        }
    }
}

/// The sessions on the panel come attention first (waiting, busy, idle),
/// the most recent first within each, with every session that is doing
/// something and at most `MAX_IDLE_SESSIONS` idle ones (as many as there
/// were, up to that).
pub proof fn lemma_prioritized(s: Seq<SessionModel>)
    ensures
        is_sorted_by(prioritized(s), session_order()),
        count_where(prioritized(s), is_active()) == count_where(s, is_active()),
        count_where(prioritized(s), is_idle()) == if count_where(s, is_idle())
            <= MAX_IDLE_SESSIONS {
            count_where(s, is_idle())
        } else {
            MAX_IDLE_SESSIONS as nat
        },
        forall|i: int| 0 <= i < prioritized(s).len() ==> s.contains(#[trigger] prioritized(s)[i]),
{
    broadcast use vstd::seq_lib::group_seq_properties;

    lemma_session_order_total();
    lemma_sort_by_sorted(s, session_order());
    let sorted = sort_by(s, session_order());
    crate::sort::lemma_sort_count(s, session_order(), is_active());
    crate::sort::lemma_sort_count(s, session_order(), is_idle());
    lemma_trim_idle_counts(sorted, 0);
    lemma_trim_idle_sorted(sorted, 0);
    let r = prioritized(s);
    assert forall|i: int| 0 <= i < r.len() implies s.contains(#[trigger] r[i]) by {
        assert(sorted.contains(r[i]));
        assert(sorted.to_multiset().count(r[i]) > 0);
        assert(s.to_multiset().count(r[i]) > 0);
    }
}

// ---------------------------------------------------------------------------
// The process table.

#[verifier::external_type_specification]
#[verifier::external_body]
pub struct ExSystem(sysinfo::System);

/// The pids of the processes in the table last read into `system`.
pub uninterp spec fn live_pids(system: sysinfo::System) -> Set<u32>;

/// The executable path of each process in the table last read into
/// `system`, the empty text for a process whose path is unknown.
pub uninterp spec fn running_exes(system: sysinfo::System) -> Set<Seq<char>>;

/// `sysinfo::System::process` with `Pid::from_u32`: whether the process
/// table last read into `system` holds this pid. It only reads that table.
#[verifier::external_body]
fn process_running(system: &sysinfo::System, pid: u32) -> (r: bool)
    ensures
        r == live_pids(*system).contains(pid),
{
    system.process(sysinfo::Pid::from_u32(pid)).is_some()
}

/// `sysinfo::System::processes` with `Process::exe`: the executable path of
/// each process in the table (empty when unknown), in the order the table
/// is walked, which is left open.
#[verifier::external_body]
fn executables(system: &sysinfo::System) -> (r: Vec<String>)
    ensures
        r@.map_values(|x: String| x@).to_set() == running_exes(*system),
{
    system.processes().values().map(
        |process| process.exe().map(|path| path.to_string_lossy().into_owned()).unwrap_or_default(),
    ).collect()
}

/// The row for a session file whose process is looked up in `system`: the
/// row `claude_row` gives, live when the table holds the file's pid.
pub fn read_claude_session(system: &sysinfo::System, file: SessionFile, on_windows: bool) -> (r: Option<
    AgentSession,
>)
    ensures
        opt_session_view(r) == claude_row(
            file.session_id@,
            file.cwd@,
            file.name@,
            file.status@,
            opt_view(file.waiting_for),
            file.status_updated_at,
            file.updated_at,
            live_pids(*system).contains(file.pid),
            on_windows,
        ),
{
    let alive = process_running(system, file.pid);
    claude_session(file, alive, on_windows)
}

/// The editors, in their order, that one of these executables belongs to.
pub open spec fn editors_running_spec(executables: Seq<Seq<char>>) -> Seq<EditorKind> {
    let code = if workspaces::editor_running_spec(EditorKind::Code, executables) {
        seq![EditorKind::Code]
    } else {
        Seq::empty()
    };
    let cursor = if workspaces::editor_running_spec(EditorKind::Cursor, executables) {
        seq![EditorKind::Cursor]
    } else {
        Seq::empty()
    };
    code + cursor
}

/// Whether one of these executables is this editor's.
pub open spec fn editor_among(e: EditorKind, exes: Set<Seq<char>>) -> bool {
    exists|p: Seq<char>, m: int|
        #[trigger] exes.contains(p) && 0 <= m < workspaces::editor_markers(e).len() && contains(
            p,
            #[trigger] workspaces::editor_markers(e)[m],
        )
}

/// The editors, in their order, that one of these executables belongs to.
pub open spec fn editors_among(exes: Set<Seq<char>>) -> Seq<EditorKind> {
    let code = if editor_among(EditorKind::Code, exes) {
        seq![EditorKind::Code]
    } else {
        Seq::empty()
    };
    let cursor = if editor_among(EditorKind::Cursor, exes) {
        seq![EditorKind::Cursor]
    } else {
        Seq::empty()
    };
    code + cursor
}

proof fn lemma_editor_among(e: EditorKind, exes: Seq<Seq<char>>)
    ensures
        workspaces::editor_running_spec(e, exes) == editor_among(e, exes.to_set()),
{
    broadcast use vstd::seq_lib::group_seq_properties;

    if workspaces::editor_running_spec(e, exes) {
        let (i, m) = choose|i: int, m: int|
            0 <= i < exes.len() && 0 <= m < workspaces::editor_markers(e).len() && contains(
                #[trigger] exes[i],
                #[trigger] workspaces::editor_markers(e)[m],
            );
        assert(exes.to_set().contains(exes[i]));
    }
    if editor_among(e, exes.to_set()) {
        let (p, m) = choose|p: Seq<char>, m: int|
            #[trigger] exes.to_set().contains(p) && 0 <= m < workspaces::editor_markers(e).len()
                && contains(p, #[trigger] workspaces::editor_markers(e)[m]);
        assert(exes.contains(p));
        let i = choose|i: int| 0 <= i < exes.len() && exes[i] == p;
        assert(contains(exes[i], workspaces::editor_markers(e)[m]));
    }
}

pub fn editors_running_in(executables: &Vec<String>) -> (r: Vec<EditorKind>)
    ensures
        r@ == editors_running_spec(executables@.map_values(|x: String| x@)),
{
    let mut out: Vec<EditorKind> = Vec::new();
    if editor_running(EditorKind::Code, executables) {
        out.push(EditorKind::Code);
    }
    if editor_running(EditorKind::Cursor, executables) {
        out.push(EditorKind::Cursor);
    }
    assert(out@ =~= editors_running_spec(executables@.map_values(|x: String| x@)));
    out
}

/// The editors running now, in their order: those that one of the table's
/// executables belongs to.
pub fn running_editors(system: &sysinfo::System) -> (r: Vec<EditorKind>)
    ensures
        r@ == editors_among(running_exes(*system)),
{
    let exes = executables(system);
    let r = editors_running_in(&exes);
    proof {
        let ev = exes@.map_values(|x: String| x@);
        lemma_editor_among(EditorKind::Code, ev);
        lemma_editor_among(EditorKind::Cursor, ev);
    }
    r
}

// ---------------------------------------------------------------------------
// The panel's state.

/// What the developer panel shows.
pub struct DevState {
    pub sessions: Vec<AgentSession>,
    pub workspaces: Vec<EditorWorkspace>,
}

impl View for DevState {
    type V = (Seq<SessionModel>, Seq<WorkspaceModel>);

    open spec fn view(&self) -> (Seq<SessionModel>, Seq<WorkspaceModel>) {
        (sessions_view(self.sessions@), workspaces_view(self.workspaces@))
    }
}

fn same_opt_text(a: &Option<String>, b: &Option<String>) -> (r: bool)
    ensures
        r == (opt_view(*a) == opt_view(*b)),
{
    match (a, b) {
        (Some(x), Some(y)) => chars_eq(chars_of(x.as_str()).as_slice(), chars_of(y.as_str()).as_slice()),
        (None, None) => true,
        _ => false,
    }
}

fn same_text(a: &String, b: &String) -> (r: bool)
    ensures
        r == (a@ == b@),
{
    chars_eq(chars_of(a.as_str()).as_slice(), chars_of(b.as_str()).as_slice())
}

fn same_session(a: &AgentSession, b: &AgentSession) -> (r: bool)
    ensures
        r == (a@ == b@),
{
    same_text(&a.id, &b.id) && a.agent == b.agent && same_text(&a.name, &b.name) && same_text(
        &a.path,
        &b.path,
    ) && same_text(&a.project, &b.project) && a.status == b.status && same_opt_text(
        &a.detail,
        &b.detail,
    ) && a.updated_at == b.updated_at
}

fn same_workspace(a: &EditorWorkspace, b: &EditorWorkspace) -> (r: bool)
    ensures
        r == (a@ == b@),
{
    same_text(&a.editor, &b.editor) && same_text(&a.editor_name, &b.editor_name) && same_text(
        &a.path,
        &b.path,
    ) && same_text(&a.project, &b.project) && same_opt_text(&a.branch, &b.branch) && a.active
        == b.active
}

fn same_sessions(a: &Vec<AgentSession>, b: &Vec<AgentSession>) -> (r: bool)
    ensures
        r == (sessions_view(a@) == sessions_view(b@)),
{
    if a.len() != b.len() {
        assert(sessions_view(a@).len() != sessions_view(b@).len());
        return false;
    }
    let mut i: usize = 0;
    while i < a.len()
        invariant
            a.len() == b.len(),
            i <= a.len(),
            forall|k: int| 0 <= k < i ==> a@[k]@ == b@[k]@,
        decreases a.len() - i,
    {
        if !same_session(&a[i], &b[i]) {
            assert(sessions_view(a@)[i as int] != sessions_view(b@)[i as int]);
            return false;
        }
        i = i + 1;
    }
    assert(sessions_view(a@) =~= sessions_view(b@));
    true
}

fn same_workspaces(a: &Vec<EditorWorkspace>, b: &Vec<EditorWorkspace>) -> (r: bool)
    ensures
        r == (workspaces_view(a@) == workspaces_view(b@)),
{
    if a.len() != b.len() {
        assert(workspaces_view(a@).len() != workspaces_view(b@).len());
        return false;
    }
    let mut i: usize = 0;
    while i < a.len()
        invariant
            a.len() == b.len(),
            i <= a.len(),
            forall|k: int| 0 <= k < i ==> a@[k]@ == b@[k]@,
        decreases a.len() - i,
    {
        if !same_workspace(&a[i], &b[i]) {
            assert(workspaces_view(a@)[i as int] != workspaces_view(b@)[i as int]);
            return false;
        }
        i = i + 1;
    }
    assert(workspaces_view(a@) =~= workspaces_view(b@));
    true
}

impl DevState {
    pub fn empty() -> (r: Self)
        ensures
            r@.0.len() == 0,
            r@.1.len() == 0,
    {
        DevState { sessions: Vec::new(), workspaces: Vec::new() }
    }

    pub fn copy(&self) -> (r: Self)
        ensures
            r@ == self@,
    {
        let mut sessions: Vec<AgentSession> = Vec::new();
        let mut i: usize = 0;
        while i < self.sessions.len()
            invariant
                i <= self.sessions@.len(),
                sessions@.len() == i,
                forall|k: int| 0 <= k < i ==> sessions@[k]@ == self.sessions@[k]@,
            decreases self.sessions.len() - i,
        {
            sessions.push(self.sessions[i].copy());
            i = i + 1;
        }
        let mut workspaces: Vec<EditorWorkspace> = Vec::new();
        let mut j: usize = 0;
        while j < self.workspaces.len()
            invariant
                j <= self.workspaces@.len(),
                workspaces@.len() == j,
                forall|k: int| 0 <= k < j ==> workspaces@[k]@ == self.workspaces@[k]@,
            decreases self.workspaces.len() - j,
        {
            workspaces.push(self.workspaces[j].copy());
            j = j + 1;
        }
        assert(sessions_view(sessions@) =~= sessions_view(self.sessions@));
        assert(workspaces_view(workspaces@) =~= workspaces_view(self.workspaces@));
        DevState { sessions, workspaces }
    }
}

/// The state last handed to the webview.
pub struct DevHub {
    state: DevState,
}

impl View for DevHub {
    type V = (Seq<SessionModel>, Seq<WorkspaceModel>);

    closed spec fn view(&self) -> (Seq<SessionModel>, Seq<WorkspaceModel>) {
        self.state@
    }
}

impl DevHub {
    pub fn new() -> (r: Self)
        ensures
            r@.0.len() == 0,
            r@.1.len() == 0,
    {
        DevHub { state: DevState::empty() }
    }

    /// The state last published.
    pub fn current(&self) -> (r: DevState)
        ensures
            r@ == self@,
    {
        self.state.copy()
    }

    /// Keeps `next` and says whether it differs from what was shown.
    pub fn publish(&mut self, next: DevState) -> (changed: bool)
        ensures
            final(self)@ == next@,
            changed == (old(self)@ != next@),
    {
        let same = same_sessions(&self.state.sessions, &next.sessions) && same_workspaces(
            &self.state.workspaces,
            &next.workspaces,
        );
        self.state = next;
        !same
    }
}

} // verus!
