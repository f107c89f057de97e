use bangs::dev::codex::{
    codex_cwd_of, codex_session, is_recent, merge_codex, newest_names, running_state, CodexProbe, CodexProbes,
    Elapsed,
};
use bangs::dev::paths::{branch_of_head, file_name, path_from_uri, project_name};
use bangs::dev::workspaces::{
    arrange_workspaces, editor_candidates, editor_running, read_editor_state, workspace_rows,
    EditorKind, EditorWorkspace, FoundFolder,
};
use bangs::dev::{
    claude_session, editors_running_in, interleave, prioritize, read_claude_session,
    running_editors, Agent, AgentSession, DevHub, DevState, SessionFile, SessionStatus,
};

fn ms(value: f64) -> u64 {
    value.to_bits()
}

fn session(id: &str, status: SessionStatus, at: f64) -> AgentSession {
    AgentSession {
        id: id.into(),
        agent: Agent::Claude,
        name: String::new(),
        path: format!("/p/{id}"),
        project: id.into(),
        status,
        detail: None,
        updated_at: ms(at),
    }
}

#[test]
fn projects_are_named_after_their_folder() {
    assert_eq!(project_name("/Users/me/dev/bangs", false), "bangs");
    assert_eq!(project_name("/Users/me/dev/bangs/", false), "bangs");
    assert_eq!(project_name("/a/b/.", false), "b");
    assert_eq!(project_name("/a/..", false), "/a/..");
    assert_eq!(project_name("/", false), "/");
    assert_eq!(file_name("notes.txt", false).as_deref(), Some("notes.txt"));
    assert_eq!(file_name("", false), None);
}

#[test]
fn windows_paths_split_on_both_slashes() {
    assert_eq!(project_name("C:\\Users\\me\\bangs", true), "bangs");
    assert_eq!(project_name("c:/dev/bangs/", true), "bangs");
    assert_eq!(project_name("C:\\", true), "C:\\");
    assert_eq!(project_name("C:", true), "C:");
    assert_eq!(file_name("C:notes.txt", true).as_deref(), Some("notes.txt"));
    assert_eq!(project_name("C:\\Users\\me\\bangs", false), "C:\\Users\\me\\bangs");
    let rows = workspace_rows(EditorKind::Cursor, &None, vec![found("D:\\work\\site")], true);
    assert_eq!(rows[0].project, "site");
}

#[test]
fn file_uris_become_paths() {
    assert_eq!(path_from_uri("file:///Users/me/dev").as_deref(), Some("/Users/me/dev"));
    assert_eq!(path_from_uri("file:///Users/me/my%20app").as_deref(), Some("/Users/me/my app"));
    assert_eq!(path_from_uri("file:///c%3A/dev").as_deref(), Some("c:/dev"));
    assert_eq!(path_from_uri("file:///tmp/%E4%BD%A0%E5%A5%BD").as_deref(), Some("/tmp/你好"));
    assert_eq!(path_from_uri("file:///tmp/%zz!").as_deref(), Some("/tmp/%!"));
    assert_eq!(path_from_uri("file:///tmp/%ff").as_deref(), Some("/tmp/\u{fffd}"));
    assert_eq!(path_from_uri("vscode-remote://ssh/x"), None);
}

#[test]
fn heads_name_a_branch_or_a_short_commit() {
    assert_eq!(branch_of_head("ref: refs/heads/main\n").as_deref(), Some("main"));
    assert_eq!(
        branch_of_head("4b825dc642cb6eb9a060e54bf8d69288fbee4904\n").as_deref(),
        Some("4b825dc")
    );
    assert_eq!(branch_of_head("abc"), None);
    assert_eq!(branch_of_head("éééxyz").as_deref(), Some("éééx"));
    assert_eq!(branch_of_head("ééé€x"), None);
    assert_eq!(branch_of_head("éééé"), None);
}

fn file(status: &str, cwd: &str) -> SessionFile {
    SessionFile {
        pid: 1,
        session_id: "s1".into(),
        cwd: cwd.into(),
        name: "work".into(),
        status: status.into(),
        waiting_for: Some(String::new()),
        status_updated_at: 0,
        updated_at: ms(5.0),
    }
}

#[test]
fn claude_sessions_need_a_live_process() {
    assert!(claude_session(file("busy", "/p/x"), false, false).is_none());
    assert!(claude_session(file("busy", "/tmp/scratch-workspaces/x"), true, false).is_none());
    let s = claude_session(file("waiting", "/p/x"), true, false).unwrap();
    assert_eq!(s.status, SessionStatus::Waiting);
    assert_eq!(s.project, "x");
    assert_eq!(s.detail, None);
    assert_eq!(s.updated_at, ms(5.0));
    let mut f = file("other", "/p/y");
    f.status_updated_at = ms(9.0);
    f.waiting_for = Some("permission".into());
    let s = claude_session(f, true, false).unwrap();
    assert_eq!(s.status, SessionStatus::Idle);
    assert_eq!(s.updated_at, ms(9.0));
    assert_eq!(s.detail.as_deref(), Some("permission"));
    let empty = sysinfo::System::new();
    assert!(read_claude_session(&empty, file("busy", "/p/x"), false).is_none());
}

#[test]
fn attention_comes_first_and_idle_is_trimmed() {
    let mut v = vec![
        session("i1", SessionStatus::Idle, 1.0),
        session("b1", SessionStatus::Busy, 1.0),
        session("i2", SessionStatus::Idle, 5.0),
        session("w1", SessionStatus::Waiting, 0.5),
        session("i3", SessionStatus::Idle, 3.0),
        session("b2", SessionStatus::Busy, 7.0),
        session("i4", SessionStatus::Idle, 4.0),
    ];
    prioritize(&mut v);
    let ids: Vec<&str> = v.iter().map(|s| s.id.as_str()).collect();
    assert_eq!(ids, vec!["w1", "b2", "b1", "i2", "i4", "i3"]);
}

#[test]
fn agents_alternate() {
    let a = vec![session("a1", SessionStatus::Busy, 1.0), session("a2", SessionStatus::Idle, 1.0), session("a3", SessionStatus::Idle, 1.0)];
    let b = vec![session("b1", SessionStatus::Busy, 1.0)];
    let ids: Vec<String> = interleave(a, b).into_iter().map(|s| s.id).collect();
    assert_eq!(ids, vec!["a1", "b1", "a2", "a3"]);
}

#[test]
fn codex_logs_say_whether_a_turn_runs() {
    assert_eq!(running_state(r#"{"type":"task_started"}"#), Some(true));
    assert_eq!(running_state(r#"{"type":"task_started"} {"type":"task_complete"}"#), Some(false));
    assert_eq!(running_state(r#"{"type":"task_complete"} {"type":"task_started"}"#), Some(true));
    assert_eq!(running_state("nothing"), None);
    assert!(is_recent(Elapsed { secs: 21600, nanos: 0 }));
    assert!(!is_recent(Elapsed { secs: 21600, nanos: 1 }));
}

#[test]
fn codex_logs_name_their_folder_on_the_first_line() {
    let first = r#"{"type":"session_meta","payload":{"id":"x","cwd":"/Users/me/app"}}"#;
    assert_eq!(codex_cwd_of(first), Some("/Users/me/app".to_string()));
    assert_eq!(codex_cwd_of(r#"{"payload":{"cwd":7}}"#), None);
    assert_eq!(codex_cwd_of("not json"), None);
}

#[test]
fn probes_remember_each_log() {
    let mut probes = CodexProbes::new();
    let fresh = probes.entry("/log/a");
    assert!(fresh.needs_cwd());
    assert!(fresh.needs_scan(10));
    let mut known = fresh.scanned(10, Some(true));
    known.cwd = "/p/a".into();
    probes.store("/log/a", known);
    let again = probes.entry("/log/a");
    assert_eq!(again.read_to, 10);
    assert!(again.running);
    assert!(!again.needs_scan(10));
    assert!(again.copy().scanned(12, None).running);
    probes.entry("/log/b");
    probes.retain_seen(&vec!["/log/b".to_string()]);
    assert_eq!(probes.entry("/log/a").read_to, 0);

    let s = codex_session("/log/a".into(), "rollout".into(), &again, Elapsed { secs: 10, nanos: 0 }, ms(3.0), false);
    assert_eq!(s.status, SessionStatus::Busy);
    assert_eq!(s.project, "a");
    let stale = codex_session("/log/a".into(), "rollout".into(), &again, Elapsed { secs: 300, nanos: 0 }, ms(3.0), false);
    assert_eq!(stale.status, SessionStatus::Idle);
    let _ = CodexProbe::new();
}

#[test]
fn one_codex_row_per_project_in_path_order() {
    let mut rows = Vec::new();
    let idle = |path: &str, at: f64| {
        let mut s = session(path, SessionStatus::Idle, at);
        s.path = path.into();
        s
    };
    merge_codex(&mut rows, idle("/b", 1.0));
    merge_codex(&mut rows, idle("/a", 1.0));
    merge_codex(&mut rows, idle("/b", 0.5));
    merge_codex(&mut rows, idle("/c", 1.0));
    merge_codex(&mut rows, idle("/a", 2.0));
    let paths: Vec<&str> = rows.iter().map(|s| s.path.as_str()).collect();
    assert_eq!(paths, vec!["/a", "/b", "/c"]);
    assert_eq!(rows[0].updated_at, ms(2.0));
    assert_eq!(rows[1].updated_at, ms(1.0));
    let mut busy = idle("/b", 0.1);
    busy.status = SessionStatus::Busy;
    merge_codex(&mut rows, busy);
    assert_eq!(rows[1].status, SessionStatus::Busy);
}

#[test]
fn newest_day_folders_first() {
    let names = vec!["2024".to_string(), "2026".to_string(), "2025".to_string()];
    assert_eq!(newest_names(names, 2), vec!["2026".to_string(), "2025".to_string()]);
}

#[test]
fn editors_are_found_by_their_executables() {
    let exes = vec!["/Applications/Cursor.app/Contents/MacOS/Cursor".to_string()];
    assert!(editor_running(EditorKind::Cursor, &exes));
    assert!(!editor_running(EditorKind::Code, &exes));
    assert_eq!(editors_running_in(&exes), vec![EditorKind::Cursor]);
    assert_eq!(running_editors(&sysinfo::System::new()), Vec::<EditorKind>::new());
    assert_eq!(EditorKind::Code.id(), "code");
    assert_eq!(EditorKind::Cursor.name(), "Cursor");
    assert_eq!(EditorKind::Code.data_dir(), "Code");
}

#[test]
fn editor_state_is_read_from_storage_json() {
    let raw = r#"{"windowsState":{"lastActiveWindow":{"folder":"file:///p/a"},
        "openedWindows":[{"folder":"file:///p/b"},{"workspace":{}},{"folder":"file:///p/a"}]},
        "backupWorkspaces":{"folders":[{"folderUri":"file:///p/c"}]}}"#;
    let state = read_editor_state(raw);
    assert_eq!(state.active_uri.as_deref(), Some("file:///p/a"));
    assert_eq!(state.folder_uris, vec!["file:///p/b", "file:///p/a", "file:///p/c"]);
    let broken = read_editor_state("{");
    assert!(broken.active_uri.is_none());
    assert!(broken.folder_uris.is_empty());
}

fn found(path: &str) -> FoundFolder {
    FoundFolder { path: path.into(), branch: Some("main".into()) }
}

#[test]
fn workspaces_are_one_per_path_active_first_and_capped() {
    let rows = workspace_rows(
        EditorKind::Code,
        &Some("/p/b".into()),
        vec![found("/p/c"), found("/p/b"), found("/p/c"), found("/p/a")],
        false,
    );
    let paths: Vec<&str> = rows.iter().map(|w| w.path.as_str()).collect();
    assert_eq!(paths, vec!["/p/a", "/p/b", "/p/c"]);
    assert!(rows[1].active);
    assert_eq!(rows[0].editor, "code");
    assert_eq!(rows[0].project, "a");

    let mut all: Vec<EditorWorkspace> = Vec::new();
    for (i, active) in [false, false, true, false, false, true, false].iter().enumerate() {
        all.push(EditorWorkspace {
            editor: "code".into(),
            editor_name: "VS Code".into(),
            path: format!("/w/{i}"),
            project: i.to_string(),
            branch: None,
            active: *active,
        });
    }
    let arranged = arrange_workspaces(all);
    let paths: Vec<&str> = arranged.iter().map(|w| w.path.as_str()).collect();
    assert_eq!(paths, vec!["/w/2", "/w/5", "/w/0", "/w/1", "/w/3"]);
}

#[test]
fn projects_open_in_the_editor_that_has_them() {
    let ws = vec![EditorWorkspace {
        editor: "cursor".into(),
        editor_name: "Cursor".into(),
        path: "/p/a".into(),
        project: "a".into(),
        branch: None,
        active: false,
    }];
    assert_eq!(editor_candidates(&ws, "/p/a", None), vec![EditorKind::Cursor]);
    assert_eq!(editor_candidates(&ws, "/p/z", None), vec![EditorKind::Code, EditorKind::Cursor]);
    assert_eq!(editor_candidates(&ws, "/p/a", Some("code".into())), vec![EditorKind::Code]);
    assert_eq!(editor_candidates(&ws, "/p/a", Some("vim".into())), Vec::<EditorKind>::new());
}

#[test]
fn the_panel_only_speaks_up_on_change() {
    let mut hub = DevHub::new();
    let state = DevState { sessions: vec![session("a", SessionStatus::Busy, 1.0)], workspaces: Vec::new() };
    assert!(hub.publish(state.copy()));
    assert!(!hub.publish(state));
    assert_eq!(hub.current().sessions.len(), 1);
    assert!(hub.publish(DevState::empty()));
}
