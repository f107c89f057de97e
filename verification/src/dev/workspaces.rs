//! The projects VS Code and Cursor have open, read from each editor's
//! `storage.json` while the editor runs.

use vstd::prelude::*;

use super::paths::{path_from_uri, project_name, project_name_spec};
use crate::sort::{is_sorted_by, key_order, lemma_sort_by_sorted, lemma_sort_map, sort_by, stable_sort_exec, total_preorder, SortKey};
use crate::text::{
    chars_eq, chars_of, clone_opt, contains, contains_exec, lex_le, lex_le_exec, opt_view, owned,
};

verus! {

// ---------------------------------------------------------------------------
// The editors.

#[derive(Debug, Clone, Copy, PartialEq, Eq, Structural)]
pub enum EditorKind {
    Code,
    Cursor,
}

/// The editors the panel knows, in the order they are tried.
pub open spec fn editors_spec() -> Seq<EditorKind> {
    seq![EditorKind::Code, EditorKind::Cursor]
}

pub fn editors() -> (r: Vec<EditorKind>)
    ensures
        r@ == editors_spec(),
{
    let mut v: Vec<EditorKind> = Vec::new();
    v.push(EditorKind::Code);
    v.push(EditorKind::Cursor);
    assert(v@ =~= editors_spec());
    v
}

pub open spec fn editor_id(e: EditorKind) -> Seq<char> {
    match e {
        EditorKind::Code => "code"@,
        EditorKind::Cursor => "cursor"@,
    }
}

pub open spec fn editor_name(e: EditorKind) -> Seq<char> {
    match e {
        EditorKind::Code => "VS Code"@,
        EditorKind::Cursor => "Cursor"@,
    }
}

pub open spec fn editor_data_dir(e: EditorKind) -> Seq<char> {
    match e {
        EditorKind::Code => "Code"@,
        EditorKind::Cursor => "Cursor"@,
    }
}

/// Parts of an executable path that mean the editor runs. On macOS both
/// editors run an executable called `Electron`, so the bundle path tells
/// them apart.
pub open spec fn editor_markers(e: EditorKind) -> Seq<Seq<char>> {
    match e {
        EditorKind::Code => seq!["Visual Studio Code.app"@, "Microsoft VS Code"@, "Code.exe"@],
        EditorKind::Cursor => seq!["Cursor.app"@, "cursor/Cursor.exe"@, "Cursor.exe"@],
    }
}

impl EditorKind {
    /// "code" or "cursor".
    pub fn id(&self) -> (r: String)
        ensures
            r@ == editor_id(*self),
    {
        match self {
            EditorKind::Code => owned("code"),
            EditorKind::Cursor => owned("cursor"),
        }
    }

    pub fn name(&self) -> (r: String)
        ensures
            r@ == editor_name(*self),
    {
        match self {
            EditorKind::Code => owned("VS Code"),
            EditorKind::Cursor => owned("Cursor"),
        }
    }

    /// The folder under the application-data directory.
    pub fn data_dir(&self) -> (r: String)
        ensures
            r@ == editor_data_dir(*self),
    {
        match self {
            EditorKind::Code => owned("Code"),
            EditorKind::Cursor => owned("Cursor"),
        }
    }

    pub fn markers(&self) -> (r: Vec<String>)
        ensures
            r@.map_values(|m: String| m@) == editor_markers(*self),
    {
        let mut v: Vec<String> = Vec::new();
        match self {
            EditorKind::Code => {
                v.push(owned("Visual Studio Code.app"));
                v.push(owned("Microsoft VS Code"));
                v.push(owned("Code.exe"));
            },
            EditorKind::Cursor => {
                v.push(owned("Cursor.app"));
                v.push(owned("cursor/Cursor.exe"));
                v.push(owned("Cursor.exe"));
            },
        }
        assert(v@.map_values(|m: String| m@) =~= editor_markers(*self));
        v
    }
}

/// Whether some running executable is this editor's.
pub open spec fn editor_running_spec(e: EditorKind, executables: Seq<Seq<char>>) -> bool {
    exists|i: int, m: int|
        0 <= i < executables.len() && 0 <= m < editor_markers(e).len() && contains(
            #[trigger] executables[i],
            #[trigger] editor_markers(e)[m],
        )
}

pub fn editor_running(e: EditorKind, executables: &Vec<String>) -> (r: bool)
    ensures
        r == editor_running_spec(e, executables@.map_values(|x: String| x@)),
{
    let ghost ex = executables@.map_values(|x: String| x@);
    let markers = e.markers();
    let ghost mk = markers@.map_values(|m: String| m@);
    let mut i: usize = 0;
    while i < executables.len()
        invariant
            i <= executables@.len(),
            ex == executables@.map_values(|x: String| x@),
            mk == editor_markers(e),
            mk == markers@.map_values(|m: String| m@),
            forall|a: int, m: int|
                0 <= a < i && 0 <= m < mk.len() ==> !contains(#[trigger] ex[a], #[trigger] mk[m]),
        decreases executables.len() - i,
    {
        let text = chars_of(executables[i].as_str());
        let mut k: usize = 0;
        while k < markers.len()
            invariant
                i < ex.len(),
                ex == executables@.map_values(|x: String| x@),
                k <= markers@.len(),
                text@ == ex[i as int],
                mk == editor_markers(e),
                mk == markers@.map_values(|m: String| m@),
                forall|m: int| 0 <= m < k ==> !contains(ex[i as int], #[trigger] mk[m]),
            decreases markers.len() - k,
        {
            if contains_exec(text.as_slice(), chars_of(markers[k].as_str()).as_slice()) {
                assert(contains(ex[i as int], editor_markers(e)[k as int]));
                assert(editor_running_spec(e, ex));
                return true;
            }
            k = k + 1;
        }
        i = i + 1;
    }
    false
}

// ---------------------------------------------------------------------------
// Reading an editor's state file.

/// What `serde_json` finds at a chain of object keys in a JSON text, when
/// it is a string.
pub uninterp spec fn json_text_at(text: Seq<char>, keys: Seq<Seq<char>>) -> Option<Seq<char>>;

/// What `serde_json` finds under `field` of each item of the array at a
/// chain of object keys: the string there, if it is one.
pub uninterp spec fn json_texts_at(text: Seq<char>, keys: Seq<Seq<char>>, field: Seq<char>) -> Seq<
    Option<Seq<char>>,
>;

pub open spec fn keys_view(keys: Seq<&str>) -> Seq<Seq<char>> {
    keys.map_values(|k: &str| k@)
}

pub open spec fn opts_view(v: Seq<Option<String>>) -> Seq<Option<Seq<char>>> {
    v.map_values(|o: Option<String>| opt_view(o))
}

/// `serde_json::from_str` of the text as a `Value`, indexed by each key in
/// turn (a missing key or a text that is not JSON gives nothing), then
/// `Value::as_str`.
#[verifier::external_body]
pub(crate) fn json_text(text: &str, keys: &[&str]) -> (r: Option<String>)
    ensures
        opt_view(r) == json_text_at(text@, keys_view(keys@)),
{
    let value: serde_json::Value = serde_json::from_str(text).ok()?;
    let mut at = &value;
    for key in keys {
        at = &at[*key];
    }
    at.as_str().map(|s| s.to_string())
}

/// What `serde_json` finds at a chain of object keys in a JSON text, when
/// it is an integer that fits an `i64`.
pub uninterp spec fn json_int_at(text: Seq<char>, keys: Seq<Seq<char>>) -> Option<i64>;

/// The items of the array that `serde_json` finds at a chain of object keys
/// in a JSON text, each written back as JSON text.
pub uninterp spec fn json_items_at(text: Seq<char>, keys: Seq<Seq<char>>) -> Option<Seq<Seq<char>>>;

/// `serde_json::from_str` of the text as a `Value`, indexed by each key in
/// turn (a missing key or a text that is not JSON gives nothing), then
/// `Value::as_i64`.
#[verifier::external_body]
pub(crate) fn json_int(text: &str, keys: &[&str]) -> (r: Option<i64>)
    ensures
        r == json_int_at(text@, keys_view(keys@)),
{
    let value: serde_json::Value = serde_json::from_str(text).ok()?;
    let mut at = &value;
    for key in keys {
        at = &at[*key];
    }
    at.as_i64()
}

/// `serde_json::from_str` of the text as a `Value`, indexed by each key in
/// turn, then `Value::as_array`; each item is written back with `Value`'s
/// `Display` (`to_string`), which `from_str` reads back as the same value.
/// Nothing when the text is not JSON or holds no array there.
#[verifier::external_body]
pub(crate) fn json_items(text: &str, keys: &[&str]) -> (r: Option<Vec<String>>)
    ensures
        match r {
            Some(v) => json_items_at(text@, keys_view(keys@)) == Some(v@.map_values(|s: String| s@)),
            None => json_items_at(text@, keys_view(keys@)) is None,
        },
{
    let value: serde_json::Value = serde_json::from_str(text).ok()?;
    let mut at = &value;
    for key in keys {
        at = &at[*key];
    }
    at.as_array().map(|items| items.iter().map(|item| item.to_string()).collect())
}

/// `serde_json::from_str` of the text as a `Value`, indexed by each key in
/// turn, then `Value::as_array`: for each item, `Value::as_str` of the item
/// under `field`.
#[verifier::external_body]
pub(crate) fn json_texts(text: &str, keys: &[&str], field: &str) -> (r: Vec<Option<String>>)
    ensures
        opts_view(r@) == json_texts_at(text@, keys_view(keys@), field@),
{
    let Ok(value) = serde_json::from_str::<serde_json::Value>(text) else {
        return Vec::new();
    };
    let mut at = &value;
    for key in keys {
        at = &at[*key];
    }
    match at.as_array() {
        Some(items) => items.iter().map(|item| item[field].as_str().map(|s| s.to_string())).collect(),
        None => Vec::new(),
    }
}

/// The strings among optional strings, in order.
pub open spec fn somes(v: Seq<Option<Seq<char>>>) -> Seq<Seq<char>>
    decreases v.len(),
{
    if v.len() == 0 {
        Seq::empty()
    } else {
        match v.last() {
            Some(t) => somes(v.drop_last()).push(t),
            None => somes(v.drop_last()),
        }
    }
}

pub(crate) fn push_somes(out: &mut Vec<String>, v: Vec<Option<String>>)
    ensures
        final(out)@.map_values(|s: String| s@) == old(out)@.map_values(|s: String| s@) + somes(
            opts_view(v@),
        ),
{
    let ghost start = out@.map_values(|s: String| s@);
    let ghost ov = opts_view(v@);
    let mut i: usize = 0;
    let mut rest = v;
    assert(ov.take(0) =~= Seq::<Option<Seq<char>>>::empty());
    assert(start + somes(ov.take(0)) =~= start);
    assert(ov.len() == rest.len());
    while rest.len() > 0
        invariant
            ov.len() <= usize::MAX,
            i + rest@.len() == ov.len(),
            opts_view(rest@) == ov.subrange(i as int, ov.len() as int),
            out@.map_values(|s: String| s@) == start + somes(ov.take(i as int)),
        decreases rest@.len(),
    {
        let ghost r0 = rest@[0];
        let ghost old_rest = rest@;
        assert(opts_view(rest@)[0] == opt_view(r0));
        let x = rest.remove(0);
        assert(rest@ =~= old_rest.drop_first());
        assert(opts_view(rest@) =~= opts_view(old_rest).drop_first());
        assert(opt_view(x) == ov[i as int]);
        assert(ov.take(i + 1).drop_last() =~= ov.take(i as int));
        let ghost before = out@.map_values(|s: String| s@);
        match x {
            Some(t) => {
                out.push(t);
                assert(out@.map_values(|s: String| s@) =~= before.push(ov[i as int]->0));
            },
            None => {},
        }
        i = i + 1;
        assert(opts_view(rest@) =~= ov.subrange(i as int, ov.len() as int));
    }
    assert(ov.take(i as int) =~= ov);
}

pub open spec fn active_keys() -> Seq<Seq<char>> {
    seq!["windowsState"@, "lastActiveWindow"@, "folder"@]
}

pub open spec fn opened_keys() -> Seq<Seq<char>> {
    seq!["windowsState"@, "openedWindows"@]
}

pub open spec fn backup_keys() -> Seq<Seq<char>> {
    seq!["backupWorkspaces"@, "folders"@]
}

/// What an editor's state says: the folder of the window it had in front,
/// and the folders of its open windows (written on quit) followed by those
/// of its backed-up workspaces (the windows open now).
pub struct EditorState {
    pub active_uri: Option<String>,
    pub folder_uris: Vec<String>,
}

pub fn read_editor_state(raw: &str) -> (r: EditorState)
    ensures
        opt_view(r.active_uri) == json_text_at(raw@, active_keys()),
        r.folder_uris@.map_values(|s: String| s@) == somes(
            json_texts_at(raw@, opened_keys(), "folder"@),
        ) + somes(json_texts_at(raw@, backup_keys(), "folderUri"@)),
{
    let front: [&str; 3] = ["windowsState", "lastActiveWindow", "folder"];
    assert(keys_view(front@) =~= active_keys());
    let active_uri = json_text(raw, front.as_slice());
    let opened: [&str; 2] = ["windowsState", "openedWindows"];
    assert(keys_view(opened@) =~= opened_keys());
    let backup: [&str; 2] = ["backupWorkspaces", "folders"];
    assert(keys_view(backup@) =~= backup_keys());
    let mut folder_uris: Vec<String> = Vec::new();
    assert(folder_uris@.map_values(|s: String| s@) =~= Seq::<Seq<char>>::empty());
    push_somes(&mut folder_uris, json_texts(raw, opened.as_slice(), "folder"));
    push_somes(&mut folder_uris, json_texts(raw, backup.as_slice(), "folderUri"));
    assert(folder_uris@.map_values(|s: String| s@) =~= somes(
        json_texts_at(raw@, opened_keys(), "folder"@),
    ) + somes(json_texts_at(raw@, backup_keys(), "folderUri"@)));
    EditorState { active_uri, folder_uris }
}

// ---------------------------------------------------------------------------
// Workspaces.

/// A project an editor has open.
pub struct EditorWorkspace {
    /// "code" or "cursor".
    pub editor: String,
    pub editor_name: String,
    pub path: String,
    pub project: String,
    pub branch: Option<String>,
    /// The window the editor had in front when it last wrote its state.
    pub active: bool,
}

pub struct WorkspaceModel {
    pub editor: Seq<char>,
    pub editor_name: Seq<char>,
    pub path: Seq<char>,
    pub project: Seq<char>,
    pub branch: Option<Seq<char>>,
    pub active: bool,
}

impl View for EditorWorkspace {
    type V = WorkspaceModel;

    open spec fn view(&self) -> WorkspaceModel {
        WorkspaceModel {
            editor: self.editor@,
            editor_name: self.editor_name@,
            path: self.path@,
            project: self.project@,
            branch: opt_view(self.branch),
            active: self.active,
        }
    }
}

pub open spec fn workspaces_view(v: Seq<EditorWorkspace>) -> Seq<WorkspaceModel> {
    v.map_values(|w: EditorWorkspace| w@)
}

impl EditorWorkspace {
    pub fn copy(&self) -> (r: Self)
        ensures
            r@ == self@,
    {
        EditorWorkspace {
            editor: self.editor.clone(),
            editor_name: self.editor_name.clone(),
            path: self.path.clone(),
            project: self.project.clone(),
            branch: clone_opt(&self.branch),
            active: self.active,
        }
    }
}

/// A folder found on disk, with the branch its `.git/HEAD` names.
pub struct FoundFolder {
    pub path: String,
    pub branch: Option<String>,
}

/// The row for a folder of an editor.
pub open spec fn workspace_row(
    e: EditorKind,
    active: Option<Seq<char>>,
    path: Seq<char>,
    branch: Option<Seq<char>>,
    on_windows: bool,
) -> WorkspaceModel {
    WorkspaceModel {
        editor: editor_id(e),
        editor_name: editor_name(e),
        path,
        project: project_name_spec(path, on_windows),
        branch,
        active: active == Some(path),
    }
}

/// Adds a row to an editor's rows, kept by path in path order; a path that
/// is there already keeps its first row.
pub open spec fn add_row(rows: Seq<WorkspaceModel>, w: WorkspaceModel) -> Seq<WorkspaceModel>
    decreases rows.len(),
{
    if rows.len() == 0 {
        seq![w]
    } else if rows[0].path == w.path {
        rows
    } else if lex_le(w.path, rows[0].path) {
        seq![w] + rows
    } else {
        seq![rows[0]] + add_row(rows.drop_first(), w)
    }
}

pub open spec fn editor_rows(
    e: EditorKind,
    active: Option<Seq<char>>,
    found: Seq<(Seq<char>, Option<Seq<char>>)>,
    on_windows: bool,
) -> Seq<WorkspaceModel>
    decreases found.len(),
{
    if found.len() == 0 {
        Seq::empty()
    } else {
        add_row(
            editor_rows(e, active, found.drop_last(), on_windows),
            workspace_row(e, active, found.last().0, found.last().1, on_windows),
        )
    }
}

pub open spec fn found_view(v: Seq<FoundFolder>) -> Seq<(Seq<char>, Option<Seq<char>>)> {
    v.map_values(|f: FoundFolder| (f.path@, opt_view(f.branch)))
}

fn add_row_exec(rows: &mut Vec<EditorWorkspace>, w: EditorWorkspace)
    ensures
        workspaces_view(final(rows)@) == add_row(workspaces_view(old(rows)@), w@),
{
    let ghost whole = workspaces_view(rows@);
    let want = chars_of(w.path.as_str());
    let mut i: usize = 0;
    assert(whole.subrange(0, whole.len() as int) =~= whole);
    assert(whole.subrange(0, 0) + add_row(whole, w@) =~= add_row(whole, w@));
    while i < rows.len()
        invariant
            i <= rows@.len(),
            workspaces_view(rows@) == whole,
            whole == workspaces_view(old(rows)@),
            want@ == w.path@,
            add_row(whole, w@) == whole.subrange(0, i as int) + add_row(
                whole.subrange(i as int, whole.len() as int),
                w@,
            ),
        decreases rows.len() - i,
    {
        let ghost rest = whole.subrange(i as int, whole.len() as int);
        assert(rest[0] == rows@[i as int]@);
        let here = chars_of(rows[i].path.as_str());
        if chars_eq(here.as_slice(), want.as_slice()) {
            assert(whole.subrange(0, i as int) + rest =~= whole);
            return;
        }
        if lex_le_exec(want.as_slice(), here.as_slice()) {
            rows.insert(i, w);
            assert(workspaces_view(rows@) =~= whole.subrange(0, i as int) + (seq![w@] + rest));
            return;
        }
        assert(rest.drop_first() =~= whole.subrange(i + 1, whole.len() as int));
        assert(whole.subrange(0, i as int) + (seq![rest[0]] + add_row(rest.drop_first(), w@))
            =~= whole.subrange(0, i + 1) + add_row(rest.drop_first(), w@));
        i = i + 1;
    }
    assert(whole.subrange(i as int, whole.len() as int) =~= Seq::<WorkspaceModel>::empty());
    rows.push(w);
    assert(workspaces_view(rows@) =~= whole + seq![w@]);
}

fn same_text_opt(a: &Option<String>, b: &String) -> (r: bool)
    ensures
        r == (opt_view(*a) == Some(b@)),
{
    match a {
        Some(x) => chars_eq(chars_of(x.as_str()).as_slice(), chars_of(b.as_str()).as_slice()),
        None => false,
    }
}

/// The rows of one editor: one per folder path, in path order, the first
/// sighting of a path kept; `active` is the path of the window in front,
/// `on_windows` how the paths are read.
pub fn workspace_rows(
    e: EditorKind,
    active: &Option<String>,
    found: Vec<FoundFolder>,
    on_windows: bool,
) -> (r: Vec<EditorWorkspace>)
    ensures
        workspaces_view(r@) == editor_rows(e, opt_view(*active), found_view(found@), on_windows),
{
    let ghost fv = found_view(found@);
    let mut rows: Vec<EditorWorkspace> = Vec::new();
    let mut rest = found;
    let mut i: usize = 0;
    assert(fv.take(0) =~= Seq::<(Seq<char>, Option<Seq<char>>)>::empty());
    assert(workspaces_view(rows@) =~= Seq::<WorkspaceModel>::empty());
    assert(fv.len() == rest.len());
    while rest.len() > 0
        invariant
            fv.len() <= usize::MAX,
            i + rest@.len() == fv.len(),
            found_view(rest@) == fv.subrange(i as int, fv.len() as int),
            workspaces_view(rows@) == editor_rows(e, opt_view(*active), fv.take(i as int), on_windows),
        decreases rest@.len(),
    {
        let ghost f0 = rest@[0];
        let ghost old_rest = rest@;
        assert(found_view(rest@)[0] == (f0.path@, opt_view(f0.branch)));
        let f = rest.remove(0);
        assert(rest@ =~= old_rest.drop_first());
        assert(found_view(rest@) =~= found_view(old_rest).drop_first());
        assert((f.path@, opt_view(f.branch)) == fv[i as int]);
        assert(fv.take(i + 1).drop_last() =~= fv.take(i as int));
        assert(fv.take(i + 1).last() == fv[i as int]);
        let is_active = same_text_opt(active, &f.path);
        let w = EditorWorkspace {
            editor: e.id(),
            editor_name: e.name(),
            project: project_name(f.path.as_str(), on_windows),
            branch: f.branch,
            active: is_active,
            path: f.path,
        };
        add_row_exec(&mut rows, w);
        i = i + 1;
        assert(found_view(rest@) =~= fv.subrange(i as int, fv.len() as int));
    }
    assert(fv.take(i as int) =~= fv);
    rows
}

/// Caps the list so a long editor history cannot bury the sessions.
pub const MAX_WORKSPACES: usize = 5;

impl SortKey for EditorWorkspace {
    open spec fn stays_before(&self, other: &Self) -> bool {
        self.active || !other.active
    }

    fn le(&self, other: &Self) -> (r: bool) {
        self.active || !other.active
    }
}

/// The window in front first; otherwise the order stays.
pub open spec fn active_first() -> spec_fn(WorkspaceModel, WorkspaceModel) -> bool {
    |a: WorkspaceModel, b: WorkspaceModel| a.active || !b.active
}

pub open spec fn arranged_workspaces(v: Seq<WorkspaceModel>) -> Seq<WorkspaceModel> {
    let s = sort_by(v, active_first());
    if s.len() <= MAX_WORKSPACES {
        s
    } else {
        s.subrange(0, MAX_WORKSPACES as int)
    }
}

/// Puts the active windows first, keeping the order otherwise, and keeps
/// `MAX_WORKSPACES` rows.
pub fn arrange_workspaces(all: Vec<EditorWorkspace>) -> (r: Vec<EditorWorkspace>)
    ensures
        workspaces_view(r@) == arranged_workspaces(workspaces_view(all@)),
{
    let ghost input = all@;
    let mut sorted = stable_sort_exec(all);
    proof {
        let f = |w: EditorWorkspace| w@;
        lemma_sort_map(input, f, key_order::<EditorWorkspace>(), active_first());
        assert(workspaces_view(input) =~= input.map_values(f));
        assert(workspaces_view(sorted@) =~= sorted@.map_values(f));
    }
    let ghost full = sorted@;
    sorted.truncate(MAX_WORKSPACES);
    proof {
        if full.len() > MAX_WORKSPACES {
            assert(workspaces_view(sorted@) =~= workspaces_view(full).subrange(
                0,
                MAX_WORKSPACES as int,
            ));
        }
    }
    sorted
}

/// The workspace list holds at most `MAX_WORKSPACES` rows, every active one
/// before every other, all of them rows that were found.
pub proof fn lemma_arranged_workspaces(v: Seq<WorkspaceModel>)
    ensures
        arranged_workspaces(v).len() <= MAX_WORKSPACES,
        forall|i: int, j: int|
            0 <= i < j < arranged_workspaces(v).len() && (#[trigger] arranged_workspaces(v)[j]).active
                ==> (#[trigger] arranged_workspaces(v)[i]).active,
        forall|i: int| 0 <= i < arranged_workspaces(v).len() ==> v.contains(#[trigger] arranged_workspaces(v)[i]),
{
    broadcast use vstd::seq_lib::group_seq_properties;

    assert(total_preorder(active_first()));
    lemma_sort_by_sorted(v, active_first());
    let s = sort_by(v, active_first());
    let r = arranged_workspaces(v);
    assert forall|i: int, j: int| 0 <= i < j < r.len() && (#[trigger] r[j]).active implies (
    #[trigger] r[i]).active by {
        assert(r[i] == s[i] && r[j] == s[j]);
        assert(active_first()(s[i], s[j]));
    }
    assert forall|i: int| 0 <= i < r.len() implies v.contains(#[trigger] r[i]) by {
        assert(r[i] == s[i]);
        assert(s.to_multiset().count(s[i]) > 0);
        assert(v.to_multiset().count(s[i]) > 0);
    }
}

// ---------------------------------------------------------------------------
// Opening a project.

/// The editor that has `path` open, from the first workspace with it.
pub open spec fn editor_with(ws: Seq<WorkspaceModel>, path: Seq<char>) -> Option<Seq<char>>
    decreases ws.len(),
{
    if ws.len() == 0 {
        None
    } else if ws[0].path == path {
        Some(ws[0].editor)
    } else {
        editor_with(ws.drop_first(), path)
    }
}

/// The editors to try for a project, in order: the one asked for, else the
/// one that already has it open (none when no known editor has that id),
/// else every known editor.
pub open spec fn candidates_spec(
    ws: Seq<WorkspaceModel>,
    path: Seq<char>,
    editor: Option<Seq<char>>,
) -> Seq<EditorKind> {
    let preferred = match editor {
        Some(e) => Some(e),
        None => editor_with(ws, path),
    };
    match preferred {
        Some(id) => if id == "code"@ {
            seq![EditorKind::Code]
        } else if id == "cursor"@ {
            seq![EditorKind::Cursor]
        } else {
            Seq::empty()
        },
        None => editors_spec(),
    }
}

fn editor_for(ws: &Vec<EditorWorkspace>, path: &str) -> (r: Option<String>)
    ensures
        opt_view(r) == editor_with(workspaces_view(ws@), path@),
{
    let ghost wv = workspaces_view(ws@);
    let want = chars_of(path);
    let mut i: usize = 0;
    assert(wv.subrange(0, wv.len() as int) =~= wv);
    while i < ws.len()
        invariant
            i <= ws@.len(),
            wv == workspaces_view(ws@),
            want@ == path@,
            editor_with(wv, path@) == editor_with(wv.subrange(i as int, wv.len() as int), path@),
        decreases ws.len() - i,
    {
        let ghost rest = wv.subrange(i as int, wv.len() as int);
        assert(rest[0] == ws@[i as int]@);
        if chars_eq(chars_of(ws[i].path.as_str()).as_slice(), want.as_slice()) {
            return Some(ws[i].editor.clone());
        }
        assert(rest.drop_first() =~= wv.subrange(i + 1, wv.len() as int));
        i = i + 1;
    }
    assert(wv.subrange(i as int, wv.len() as int) =~= Seq::<WorkspaceModel>::empty());
    None
}

pub fn editor_candidates(ws: &Vec<EditorWorkspace>, path: &str, editor: Option<String>) -> (r: Vec<
    EditorKind,
>)
    ensures
        r@ == candidates_spec(workspaces_view(ws@), path@, opt_view(editor)),
{
    let preferred: Option<String> = match editor {
        Some(e) => Some(e),
        None => editor_for(ws, path),
    };
    match preferred {
        Some(id) => {
            let want = chars_of(id.as_str());
            let mut out: Vec<EditorKind> = Vec::new();
            if chars_eq(want.as_slice(), chars_of("code").as_slice()) {
                out.push(EditorKind::Code);
            } else if chars_eq(want.as_slice(), chars_of("cursor").as_slice()) {
                out.push(EditorKind::Cursor);
            }
            assert(out@ =~= candidates_spec(workspaces_view(ws@), path@, opt_view(editor)));
            out
        },
        None => editors(),
    }
}

} // verus!
