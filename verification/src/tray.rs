//! The tray menu: what it holds for the current settings, and what a click
//! on one of its entries does.

use vstd::prelude::*;

use crate::i18n::{chinese, LanguageState};
use crate::settings::{ChangeModel, SettingChange, Settings, SettingsModel, Toggle};
use crate::text::{
    ascii_lower, ascii_lower_exec, chars_eq, chars_of, concat, opt_view, owned, starts_with,
    starts_with_exec, string_of, strip_prefixes, strip_prefixes_exec,
};

verus! {

pub open spec fn language_prefix() -> Seq<char> {
    "language:"@
}

pub open spec fn display_prefix() -> Seq<char> {
    "display:"@
}

// ---------------------------------------------------------------------------
// Clicks.

/// What a click on a menu entry asks for.
pub enum MenuAction {
    Quit,
    /// Open the releases page and check again.
    Version,
    Change(SettingChange),
    Autostart,
    /// Not an entry of this menu: nothing happens, not even a rebuild.
    Ignore,
}

pub enum ActionModel {
    Quit,
    Version,
    Change(ChangeModel),
    Autostart,
    Ignore,
}

pub open spec fn action_view(a: MenuAction) -> ActionModel {
    match a {
        MenuAction::Quit => ActionModel::Quit,
        MenuAction::Version => ActionModel::Version,
        MenuAction::Change(c) => ActionModel::Change(crate::settings::change_view(c)),
        MenuAction::Autostart => ActionModel::Autostart,
        MenuAction::Ignore => ActionModel::Ignore,
    }
}

/// The id of the alert switch: `notify-` and the name of the coding agent
/// whose sessions it watches, in ASCII lower case.
pub open spec fn notify_id(agent: Seq<char>) -> Seq<char> {
    "notify-"@ + ascii_lower(agent)
}

pub open spec fn toggle_for(id: Seq<char>, agent: Seq<char>) -> Option<Toggle> {
    if id == "visible"@ {
        Some(Toggle::Visible)
    } else if id == "hover"@ {
        Some(Toggle::Hover)
    } else if id == "clipboard-history"@ {
        Some(Toggle::ClipboardHistory)
    } else if id == "lyrics"@ {
        Some(Toggle::Lyrics)
    } else if id == "lyrics-translation"@ {
        Some(Toggle::LyricsTranslation)
    } else if id == notify_id(agent) {
        Some(Toggle::NotifyClaude)
    } else if id == "idle-handle"@ {
        Some(Toggle::IdleHandle)
    } else {
        None
    }
}

/// An empty choice means "follow".
pub open spec fn choice(c: Seq<char>) -> Option<Seq<char>> {
    if c.len() > 0 {
        Some(c)
    } else {
        None
    }
}

/// The action of a menu entry id, in a menu whose alert switch is about
/// `agent`. A language entry names the language after every leading
/// `language:`; a display entry names the monitor after one `display:`.
pub open spec fn menu_action_spec(id: Seq<char>, agent: Seq<char>) -> ActionModel {
    if id == "quit"@ {
        ActionModel::Quit
    } else if id == "version"@ {
        ActionModel::Version
    } else if toggle_for(id, agent) is Some {
        ActionModel::Change(ChangeModel::Flip(toggle_for(id, agent)->0))
    } else if id == "autostart"@ {
        ActionModel::Autostart
    } else if starts_with(id, language_prefix()) {
        ActionModel::Change(ChangeModel::Language(choice(strip_prefixes(id, language_prefix()))))
    } else if starts_with(id, display_prefix()) {
        ActionModel::Change(
            ChangeModel::Display(choice(id.subrange(display_prefix().len() as int, id.len() as int))),
        )
    } else {
        ActionModel::Ignore
    }
}

fn is(id: &[char], word: &str) -> (r: bool)
    ensures
        r == (id@ == word@),
{
    chars_eq(id, chars_of(word).as_slice())
}

fn notify_id_exec(agent: &str) -> (r: Vec<char>)
    ensures
        r@ == notify_id(agent@),
{
    concat(chars_of("notify-").as_slice(), ascii_lower_exec(chars_of(agent).as_slice()).as_slice())
}

fn choice_exec(c: Vec<char>) -> (r: Option<String>)
    ensures
        opt_view(r) == choice(c@),
{
    if c.len() > 0 {
        Some(string_of(c.as_slice()))
    } else {
        None
    }
}

/// What a click on the entry `id` asks for, in a menu whose alert switch is
/// about `agent`.
pub fn menu_action(id: &str, agent: &str) -> (r: MenuAction)
    ensures
        action_view(r) == menu_action_spec(id@, agent@),
{
    let c = chars_of(id);
    let s = c.as_slice();
    let notify = notify_id_exec(agent);
    if is(s, "quit") {
        MenuAction::Quit
    } else if is(s, "version") {
        MenuAction::Version
    } else if is(s, "visible") {
        MenuAction::Change(SettingChange::Flip(Toggle::Visible))
    } else if is(s, "hover") {
        MenuAction::Change(SettingChange::Flip(Toggle::Hover))
    } else if is(s, "clipboard-history") {
        MenuAction::Change(SettingChange::Flip(Toggle::ClipboardHistory))
    } else if is(s, "lyrics") {
        MenuAction::Change(SettingChange::Flip(Toggle::Lyrics))
    } else if is(s, "lyrics-translation") {
        MenuAction::Change(SettingChange::Flip(Toggle::LyricsTranslation))
    } else if chars_eq(s, notify.as_slice()) {
        MenuAction::Change(SettingChange::Flip(Toggle::NotifyClaude))
    } else if is(s, "idle-handle") {
        MenuAction::Change(SettingChange::Flip(Toggle::IdleHandle))
    } else if is(s, "autostart") {
        MenuAction::Autostart
    } else {
        let language = chars_of("language:");
        let display = chars_of("display:");
        if starts_with_exec(s, language.as_slice()) {
            let rest = strip_prefixes_exec(s, language.as_slice());
            MenuAction::Change(SettingChange::Language(choice_exec(rest)))
        } else if starts_with_exec(s, display.as_slice()) {
            let rest = vstd::slice::slice_to_vec(&s[display.len()..s.len()]);
            MenuAction::Change(SettingChange::Display(choice_exec(rest)))
        } else {
            MenuAction::Ignore
        }
    }
}

// ---------------------------------------------------------------------------
// The menu.

/// One clickable entry: a check entry when `checked` is `Some`.
pub struct MenuEntry {
    pub id: String,
    pub label: String,
    pub enabled: bool,
    pub checked: Option<bool>,
}

pub struct EntryModel {
    pub id: Seq<char>,
    pub label: Seq<char>,
    pub enabled: bool,
    pub checked: Option<bool>,
}

impl View for MenuEntry {
    type V = EntryModel;

    open spec fn view(&self) -> EntryModel {
        EntryModel { id: self.id@, label: self.label@, enabled: self.enabled, checked: self.checked }
    }
}

pub open spec fn entries_view(v: Seq<MenuEntry>) -> Seq<EntryModel> {
    v.map_values(|e: MenuEntry| e@)
}

pub enum MenuNode {
    Entry(MenuEntry),
    Separator,
    /// A submenu: its id, its label and its entries.
    Submenu(String, String, Vec<MenuEntry>),
}

pub enum NodeModel {
    Entry(EntryModel),
    Separator,
    Submenu(Seq<char>, Seq<char>, Seq<EntryModel>),
}

pub open spec fn node_view(n: MenuNode) -> NodeModel {
    match n {
        MenuNode::Entry(e) => NodeModel::Entry(e@),
        MenuNode::Separator => NodeModel::Separator,
        MenuNode::Submenu(id, label, items) => NodeModel::Submenu(id@, label@, entries_view(items@)),
    }
}

pub open spec fn nodes_view(v: Seq<MenuNode>) -> Seq<NodeModel> {
    v.map_values(|n: MenuNode| node_view(n))
}

pub open spec fn tr(zh: bool, chinese: Seq<char>, english: Seq<char>) -> Seq<char> {
    if zh {
        chinese
    } else {
        english
    }
}

pub open spec fn check(id: Seq<char>, label: Seq<char>, enabled: bool, on: bool) -> EntryModel {
    EntryModel { id, label, enabled, checked: Some(on) }
}

/// The display entries: follow the main display, then each monitor.
pub open spec fn display_entries(s: SettingsModel, monitors: Seq<Seq<char>>, zh: bool) -> Seq<
    EntryModel,
> {
    seq![
        check(
            display_prefix(),
            tr(zh, "跟随主显示器"@, "Follow the main display"@),
            true,
            s.display is None,
        ),
    ] + monitors.map_values(|m: Seq<char>| monitor_entry(s, m))
}

pub open spec fn monitor_entry(s: SettingsModel, m: Seq<char>) -> EntryModel {
    check(display_prefix() + m, m, true, s.display == Some(m))
}

pub open spec fn chosen_language(s: SettingsModel) -> Seq<char> {
    match s.language {
        Some(l) => l,
        None => Seq::empty(),
    }
}

pub open spec fn language_entries(s: SettingsModel, zh: bool) -> Seq<EntryModel> {
    seq![
        check(
            language_prefix(),
            tr(zh, "跟随系统"@, "Follow the system"@),
            true,
            chosen_language(s) == Seq::<char>::empty(),
        ),
        check(language_prefix() + "zh"@, "中文"@, true, chosen_language(s) == "zh"@),
        check(language_prefix() + "en"@, "English"@, true, chosen_language(s) == "en"@),
    ]
}

/// The whole menu. The clipboard switch exists on Windows only; the
/// translation switch is live only while lyrics are on; the alert switch
/// names the coding agent whose sessions it watches.
pub open spec fn menu_spec(
    s: SettingsModel,
    autostart: bool,
    monitors: Seq<Seq<char>>,
    zh: bool,
    version_label: Seq<char>,
    on_windows: bool,
    agent: Seq<char>,
) -> Seq<NodeModel> {
    let head = seq![
        NodeModel::Entry(check("visible"@, tr(zh, "显示刘海"@, "Show the notch"@), true, s.visible)),
        NodeModel::Entry(
            check("hover"@, tr(zh, "悬停时展开"@, "Expand on hover"@), true, s.expand_on_hover),
        ),
        NodeModel::Entry(
            check(
                "idle-handle"@,
                tr(zh, "空闲时收成细条"@, "Shrink to a bar when idle"@),
                true,
                s.idle_handle,
            ),
        ),
    ];
    let clip = if on_windows {
        seq![
            NodeModel::Entry(
                check(
                    "clipboard-history"@,
                    tr(zh, "记录剪贴板"@, "Record the clipboard"@),
                    true,
                    s.clipboard_history,
                ),
            ),
        ]
    } else {
        Seq::empty()
    };
    let tail = seq![
        NodeModel::Entry(check("lyrics"@, tr(zh, "显示歌词"@, "Show lyrics"@), true, s.lyrics_enabled)),
        NodeModel::Entry(
            check(
                "lyrics-translation"@,
                tr(zh, "显示歌词翻译"@, "Show lyric translations"@),
                s.lyrics_enabled,
                s.lyrics_translation_enabled,
            ),
        ),
        NodeModel::Entry(
            check(
                notify_id(agent),
                tr(zh, agent + " 忙完时提醒"@, "Alert when "@ + agent + " finishes"@),
                true,
                s.notify_claude_idle,
            ),
        ),
        NodeModel::Submenu("display"@, tr(zh, "显示器"@, "Display"@), display_entries(s, monitors, zh)),
        NodeModel::Submenu("language"@, tr(zh, "语言"@, "Language"@), language_entries(s, zh)),
        NodeModel::Separator,
        NodeModel::Entry(check("autostart"@, tr(zh, "开机启动"@, "Launch at login"@), true, autostart)),
        NodeModel::Separator,
        NodeModel::Entry(EntryModel { id: "version"@, label: version_label, enabled: true, checked: None }),
        NodeModel::Entry(EntryModel { id: "quit"@, label: tr(zh, "退出"@, "Quit"@), enabled: true, checked: None }),
    ];
    head + clip + tail
}

fn tr_exec(zh: bool, chinese: &str, english: &str) -> (r: String)
    ensures
        r@ == tr(zh, chinese@, english@),
{
    if zh {
        owned(chinese)
    } else {
        owned(english)
    }
}

fn agent_label(zh: bool, agent: &str) -> (r: String)
    ensures
        r@ == tr(zh, agent@ + " 忙完时提醒"@, "Alert when "@ + agent@ + " finishes"@),
{
    if zh {
        string_of(concat(chars_of(agent).as_slice(), chars_of(" 忙完时提醒").as_slice()).as_slice())
    } else {
        let head = concat(chars_of("Alert when ").as_slice(), chars_of(agent).as_slice());
        string_of(concat(head.as_slice(), chars_of(" finishes").as_slice()).as_slice())
    }
}

fn check_entry(id: &str, label: String, enabled: bool, on: bool) -> (r: MenuEntry)
    ensures
        r@ == check(id@, label@, enabled, on),
{
    MenuEntry { id: owned(id), label, enabled, checked: Some(on) }
}

fn check_entry_id(id: String, label: String, enabled: bool, on: bool) -> (r: MenuEntry)
    ensures
        r@ == check(id@, label@, enabled, on),
{
    MenuEntry { id, label, enabled, checked: Some(on) }
}

fn same_opt(a: &Option<String>, b: &String) -> (r: bool)
    ensures
        r == (opt_view(*a) == Some(b@)),
{
    match a {
        Some(x) => chars_eq(chars_of(x.as_str()).as_slice(), chars_of(b.as_str()).as_slice()),
        None => false,
    }
}

fn display_menu(s: &Settings, monitors: &Vec<String>, zh: bool) -> (r: Vec<MenuEntry>)
    ensures
        entries_view(r@) == display_entries(s@, monitors@.map_values(|m: String| m@), zh),
{
    let ghost mv = monitors@.map_values(|m: String| m@);
    let mut out: Vec<MenuEntry> = Vec::new();
    out.push(
        check_entry(
            "display:",
            tr_exec(zh, "跟随主显示器", "Follow the main display"),
            true,
            s.display.is_none(),
        ),
    );
    let mut i: usize = 0;
    while i < monitors.len()
        invariant
            i <= monitors@.len(),
            mv == monitors@.map_values(|m: String| m@),
            out@.len() == i + 1,
            entries_view(out@) == display_entries(s@, mv.take(i as int), zh),
        decreases monitors.len() - i,
    {
        let m = &monitors[i];
        let id = string_of(concat(chars_of("display:").as_slice(), chars_of(m.as_str()).as_slice()).as_slice());
        let on = same_opt(&s.display, m);
        let ghost before = entries_view(out@);
        let entry = MenuEntry { id, label: m.clone(), enabled: true, checked: Some(on) };
        proof {
            reveal_strlit("display:");
            assert(m@ == mv[i as int]);
            assert(entry@ == monitor_entry(s@, mv[i as int]));
        }
        out.push(entry);
        i = i + 1;
        proof {
            let f = |m: Seq<char>| monitor_entry(s@, m);
            assert(mv.take(i as int) =~= mv.take(i - 1).push(mv[i - 1]));
            assert(mv.take(i as int).map_values(f) =~= mv.take(i - 1).map_values(f).push(f(mv[i - 1])));
            assert(entries_view(out@) =~= before.push(monitor_entry(s@, mv[i - 1])));
        }
        assert(entries_view(out@) =~= display_entries(s@, mv.take(i as int), zh));
    }
    assert(mv.take(i as int) =~= mv);
    out
}

fn language_menu(s: &Settings, zh: bool) -> (r: Vec<MenuEntry>)
    ensures
        entries_view(r@) == language_entries(s@, zh),
{
    let chosen: Vec<char> = match &s.language {
        Some(l) => chars_of(l.as_str()),
        None => Vec::new(),
    };
    let mut out: Vec<MenuEntry> = Vec::new();
    out.push(
        check_entry(
            "language:",
            tr_exec(zh, "跟随系统", "Follow the system"),
            true,
            chosen.len() == 0,
        ),
    );
    out.push(check_entry("language:zh", owned("中文"), true, is(chosen.as_slice(), "zh")));
    out.push(check_entry("language:en", owned("English"), true, is(chosen.as_slice(), "en")));
    proof {
        reveal_strlit("language:");
        reveal_strlit("language:zh");
        reveal_strlit("language:en");
        reveal_strlit("zh");
        reveal_strlit("en");
        assert(chosen@ == chosen_language(s@));
        assert(chosen@.len() == 0 ==> chosen@ =~= Seq::<char>::empty());
        assert("language:zh"@ =~= language_prefix() + "zh"@);
        assert("language:en"@ =~= language_prefix() + "en"@);
    }
    assert(entries_view(out@) =~= language_entries(s@, zh));
    out
}

/// Lays out the tray menu for these settings, whether launching at login
/// is on, the labels of the connected monitors, the language, the version
/// entry's text, whether this is Windows and the name of the coding agent
/// the alerts are about.
pub fn menu_model(
    s: &Settings,
    autostart: bool,
    monitors: &Vec<String>,
    language: &LanguageState,
    version_label: String,
    on_windows: bool,
    agent: &str,
) -> (r: Vec<MenuNode>)
    ensures
        nodes_view(r@) == menu_spec(
            s@,
            autostart,
            monitors@.map_values(|m: String| m@),
            language.is_chinese(),
            version_label@,
            on_windows,
            agent@,
        ),
{
    let zh = chinese(language);
    let mut out: Vec<MenuNode> = Vec::new();
    out.push(MenuNode::Entry(check_entry("visible", tr_exec(zh, "显示刘海", "Show the notch"), true, s.visible)));
    out.push(
        MenuNode::Entry(check_entry("hover", tr_exec(zh, "悬停时展开", "Expand on hover"), true, s.expand_on_hover)),
    );
    out.push(
        MenuNode::Entry(
            check_entry(
                "idle-handle",
                tr_exec(zh, "空闲时收成细条", "Shrink to a bar when idle"),
                true,
                s.idle_handle,
            ),
        ),
    );
    if on_windows {
        out.push(
            MenuNode::Entry(
                check_entry(
                    "clipboard-history",
                    tr_exec(zh, "记录剪贴板", "Record the clipboard"),
                    true,
                    s.clipboard_history,
                ),
            ),
        );
    }
    out.push(
        MenuNode::Entry(check_entry("lyrics", tr_exec(zh, "显示歌词", "Show lyrics"), true, s.lyrics_enabled)),
    );
    out.push(
        MenuNode::Entry(
            check_entry(
                "lyrics-translation",
                tr_exec(zh, "显示歌词翻译", "Show lyric translations"),
                s.lyrics_enabled,
                s.lyrics_translation_enabled,
            ),
        ),
    );
    out.push(
        MenuNode::Entry(
            check_entry_id(
                string_of(notify_id_exec(agent).as_slice()),
                agent_label(zh, agent),
                true,
                s.notify_claude_idle,
            ),
        ),
    );
    out.push(MenuNode::Submenu(owned("display"), tr_exec(zh, "显示器", "Display"), display_menu(s, monitors, zh)));
    out.push(MenuNode::Submenu(owned("language"), tr_exec(zh, "语言", "Language"), language_menu(s, zh)));
    out.push(MenuNode::Separator);
    out.push(MenuNode::Entry(check_entry("autostart", tr_exec(zh, "开机启动", "Launch at login"), true, autostart)));
    out.push(MenuNode::Separator);
    out.push(MenuNode::Entry(MenuEntry { id: owned("version"), label: version_label, enabled: true, checked: None }));
    out.push(
        MenuNode::Entry(MenuEntry { id: owned("quit"), label: tr_exec(zh, "退出", "Quit"), enabled: true, checked: None }),
    );
    assert(nodes_view(out@) =~= menu_spec(
        s@,
        autostart,
        monitors@.map_values(|m: String| m@),
        zh,
        version_label@,
        on_windows,
        agent@,
    ));
    out
}

/// The id of a switch's entry.
pub open spec fn toggle_id(t: Toggle, agent: Seq<char>) -> Seq<char> {
    match t {
        Toggle::Visible => "visible"@,
        Toggle::Hover => "hover"@,
        Toggle::ClipboardHistory => "clipboard-history"@,
        Toggle::Lyrics => "lyrics"@,
        Toggle::LyricsTranslation => "lyrics-translation"@,
        Toggle::NotifyClaude => notify_id(agent),
        Toggle::IdleHandle => "idle-handle"@,
    }
}

/// Whether a switch is on.
pub open spec fn shown(s: SettingsModel, t: Toggle) -> bool {
    match t {
        Toggle::Visible => s.visible,
        Toggle::Hover => s.expand_on_hover,
        Toggle::ClipboardHistory => s.clipboard_history,
        Toggle::Lyrics => s.lyrics_enabled,
        Toggle::LyricsTranslation => s.lyrics_translation_enabled,
        Toggle::NotifyClaude => s.notify_claude_idle,
        Toggle::IdleHandle => s.idle_handle,
    }
}

/// The menu and its handler agree: a click on a switch flips exactly the
/// setting the switch shows; the language entries pin the language they
/// name (the first follows the system); a display entry attaches to the
/// monitor it names (the first follows the primary one).
pub proof fn lemma_menu_entries_act(s: SettingsModel, t: Toggle, m: Seq<char>, agent: Seq<char>)
    ensures
        menu_action_spec(toggle_id(t, agent), agent) == ActionModel::Change(ChangeModel::Flip(t)),
        shown(crate::settings::flipped(s, t), t) == !shown(s, t),
        forall|u: Toggle| u != t ==> shown(#[trigger] crate::settings::flipped(s, t), u) == shown(s, u),
        menu_action_spec(language_prefix(), agent) == ActionModel::Change(ChangeModel::Language(None)),
        menu_action_spec(language_prefix() + "zh"@, agent) == ActionModel::Change(
            ChangeModel::Language(Some("zh"@)),
        ),
        menu_action_spec(language_prefix() + "en"@, agent) == ActionModel::Change(
            ChangeModel::Language(Some("en"@)),
        ),
        menu_action_spec(display_prefix() + m, agent) == ActionModel::Change(
            ChangeModel::Display(choice(m)),
        ),
{
    reveal_strlit("quit");
    reveal_strlit("version");
    reveal_strlit("visible");
    reveal_strlit("hover");
    reveal_strlit("clipboard-history");
    reveal_strlit("lyrics");
    reveal_strlit("lyrics-translation");
    reveal_strlit("notify-");
    reveal_strlit("idle-handle");
    reveal_strlit("autostart");
    reveal_strlit("language:");
    reveal_strlit("display:");
    reveal_strlit("zh");
    reveal_strlit("en");
    let ids = seq![
        "quit"@,
        "version"@,
        "visible"@,
        "hover"@,
        "clipboard-history"@,
        "lyrics"@,
        "lyrics-translation"@,
        notify_id(agent),
        "idle-handle"@,
        "autostart"@,
    ];
    assert(forall|a: int, b: int|
        0 <= a < b < ids.len() ==> #[trigger] ids[a] != #[trigger] ids[b]) by {
        assert("quit"@[0] == 'q' && "version"@[0] == 'v' && "visible"@[1] == 'i');
        assert("hover"@[0] == 'h' && "clipboard-history"@[0] == 'c' && "lyrics"@.len() == 6);
        assert("lyrics-translation"@.len() == 18 && notify_id(agent)[0] == 'n');
        assert("idle-handle"@[0] == 'i' && "autostart"@[0] == 'a');
        assert("visible"@.len() == 7 && "version"@.len() == 7 && "idle-handle"@.len() == 11);
    }
    let l = language_prefix();
    let d = display_prefix();
    assert(l[0] == 'l' && l.len() == 9 && l[1] == 'a');
    assert(d[0] == 'd' && d.len() == 8);
    let lz = l + "zh"@;
    let le = l + "en"@;
    let dm = d + m;
    assert(lz[0] == 'l' && le[0] == 'l' && dm[0] == 'd');
    assert(lz.len() == 11 && le.len() == 11);
    assert(lz[1] == 'a' && le[1] == 'a');
    assert(starts_with(l, l)) by {
        assert(l.subrange(0, l.len() as int) =~= l);
    }
    assert(starts_with(lz, l)) by {
        assert(lz.subrange(0, l.len() as int) =~= l);
    }
    assert(starts_with(le, l)) by {
        assert(le.subrange(0, l.len() as int) =~= l);
    }
    assert(starts_with(dm, d)) by {
        assert(dm.subrange(0, d.len() as int) =~= d);
    }
    assert(!starts_with(dm, l)) by {
        if dm.len() >= l.len() {
            assert(dm.subrange(0, l.len() as int)[0] == 'd');
        }
    }
    assert(strip_prefixes(l, l) == Seq::<char>::empty()) by {
        reveal_with_fuel(strip_prefixes, 2);
        assert(l.subrange(l.len() as int, l.len() as int) =~= Seq::<char>::empty());
        assert(!starts_with(Seq::<char>::empty(), l));
    }
    assert(strip_prefixes(lz, l) == "zh"@) by {
        reveal_with_fuel(strip_prefixes, 2);
        assert(lz.subrange(l.len() as int, lz.len() as int) =~= "zh"@);
        assert(!starts_with("zh"@, l));
    }
    assert(strip_prefixes(le, l) == "en"@) by {
        reveal_with_fuel(strip_prefixes, 2);
        assert(le.subrange(l.len() as int, le.len() as int) =~= "en"@);
        assert(!starts_with("en"@, l));
    }
    assert(dm.subrange(d.len() as int, dm.len() as int) =~= m);
    assert(choice("zh"@) == Some("zh"@));
    assert(choice("en"@) == Some("en"@));
}

} // verus!
