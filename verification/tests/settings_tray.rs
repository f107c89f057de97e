use bangs::i18n::{apply, chinese, code, t, LanguageState};
use bangs::settings::{SettingChange, Settings, SettingsState, Toggle};
use bangs::dev::Agent;
use bangs::tray::{menu_action, menu_model, MenuAction, MenuNode};

#[test]
fn defaults_depend_on_the_platform() {
    let mac = Settings::defaults(false);
    assert!(mac.visible && mac.expand_on_hover && mac.notify_claude_idle);
    assert!(!mac.idle_handle);
    assert!(mac.display.is_none() && mac.language.is_none());
    assert!(Settings::defaults(true).idle_handle);
}

#[test]
fn updates_return_before_and_after() {
    let mut state = SettingsState::new(Settings::defaults(false));
    let (before, after) = state.update(SettingChange::Flip(Toggle::Visible));
    assert!(before.visible);
    assert!(!after.visible);
    assert!(!state.get().visible);
    let (_, after) = state.update(SettingChange::Flip(Toggle::Visible));
    assert!(after.visible);
    let (_, after) = state.update(SettingChange::Display(Some("Studio".into())));
    assert_eq!(after.display.as_deref(), Some("Studio"));
    let (_, after) = state.update(SettingChange::Language(Some("en".into())));
    assert_eq!(after.language.as_deref(), Some("en"));
    assert_eq!(state.get().display.as_deref(), Some("Studio"));
}

#[test]
fn menu_ids_map_to_actions() {
    assert!(matches!(menu_action("quit", "Helper"), MenuAction::Quit));
    assert!(matches!(menu_action("version", "Helper"), MenuAction::Version));
    assert!(matches!(menu_action("autostart", "Helper"), MenuAction::Autostart));
    assert!(matches!(menu_action("hover", "Helper"), MenuAction::Change(SettingChange::Flip(Toggle::Hover))));
    assert!(matches!(
        menu_action("lyrics-translation", "Helper"),
        MenuAction::Change(SettingChange::Flip(Toggle::LyricsTranslation))
    ));
    match menu_action("language:zh", "Helper") {
        MenuAction::Change(SettingChange::Language(Some(l))) => assert_eq!(l, "zh"),
        _ => panic!(),
    }
    assert!(matches!(menu_action("language:", "Helper"), MenuAction::Change(SettingChange::Language(None))));
    match menu_action("language:language:en", "Helper") {
        MenuAction::Change(SettingChange::Language(Some(l))) => assert_eq!(l, "en"),
        _ => panic!(),
    }
    match menu_action("display:display:Studio", "Helper") {
        MenuAction::Change(SettingChange::Display(Some(d))) => assert_eq!(d, "display:Studio"),
        _ => panic!(),
    }
    assert!(matches!(menu_action("display:", "Helper"), MenuAction::Change(SettingChange::Display(None))));
    assert!(matches!(menu_action("nonsense", "Helper"), MenuAction::Ignore));
}

fn entry_ids(nodes: &[MenuNode]) -> Vec<String> {
    nodes
        .iter()
        .map(|n| match n {
            MenuNode::Entry(e) => e.id.clone(),
            MenuNode::Separator => "-".into(),
            MenuNode::Submenu(id, _, _) => format!("[{id}]"),
        })
        .collect()
}

#[test]
fn the_menu_shows_the_settings() {
    let mut settings = Settings::defaults(false);
    settings.display = Some("Studio".into());
    settings.lyrics_enabled = false;
    let mut language = LanguageState::new();
    apply(&mut language, Some("en"), "zh-CN");
    let nodes = menu_model(&settings, true, &vec!["Built-in".into(), "Studio".into()], &language, "v1".into(), false, "Helper");
    assert_eq!(
        entry_ids(&nodes),
        vec![
            "visible", "hover", "idle-handle", "lyrics", "lyrics-translation", "notify-helper",
            "[display]", "[language]", "-", "autostart", "-", "version", "quit"
        ]
    );
    match &nodes[0] {
        MenuNode::Entry(e) => {
            assert_eq!(e.label, "Show the notch");
            assert_eq!(e.checked, Some(true));
        }
        _ => panic!(),
    }
    match &nodes[4] {
        MenuNode::Entry(e) => assert!(!e.enabled),
        _ => panic!(),
    }
    match &nodes[5] {
        MenuNode::Entry(e) => assert_eq!(e.label, "Alert when Helper finishes"),
        _ => panic!(),
    }
    match &nodes[6] {
        MenuNode::Submenu(_, label, items) => {
            assert_eq!(label, "Display");
            let ids: Vec<&str> = items.iter().map(|e| e.id.as_str()).collect();
            assert_eq!(ids, vec!["display:", "display:Built-in", "display:Studio"]);
            assert_eq!(items[0].checked, Some(false));
            assert_eq!(items[2].checked, Some(true));
        }
        _ => panic!(),
    }
    match &nodes[7] {
        MenuNode::Submenu(_, _, items) => {
            assert_eq!(items[0].checked, Some(true));
            assert_eq!(items[1].label, "中文");
        }
        _ => panic!(),
    }
    let windows = menu_model(&settings, false, &Vec::new(), &LanguageState::new(), "v".into(), true, "Helper");
    assert_eq!(entry_ids(&windows)[3], "clipboard-history");
    match &windows[0] {
        MenuNode::Entry(e) => assert_eq!(e.label, "显示刘海"),
        _ => panic!(),
    }
    match &windows[6] {
        MenuNode::Entry(e) => assert_eq!(e.label, "Helper 忙完时提醒"),
        _ => panic!(),
    }
}

#[test]
fn the_language_follows_the_preference_or_the_system() {
    let mut state = LanguageState::new();
    assert!(chinese(&state));
    apply(&mut state, Some("en"), "zh-Hans");
    assert_eq!(code(&state), "en");
    assert_eq!(t(&state, "退出", "Quit"), "Quit");
    apply(&mut state, None, "ZH-TW");
    assert_eq!(code(&state), "zh");
    apply(&mut state, Some("fr"), "en-US");
    assert!(!chinese(&state));
    apply(&mut state, Some("zh"), "en-US");
    assert!(chinese(&state));
}

#[test]
fn the_alert_switch_is_named_after_the_agent() {
    let agent = format!("{:?}", Agent::Claude);
    let id = format!("notify-{}", agent.to_ascii_lowercase());
    assert!(matches!(
        menu_action(&id, &agent),
        MenuAction::Change(SettingChange::Flip(Toggle::NotifyClaude))
    ));
    let nodes = menu_model(&Settings::defaults(false), false, &Vec::new(), &LanguageState::new(), "v".into(), false, &agent);
    assert!(entry_ids(&nodes).contains(&id));
    assert!(matches!(menu_action("notify-helper", "Helper"), MenuAction::Change(SettingChange::Flip(Toggle::NotifyClaude))));
    assert!(matches!(menu_action("notify-helper", &agent), MenuAction::Ignore));
}
