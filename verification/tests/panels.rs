use base64::Engine;
use bangs::clipboard::mac::{clip_kind, copy_text, paste_item, preview_of as paste_preview, IconTable, PasteRow};
use bangs::clipboard::win::{
    app_name, capture, files_text, preview_of as text_preview, record, state_of, text_of, StoredClip,
};
use bangs::clipboard::{collapse, missing_message, ClipKind, ClipSource, ClipboardHub, ClipboardState, Missing};
use bangs::data_url::data_url;
use bangs::i18n::{apply, LanguageState};
use bangs::media::{artwork_url, spotify_fields, spotify_no_answer, spotify_not_running, ArtworkCache, BridgeMessage};
use bangs::numbers::{greater, total_key};
use bangs::paste::{paste_copy, paste_show, PasteHub};
use bangs::shelf::{file_meta, is_image_extension};
use bangs::todos::{next_id, TodoHub, MAX_TODOS};

#[test]
fn todos_are_trimmed_and_newest_first() {
    let mut hub = TodoHub::new(Vec::new());
    assert!(!hub.add("   \n ", 1));
    assert!(hub.add("  buy\nmilk  ", 0x1f));
    assert!(hub.add("call", 0x1f));
    let list = hub.current();
    assert_eq!(list[0].text, "call");
    assert_eq!(list[0].id, "1f-1");
    assert_eq!(list[1].text, "buy milk");
    assert_eq!(list[1].id, "1f-0");
    assert!(hub.remove("1f-0"));
    assert!(!hub.remove("1f-0"));
    assert_eq!(hub.current().len(), 1);
    assert_eq!(next_id(255, 16), "ff-10");
}

#[test]
fn the_todo_list_stays_short() {
    let mut hub = TodoHub::new(Vec::new());
    for i in 0..(MAX_TODOS as u64 + 5) {
        hub.add("x", i);
    }
    let list = hub.current();
    assert_eq!(list.len(), MAX_TODOS);
    assert_eq!(list[0].created_at, MAX_TODOS as u64 + 4);
    let long: String = std::iter::repeat('a').take(300).collect();
    hub.add(&long, 1000);
    assert_eq!(hub.current()[0].text.len(), 200);
}

#[test]
fn paste_is_a_macos_feature() {
    let state = PasteHub.current();
    assert!(!state.available);
    assert!(state.items.is_empty());
    assert_eq!(paste_copy(3).unwrap_err(), "Paste is only available on macOS");
    assert_eq!(paste_show().unwrap_err(), "Paste is only available on macOS");
}

#[test]
fn previews_collapse_white_space() {
    let c: String = collapse(&"  a \n\t b  c ".chars().collect::<Vec<_>>()).into_iter().collect();
    assert_eq!(c, "a b c");
    assert_eq!(text_preview(&"x".repeat(300)).len(), 180);
    assert_eq!(paste_preview(&Some("  hi  there ".into()), ClipKind::Text), "hi there");
    assert_eq!(paste_preview(&None, ClipKind::Image), "图片");
    assert_eq!(paste_preview(&Some("   ".into()), ClipKind::Files), "文件");
    assert_eq!(paste_preview(&None, ClipKind::Text), "空白内容");
    assert_eq!(clip_kind(1), ClipKind::Image);
    assert_eq!(clip_kind(2), ClipKind::Files);
    assert_eq!(clip_kind(7), ClipKind::Text);
}

#[test]
fn paste_rows_become_items_with_icons() {
    let mut icons = IconTable::new();
    icons.add("com.a".into(), &[1, 2, 3]);
    icons.add("com.a".into(), &[4]);
    let item = paste_item(
        PasteRow { pk: 9, kind_code: 0, pinned: 1, created_at: 7, app: Some("com.a".into()), text: Some("t".into()) },
        &icons,
    );
    assert_eq!(item.id, 9);
    assert!(item.pinned);
    assert_eq!(item.icon.as_deref(), Some("data:image/png;base64,BA=="));
    assert_eq!(icons.get("com.b"), None);
}

fn stored(id: i64, text: &str) -> StoredClip {
    capture(id, ClipKind::Text, text.into(), None, 0).unwrap()
}

#[test]
fn the_history_skips_repeats_and_stays_short() {
    let mut history = Vec::new();
    assert!(record(&mut history, stored(1, "a")));
    assert!(!record(&mut history, stored(2, "a")));
    assert!(record(&mut history, stored(3, "b")));
    assert_eq!(history.len(), 2);
    for i in 0..250 {
        record(&mut history, stored(10 + i, &i.to_string()));
    }
    assert_eq!(history.len(), 200);
    let state = state_of(&history, 24);
    assert_eq!(state.items.len(), 24);
    assert_eq!(state.source, ClipSource::Builtin);
    assert_eq!(text_of(&history, 259).unwrap(), "249");
    assert_eq!(text_of(&history, 1).unwrap_err(), "这条记录已经不在了");
    assert!(capture(1, ClipKind::Text, "   ".into(), None, 0).is_none());
    assert!(capture(1, ClipKind::Text, "x".repeat(262145), None, 0).is_none());
    assert_eq!(files_text(&vec!["/a".into(), "/b".into()]), "/a\n/b");
    assert_eq!(app_name("Code.exe"), "Code");
    assert_eq!(app_name("x.exe.exe"), "x");
    assert_eq!(app_name("notepad"), "notepad");
}

#[test]
fn scrolling_asks_for_pages_up_to_a_limit() {
    let mut hub = ClipboardHub::new(true);
    assert_eq!(hub.limit(), 24);
    assert!(!hub.more());
    let full = ClipboardState {
        available: true,
        source: ClipSource::Paste,
        items: (0..24).map(|i| bangs::clipboard::ClipItem {
            id: i, kind: ClipKind::Text, preview: String::new(), app: None, icon: None, pinned: false, created_at: 0,
        }).collect(),
    };
    assert!(hub.publish(full));
    assert!(hub.more());
    assert_eq!(hub.limit(), 48);
    let initial = ClipboardState::initial(false);
    assert_eq!(initial.source, ClipSource::Builtin);
    assert!(!initial.available);
}

#[test]
fn other_platforms_say_what_is_missing() {
    let mut en = LanguageState::new();
    apply(&mut en, Some("en"), "");
    assert_eq!(missing_message(&en, Missing::Install), "Nothing to install");
    assert_eq!(missing_message(&LanguageState::new(), Missing::History), "剪贴板在这个平台上不可用");
    assert_eq!(spotify_not_running(&en), "Spotify is not running");
    assert_eq!(spotify_no_answer(&LanguageState::new()), "Spotify 没有响应");
}

#[test]
fn shelf_files_are_described() {
    let meta = file_meta("/Users/me/Photo.JPG".into(), true, false, 10, false);
    assert_eq!(meta.name, "Photo.JPG");
    assert_eq!(meta.extension, "jpg");
    assert!(meta.is_image);
    let dir = file_meta("/Users/me/pics.png".into(), false, true, 0, false);
    assert!(!dir.is_image);
    assert!(dir.is_dir);
    let hidden = file_meta("/Users/me/.bashrc".into(), true, false, 1, false);
    assert_eq!(hidden.extension, "");
    let root = file_meta("/".into(), false, true, 0, false);
    assert_eq!(root.name, "/");
    assert!(is_image_extension("svg"));
    assert!(!is_image_extension("pdf"));
    let windows = file_meta("C:\\Users\\me\\Photo.HEIC".into(), true, false, 5, true);
    assert_eq!(windows.name, "Photo.HEIC");
    assert_eq!(windows.extension, "heic");
    assert!(windows.is_image);
}

fn message(available: bool, artwork: Option<&str>, has_artwork: bool) -> BridgeMessage {
    BridgeMessage {
        available,
        title: "Song".into(),
        artist: "A".into(),
        album: "B".into(),
        app_name: "Music".into(),
        source_id: "com.apple.Music".into(),
        playing: true,
        duration: Some(0.0f64.to_bits()),
        elapsed: Some(3.5f64.to_bits()),
        timestamp: 1.0f64.to_bits(),
        has_artwork,
        artwork: artwork.map(String::from),
    }
}

#[test]
fn bridge_messages_keep_the_artwork_between_lines() {
    let mut art = None;
    let s = message(true, Some("data:x"), true).into_state(&mut art).unwrap();
    assert_eq!(s.artwork.as_deref(), Some("data:x"));
    assert_eq!(s.duration, None);
    let s = message(true, None, true).into_state(&mut art).unwrap();
    assert_eq!(s.artwork.as_deref(), Some("data:x"));
    let s = message(true, None, false).into_state(&mut art).unwrap();
    assert_eq!(s.artwork, None);
    art = Some("old".into());
    assert!(message(false, None, true).into_state(&mut art).is_none());
    assert_eq!(art, None);
    let mut m = message(true, None, false);
    m.duration = Some(200.5f64.to_bits());
    assert_eq!(m.into_state(&mut art).unwrap().duration, Some(200.5f64.to_bits()));
}

#[test]
fn spotify_answers_are_split_into_fields() {
    let f = spotify_fields("playing\u{1f}Song\u{1f}Artist\u{1f}Album\u{1f}200000\u{1f}3,5\u{1f}https://art").unwrap();
    assert!(f.playing);
    assert_eq!(f.title, "Song");
    assert_eq!(f.duration.as_deref(), Some("200000"));
    assert_eq!(f.position.as_deref(), Some("3,5"));
    assert_eq!(f.artwork_url, "https://art");
    let short = spotify_fields("paused\u{1f}Song").unwrap();
    assert!(!short.playing);
    assert_eq!(short.artist, "");
    assert_eq!(short.duration, None);
    assert!(spotify_fields("stopped").is_none());
    assert!(spotify_fields("playing\u{1f}").is_none());
}

#[test]
fn artwork_becomes_a_data_url() {
    assert_eq!(artwork_url(&[]), None);
    assert_eq!(artwork_url(&[0x89, b'P', b'N']).as_deref(), Some("data:image/png;base64,iVBO"));
    assert_eq!(artwork_url(&[0xff, 0xd8]).as_deref(), Some("data:image/jpeg;base64,/9g="));
    assert_eq!(artwork_url(&vec![0u8; 4 * 1024 * 1024 + 1]), None);
    assert_eq!(data_url("text/plain", b"hi"), "data:text/plain;base64,aGk=");
    let mut cache = ArtworkCache::new();
    assert_eq!(cache.get("u"), None);
    cache.put("u".into(), "d".into());
    assert_eq!(cache.get("u").as_deref(), Some("d"));
    assert_eq!(cache.get("v"), None);
}

#[test]
fn doubles_compare_as_doubles() {
    let b = |x: f64| x.to_bits();
    assert!(greater(b(2.0), b(1.0)));
    assert!(!greater(b(1.0), b(2.0)));
    assert!(greater(b(0.5), b(-3.0)));
    assert!(greater(b(-1.0), b(-2.0)));
    assert!(!greater(b(0.0), b(-0.0)));
    assert!(!greater(b(f64::NAN), b(1.0)));
    assert!(greater(b(f64::INFINITY), b(1e300)));
    assert!(total_key(b(-0.0)) < total_key(b(0.0)));
    for (x, y) in [(1.5, 1.25), (-7.0, 3.0), (1e-300, 0.0)] {
        assert_eq!(greater(b(x), b(y)), x > y);
        assert_eq!(total_key(b(x)).cmp(&total_key(b(y))), x.total_cmp(&y));
    }
}

#[test]
fn todo_ids_differ_within_a_millisecond() {
    assert_eq!(next_id(255, 10), "ff-a");
    assert_ne!(next_id(1_700_000_000_000, 0), next_id(1_700_000_000_000, 1));
    let mut hub = TodoHub::new(Vec::new());
    assert!(hub.add("one", 42));
    assert!(hub.add("two", 42));
    let todos = hub.current();
    assert_ne!(todos[0].id, todos[1].id);
}

#[test]
fn data_urls_hold_standard_base64() {
    let samples: [&[u8]; 6] = [b"", b"f", b"fo", b"foo", b"foob", &[0xff, 0xfe, 0x00, 0x3e, 0x3f]];
    for bytes in samples {
        let expected = format!(
            "data:image/png;base64,{}",
            base64::engine::general_purpose::STANDARD.encode(bytes)
        );
        assert_eq!(data_url("image/png", bytes), expected);
    }
    assert_eq!(data_url("x/y", b"foob"), "data:x/y;base64,Zm9vYg==");
}

#[test]
fn only_text_goes_back_on_the_clipboard() {
    assert_eq!(copy_text(Some("hello".into())), Ok("hello".to_string()));
    assert_eq!(copy_text(Some(String::new())), Err("这条没有文本内容".to_string()));
    assert_eq!(copy_text(None), Err("这条没有文本内容".to_string()));
}
