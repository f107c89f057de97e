use bangs::lyrics::parse::{parse_lrc, parse_qrc, parse_translation, parse_yrc};
use bangs::lyrics::search::{best_netease_match, NeteaseSong};
use bangs::lyrics::{
    acceptable, has_timing, player_kind, provider_order, with_translation, FetchedLyrics,
    MediaState, PlayerKind, Provider,
};

fn media(source_id: &str, app_name: &str) -> MediaState {
    MediaState {
        title: "Song".into(),
        artist: "Artist".into(),
        album: "Album".into(),
        app_name: app_name.into(),
        source_id: source_id.into(),
        playing: true,
        duration_ms: Some(180_000),
    }
}

fn seconds(ms: i64) -> f64 {
    ms as f64 / 1000.0
}

#[test]
fn provider_order_follows_player() {
    assert_eq!(
        provider_order(PlayerKind::QqMusic),
        vec![Provider::QqQrc, Provider::QqLrc, Provider::NetEase]
    );
    assert_eq!(
        provider_order(PlayerKind::NetEase),
        vec![Provider::NetEase, Provider::QqQrc, Provider::QqLrc]
    );
    assert_eq!(
        provider_order(PlayerKind::Spotify),
        vec![Provider::QqQrc, Provider::NetEase, Provider::QqLrc]
    );
    assert_eq!(provider_order(PlayerKind::Other), provider_order(PlayerKind::Spotify));
}

#[test]
fn detects_known_player_identifiers() {
    assert_eq!(player_kind(&media("com.tencent.QQMusicMac", "QQ 音乐")), PlayerKind::QqMusic);
    assert_eq!(player_kind(&media("com.netease.163music", "网易云音乐")), PlayerKind::NetEase);
    assert_eq!(player_kind(&media("com.spotify.client", "Spotify")), PlayerKind::Spotify);
}

#[test]
fn parses_lrc_and_translation() {
    let lines = parse_lrc("[00:01.50]first\n[00:03.00]second");
    let translated = with_translation(lines, parse_lrc("[00:01.50]第一句"));
    assert_eq!(translated.len(), 2);
    assert!((seconds(translated[0].at) - 1.5).abs() < f64::EPSILON);
    assert_eq!(translated[0].translation.as_deref(), Some("第一句"));
}

#[test]
fn parses_yrc_words() {
    let lines = parse_yrc("[1000,1000]he(1000,400)llo(1400,600)");
    assert_eq!(lines[0].text, "hello");
    assert_eq!(lines[0].words.len(), 2);
    assert!((seconds(lines[0].words[1].at) - 1.4).abs() < f64::EPSILON);

    let prefixed = parse_yrc("[1000,1000](1000,400,0)he(1400,600,0)llo");
    assert_eq!(prefixed[0].text, "hello");
    assert_eq!(prefixed[0].words.len(), 2);
    assert!((seconds(prefixed[0].words[0].at) - 1.0).abs() < f64::EPSILON);
}

#[test]
fn parses_qrc_content_and_character_timings() {
    let lines = parse_qrc(r#"<LyricContent="[0,1000]he(0,500)llo(500,500)"/>"#);
    assert_eq!(lines[0].text, "hello");
    assert_eq!(lines[0].words.len(), 2);
    assert!((seconds(lines[0].words[1].duration) - 0.5).abs() < f64::EPSILON);
}

#[test]
fn accepts_timed_results_without_translation() {
    let mut lines = parse_lrc("[00:01.00]hello\n[00:02.00]world");
    assert!(acceptable(&FetchedLyrics {
        provider: Provider::QqLrc,
        timed: has_timing(&lines),
        lines: lines.clone(),
    }));
    lines[0].translation = Some("你好".into());
    assert!(acceptable(&FetchedLyrics { provider: Provider::QqLrc, timed: true, lines }));
}

#[test]
fn translation_pairing_ignores_mismatched_timestamps() {
    let lines = with_translation(parse_lrc("[00:01.00]hello"), parse_lrc("[00:03.00]你好"));
    assert!(lines[0].translation.is_none());
    assert!(acceptable(&FetchedLyrics { provider: Provider::QqLrc, timed: true, lines }));
}

#[test]
fn qrc_translation_preserves_literal_parentheses() {
    let lines = parse_qrc(r#"<LyricContent="[1000,1000]Hello(1200,800)"/>"#);
    let translations = parse_translation(r#"<LyricContent="[1000,1000]你好（朋友）(1000,1000)"/>"#);
    let lines = with_translation(lines, translations);
    assert_eq!(lines[0].translation.as_deref(), Some("你好（朋友）"));
}

fn netease(name: &str) -> NeteaseSong {
    NeteaseSong {
        id: None,
        name: name.into(),
        artists: vec!["Artist".into()],
        album: "Album".into(),
        duration_ms: Some(251253),
    }
}

#[test]
fn netease_match_uses_millisecond_duration_and_filters_titles_first() {
    let songs = vec![netease("Wrong"), netease("Song")];
    let matched = best_netease_match(&songs, "Song", "Artist", "Album", Some(251_000)).unwrap();
    assert_eq!(songs[matched].name.as_str(), "Song");
}
