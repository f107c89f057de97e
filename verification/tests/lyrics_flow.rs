use bangs::lyrics::flow::{
    cache_entry, cache_file, cache_name, cdata_blocks, lrc_result, netease_query, netease_result, qq_queries, qrc_result,
    provider_step, settle, still_wanted, sync_step, ProviderStep, Request, Settle, SyncStep,
};
use bangs::lyrics::answers::{netease_payload, netease_search, qq_lyric_payload, qq_search};
use bangs::lyrics::parse::{parse_lrc, parse_yrc};
use bangs::lyrics::search::{best_match, QqSong};
use bangs::lyrics::{
    encode, first_artist, normalize, plain_title, player_kind_in, provider_from_name, strip_jsonp, track_key,
    FetchedLyrics, MediaState, PlayerKind, Provider,
};

fn media(title: &str) -> MediaState {
    MediaState {
        title: title.into(),
        artist: "Artist".into(),
        album: "Album".into(),
        app_name: "Spotify".into(),
        source_id: "com.spotify.client".into(),
        playing: true,
        duration_ms: Some(200_000),
    }
}

#[test]
fn track_keys_ignore_case_and_spacing() {
    assert_eq!(normalize(" He llo "), "hello");
    assert_eq!(track_key(&media("Song")), track_key(&media(" so ng")));
    assert_ne!(track_key(&media("Song")), track_key(&media("Other")));
}

#[test]
fn titles_and_artists_are_simplified_for_search() {
    assert_eq!(plain_title("Song - Live"), "Song");
    assert_eq!(plain_title("Song (feat. X)"), "Song");
    assert_eq!(plain_title("(Don't Fear) The Reaper"), "(Don't Fear) The Reaper");
    assert_eq!(first_artist("A, B & C"), "A");
    assert_eq!(first_artist(" / "), "/");
    assert_eq!(qq_queries("Song - Live", "A & B"), vec!["Song - Live A & B", "Song A"]);
    assert_eq!(qq_queries("Song", "A"), vec!["Song A"]);
    assert_eq!(netease_query("Song (Remix)", "A;B"), "Song A");
}

#[test]
fn queries_are_percent_encoded() {
    assert_eq!(encode("a b&c"), "a%20b%26c");
    assert_eq!(encode("你"), "%E4%BD%A0");
    assert_eq!(encode("A-z_0.~"), "A-z_0.~");
    assert_eq!(strip_jsonp("callback({\"a\":1})"), "{\"a\":1}");
    assert_eq!(strip_jsonp("{\"a\":1}"), "{\"a\":1}");
}

#[test]
fn providers_round_trip_by_name() {
    for p in [Provider::QqQrc, Provider::QqLrc, Provider::NetEase] {
        assert_eq!(provider_from_name(p.name()), Some(p));
    }
    assert_eq!(provider_from_name("other"), None);
}

#[test]
fn a_new_track_clears_and_asks_once() {
    assert!(matches!(sync_step("x", None, true), SyncStep::Clear));
    assert!(matches!(sync_step("x", Some(&media("")), true), SyncStep::Clear));
    let key = track_key(&media("Song"));
    assert!(matches!(sync_step(&key, Some(&media("Song")), true), SyncStep::Keep));
    match sync_step("", Some(&media("Song")), true) {
        SyncStep::Switch { lyrics, request } => {
            assert_eq!(lyrics.track, key);
            assert!(lyrics.lines.is_empty());
            let request = request.unwrap();
            assert_eq!(request.attempt, 0);
            assert_eq!(request.player, PlayerKind::Spotify);
        }
        _ => panic!(),
    }
    match sync_step("", Some(&media("Song")), false) {
        SyncStep::Switch { request, .. } => assert!(request.is_none()),
        _ => panic!(),
    }
}

fn request(track: &str, attempt: u8) -> Request {
    Request {
        track: track.into(),
        title: "Song".into(),
        artist: "Artist".into(),
        album: "Album".into(),
        duration_ms: None,
        player: PlayerKind::Other,
        attempt,
    }
}

#[test]
fn failures_are_retried_twice_then_given_up() {
    assert!(still_wanted("t", &request("t", 0)));
    assert!(!still_wanted("u", &request("t", 0)));
    match settle("t", request("t", 0), None) {
        Settle::Retry { after_secs, request } => {
            assert_eq!(after_secs, 30);
            assert_eq!(request.attempt, 1);
        }
        _ => panic!(),
    }
    match settle("t", request("t", 1), None) {
        Settle::Retry { after_secs, .. } => assert_eq!(after_secs, 120),
        _ => panic!(),
    }
    match settle("t", request("t", 2), None) {
        Settle::Publish(l) => {
            assert_eq!(l.track, "t");
            assert!(!l.timed);
            assert!(l.lines.is_empty());
        }
        _ => panic!(),
    }
    assert!(matches!(settle("u", request("t", 2), None), Settle::Drop));
    let fetched = FetchedLyrics { provider: Provider::QqLrc, timed: true, lines: parse_lrc("[00:01.00]x") };
    match settle("t", request("t", 0), Some(fetched)) {
        Settle::Publish(l) => assert_eq!(l.lines.len(), 1),
        _ => panic!(),
    }
}

#[test]
fn cached_results_need_the_current_version() {
    assert!(cache_entry(3, "qq-lrc", true, parse_lrc("[00:01.00]x")).is_some());
    assert!(cache_entry(2, "qq-lrc", true, parse_lrc("[00:01.00]x")).is_none());
    assert!(cache_entry(3, "nobody", true, parse_lrc("[00:01.00]x")).is_none());
    assert!(cache_entry(3, "netease", false, parse_lrc("[00:01.00]x")).is_none());
}

#[test]
fn payloads_become_results() {
    let r = lrc_result("[00:01.00]hi", "[00:01.00]嗨").unwrap();
    assert_eq!(r.provider, Provider::QqLrc);
    assert_eq!(r.lines[0].translation.as_deref(), Some("嗨"));
    assert!(lrc_result("", "").is_none());
    let n = netease_result(Some("[1000,500]a(1000,500)"), "[00:09.00]b", "").unwrap();
    assert_eq!(n.lines[0].text, "a");
    let n = netease_result(None, "[00:09.00]b", "").unwrap();
    assert_eq!(n.lines[0].text, "b");
    let q = qrc_result(r#"<LyricContent="[0,1000]he(0,500)llo(500,500)"/>"#, None).unwrap();
    assert_eq!(q.provider, Provider::QqQrc);
    assert!(q.timed);
    assert_eq!(cdata_blocks("<a><![CDATA[ x ]]><![CDATA[y]]>"), vec!["x", "y"]);
}

#[test]
fn qq_results_match_title_first() {
    let songs = vec![
        QqSong { name: "Other".into(), singers: vec!["Artist".into()], song_id: Some(1), song_mid: None },
        QqSong { name: "Song".into(), singers: vec!["Artist".into()], song_id: Some(2), song_mid: None },
    ];
    assert_eq!(best_match(&songs, "Song", "Artist"), Some(1));
}

#[test]
fn cache_files_are_named_by_hash() {
    assert_eq!(cache_file(0xff), "00000000000000ff.json");
    assert_eq!(cache_file(u64::MAX), "ffffffffffffffff.json");
    let name = cache_name("Song\u{1f}Artist\u{1f}Album");
    assert_eq!(name.len(), 21);
    assert!(name.ends_with(".json"));
    assert!(name[..16].chars().all(|c| c.is_ascii_hexdigit()));
    assert_eq!(name, cache_name("Song\u{1f}Artist\u{1f}Album"));
    let mut hasher = std::collections::hash_map::DefaultHasher::new();
    std::hash::Hash::hash("Song\u{1f}Artist\u{1f}Album", &mut hasher);
    assert_eq!(name, format!("{:016x}.json", std::hash::Hasher::finish(&hasher)));
    assert_ne!(cache_name("one"), cache_name("two"));
}

#[test]
fn lines_come_out_in_time_order() {
    let lrc = parse_lrc("[00:03.00]c\n[00:01.00]a\n[00:02.00]b\n[00:01.00]a2");
    let at: Vec<i64> = lrc.iter().map(|l| l.at).collect();
    assert_eq!(at, vec![1000, 1000, 2000, 3000]);
    assert_eq!(lrc[0].text, "a");
    assert_eq!(lrc[1].text, "a2");
    let yrc = parse_yrc("[2000,500]b(2000,500)\n[1000,500]a(1000,500)");
    assert_eq!(yrc.iter().map(|l| l.at).collect::<Vec<_>>(), vec![1000, 2000]);
}

#[test]
fn qq_answers_are_read_inside_their_callback() {
    let body = r#"MusicJsonCallback({"data":{"song":{"list":[
        {"songname":"晴天","singer":[{"name":"周杰伦"},{"id":3}],"songid":97773,"songmid":"0039MnYb0qxYhV"},
        {"singer":"none"}
    ]}}})"#;
    let songs = qq_search(body).unwrap();
    assert_eq!(songs.len(), 2);
    assert_eq!(songs[0].name, "晴天");
    assert_eq!(songs[0].singers, vec!["周杰伦".to_string(), String::new()]);
    assert_eq!(songs[0].song_id, Some(97773));
    assert_eq!(songs[0].song_mid.as_deref(), Some("0039MnYb0qxYhV"));
    assert_eq!(songs[1].name, "");
    assert!(songs[1].singers.is_empty());
    assert_eq!(songs[1].song_id, None);
    assert!(qq_search("callback({\"data\":{}})").is_none());
    assert!(qq_search("not json").is_none());
    let (lyric, trans) = qq_lyric_payload(r#"cb({"lyric":"[00:01.00]a","trans":"[00:01.00]b"})"#);
    assert_eq!((lyric.as_str(), trans.as_str()), ("[00:01.00]a", "[00:01.00]b"));
    let (lyric, trans) = qq_lyric_payload("oops");
    assert_eq!((lyric.as_str(), trans.as_str()), ("", ""));
}

#[test]
fn netease_answers_are_read_field_by_field() {
    let body = r#"{"result":{"songs":[
        {"id":186016,"name":"晴天","artists":[{"name":"周杰伦"},{"id":1}],"album":{"name":"叶惠美"},"duration":269000}
    ]}}"#;
    let songs = netease_search(body).unwrap();
    assert_eq!(songs.len(), 1);
    assert_eq!(songs[0].id, Some(186016));
    assert_eq!(songs[0].name, "晴天");
    assert_eq!(songs[0].artists, vec!["周杰伦".to_string()]);
    assert_eq!(songs[0].album, "叶惠美");
    assert_eq!(songs[0].duration_ms, Some(269000));
    assert!(netease_search(r#"{"result":{}}"#).is_none());
    let (yrc, lrc, tlyric) = netease_payload(r#"{"lrc":{"lyric":"[00:01.00]x"},"tlyric":{"lyric":""}}"#);
    assert_eq!(yrc, None);
    assert_eq!(lrc, "[00:01.00]x");
    assert_eq!(tlyric, "");
    let (yrc, _, _) = netease_payload(r#"{"yrc":{"lyric":"[0,1](0,1)a"}}"#);
    assert_eq!(yrc.as_deref(), Some("[0,1](0,1)a"));
}

#[test]
fn players_are_known_by_their_lowercased_names() {
    let kind = |text: &str| player_kind_in(&text.chars().collect::<Vec<char>>());
    assert_eq!(kind("com.spotify.client spotify"), PlayerKind::Spotify);
    assert_eq!(kind("com.tencent.qqmusicmac qq音乐"), PlayerKind::QqMusic);
    assert_eq!(kind("x qq 音乐"), PlayerKind::QqMusic);
    assert_eq!(kind("com.netease.163music 网易云音乐"), PlayerKind::NetEase);
    assert_eq!(kind("cloudmusic.exe"), PlayerKind::NetEase);
    assert_eq!(kind("com.apple.music music"), PlayerKind::Other);
    assert_eq!(kind("Spotify"), PlayerKind::Other);
    assert!(bangs::i18n::chinese_tag("zh-cn"));
    assert!(!bangs::i18n::chinese_tag("en-us"));
}

#[test]
fn the_first_acceptable_result_ends_the_search() {
    let timed = lrc_result("[00:01.00]a", "").unwrap();
    assert!(matches!(provider_step(Some(timed)), ProviderStep::Done(f) if f.lines.len() == 1));
    let mut untimed = lrc_result("[00:01.00]a", "").unwrap();
    untimed.timed = false;
    assert!(matches!(provider_step(Some(untimed)), ProviderStep::Next));
    assert!(matches!(provider_step(None), ProviderStep::Next));
}

#[test]
fn netease_durations_are_whole_milliseconds() {
    let songs = netease_search(r#"{"result":{"songs":[{"id":1,"name":"a","duration":1000},{"id":2,"name":"b","duration":1000.5},{"id":3,"name":"c"}]}}"#).unwrap();
    assert_eq!(songs[0].duration_ms, Some(1000));
    assert_eq!(songs[1].duration_ms, None);
    assert_eq!(songs[2].duration_ms, None);
}
