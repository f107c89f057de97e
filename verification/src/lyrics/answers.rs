//! Reading the lyric providers' JSON answers: QQ Music's search and lyric
//! payloads (wrapped in a JSONP callback) and NetEase's search and lyric
//! payloads.

use vstd::prelude::*;

use super::search::{names_view, NeteaseSong, QqSong};
use super::{strip_jsonp, strip_jsonp_spec};
use crate::dev::workspaces::{
    json_int, json_int_at, json_items, json_items_at, json_text, json_text_at, json_texts,
    json_texts_at, keys_view, opts_view, push_somes, somes,
};
use crate::text::{opt_view, string_of};

verus! {

/// A text, or the empty text when there is none.
pub open spec fn or_empty(t: Option<Seq<char>>) -> Seq<char> {
    match t {
        Some(x) => x,
        None => Seq::empty(),
    }
}

fn text_or_empty(t: Option<String>) -> (r: String)
    ensures
        r@ == or_empty(opt_view(t)),
{
    match t {
        Some(x) => x,
        None => string_of(&[]),
    }
}

// ---------------------------------------------------------------------------
// QQ Music.

/// A search result read from its JSON item: `songname`, the `name` of each
/// entry of `singer` (empty when missing), `songid` and `songmid`.
pub open spec fn qq_song_is(s: QqSong, item: Seq<char>) -> bool {
    &&& s.name@ == or_empty(json_text_at(item, seq!["songname"@]))
    &&& names_view(s.singers@) == json_texts_at(item, seq!["singer"@], "name"@).map_values(
        |t: Option<Seq<char>>| or_empty(t),
    )
    &&& s.song_id == json_int_at(item, seq!["songid"@])
    &&& opt_view(s.song_mid) == json_text_at(item, seq!["songmid"@])
}

fn qq_song_of(item: &str) -> (r: QqSong)
    ensures
        qq_song_is(r, item@),
{
    let name_key: [&str; 1] = ["songname"];
    let singer_key: [&str; 1] = ["singer"];
    let id_key: [&str; 1] = ["songid"];
    let mid_key: [&str; 1] = ["songmid"];
    assert(keys_view(name_key@) =~= seq!["songname"@]);
    assert(keys_view(singer_key@) =~= seq!["singer"@]);
    assert(keys_view(id_key@) =~= seq!["songid"@]);
    assert(keys_view(mid_key@) =~= seq!["songmid"@]);
    let name = text_or_empty(json_text(item, name_key.as_slice()));
    let found = json_texts(item, singer_key.as_slice(), "name");
    let ghost fv = opts_view(found@);
    let mut singers: Vec<String> = Vec::new();
    let mut i: usize = 0;
    while i < found.len()
        invariant
            i <= found@.len(),
            fv == opts_view(found@),
            names_view(singers@) == fv.take(i as int).map_values(|t: Option<Seq<char>>| or_empty(t)),
        decreases found.len() - i,
    {
        let one = match &found[i] {
            Some(t) => t.clone(),
            None => string_of(&[]),
        };
        assert(one@ == or_empty(fv[i as int]));
        let ghost before = singers@;
        singers.push(one);
        assert(names_view(singers@) =~= names_view(before).push(one@));
        assert(fv.take(i + 1) =~= fv.take(i as int).push(fv[i as int]));
        assert(names_view(singers@) =~= fv.take(i + 1).map_values(|t: Option<Seq<char>>| or_empty(t)));
        i = i + 1;
    }
    assert(fv.take(found@.len() as int) =~= fv);
    QqSong {
        name,
        singers,
        song_id: json_int(item, id_key.as_slice()),
        song_mid: json_text(item, mid_key.as_slice()),
    }
}

/// The songs of a QQ Music search answer: the JSON inside its callback,
/// `data.song.list`, each item read as `qq_song_is` says. Nothing when the
/// answer holds no such list.
pub fn qq_search(body: &str) -> (r: Option<Vec<QqSong>>)
    ensures
        match json_items_at(strip_jsonp_spec(body@), seq!["data"@, "song"@, "list"@]) {
            None => r is None,
            Some(items) => r matches Some(v) && v@.len() == items.len() && forall|i: int|
                0 <= i < items.len() ==> qq_song_is(#[trigger] v@[i], items[i]),
        },
{
    let keys: [&str; 3] = ["data", "song", "list"];
    assert(keys_view(keys@) =~= seq!["data"@, "song"@, "list"@]);
    let json = strip_jsonp(body);
    let items = match json_items(json.as_str(), keys.as_slice()) {
        Some(items) => items,
        None => return None,
    };
    let ghost iv = items@.map_values(|s: String| s@);
    let mut songs: Vec<QqSong> = Vec::new();
    let mut i: usize = 0;
    while i < items.len()
        invariant
            i <= items@.len(),
            iv == items@.map_values(|s: String| s@),
            songs@.len() == i,
            forall|k: int| 0 <= k < i ==> qq_song_is(#[trigger] songs@[k], iv[k]),
        decreases items.len() - i,
    {
        songs.push(qq_song_of(items[i].as_str()));
        i = i + 1;
    }
    Some(songs)
}

/// QQ Music's lyric answer: the JSON inside its callback, its `lyric` and
/// `trans` texts (empty when missing).
pub fn qq_lyric_payload(body: &str) -> (r: (String, String))
    ensures
        r.0@ == or_empty(json_text_at(strip_jsonp_spec(body@), seq!["lyric"@])),
        r.1@ == or_empty(json_text_at(strip_jsonp_spec(body@), seq!["trans"@])),
{
    let lyric_key: [&str; 1] = ["lyric"];
    let trans_key: [&str; 1] = ["trans"];
    assert(keys_view(lyric_key@) =~= seq!["lyric"@]);
    assert(keys_view(trans_key@) =~= seq!["trans"@]);
    let json = strip_jsonp(body);
    (
        text_or_empty(json_text(json.as_str(), lyric_key.as_slice())),
        text_or_empty(json_text(json.as_str(), trans_key.as_slice())),
    )
}

// ---------------------------------------------------------------------------
// NetEase.

/// A search result read from its JSON item: `id`, `name` (empty when
/// missing), the `name` of each of the `artists` that has one, `album.name`
/// (empty when missing) and `duration` in milliseconds.
pub open spec fn netease_song_is(s: NeteaseSong, item: Seq<char>) -> bool {
    &&& s.id == json_int_at(item, seq!["id"@])
    &&& s.name@ == or_empty(json_text_at(item, seq!["name"@]))
    &&& names_view(s.artists@) == somes(json_texts_at(item, seq!["artists"@], "name"@))
    &&& s.album@ == or_empty(json_text_at(item, seq!["album"@, "name"@]))
    &&& s.duration_ms == json_int_at(item, seq!["duration"@])
}

fn netease_song_of(item: &str) -> (r: NeteaseSong)
    ensures
        netease_song_is(r, item@),
{
    let id_key: [&str; 1] = ["id"];
    let name_key: [&str; 1] = ["name"];
    let artists_key: [&str; 1] = ["artists"];
    let album_key: [&str; 2] = ["album", "name"];
    let duration_key: [&str; 1] = ["duration"];
    assert(keys_view(id_key@) =~= seq!["id"@]);
    assert(keys_view(name_key@) =~= seq!["name"@]);
    assert(keys_view(artists_key@) =~= seq!["artists"@]);
    assert(keys_view(album_key@) =~= seq!["album"@, "name"@]);
    assert(keys_view(duration_key@) =~= seq!["duration"@]);
    let mut artists: Vec<String> = Vec::new();
    assert(artists@.map_values(|s: String| s@) =~= Seq::<Seq<char>>::empty());
    push_somes(&mut artists, json_texts(item, artists_key.as_slice(), "name"));
    assert(names_view(artists@) =~= artists@.map_values(|s: String| s@));
    NeteaseSong {
        id: json_int(item, id_key.as_slice()),
        name: text_or_empty(json_text(item, name_key.as_slice())),
        artists,
        album: text_or_empty(json_text(item, album_key.as_slice())),
        duration_ms: json_int(item, duration_key.as_slice()),
    }
}

/// The songs of a NetEase search answer: `result.songs`, each item read as
/// `netease_song_is` says. Nothing when the answer holds no such list.
pub fn netease_search(body: &str) -> (r: Option<Vec<NeteaseSong>>)
    ensures
        match json_items_at(body@, seq!["result"@, "songs"@]) {
            None => r is None,
            Some(items) => r matches Some(v) && v@.len() == items.len() && forall|i: int|
                0 <= i < items.len() ==> netease_song_is(#[trigger] v@[i], items[i]),
        },
{
    let keys: [&str; 2] = ["result", "songs"];
    assert(keys_view(keys@) =~= seq!["result"@, "songs"@]);
    let items = match json_items(body, keys.as_slice()) {
        Some(items) => items,
        None => return None,
    };
    let ghost iv = items@.map_values(|s: String| s@);
    let mut songs: Vec<NeteaseSong> = Vec::new();
    let mut i: usize = 0;
    while i < items.len()
        invariant
            i <= items@.len(),
            iv == items@.map_values(|s: String| s@),
            songs@.len() == i,
            forall|k: int| 0 <= k < i ==> netease_song_is(#[trigger] songs@[k], iv[k]),
        decreases items.len() - i,
    {
        songs.push(netease_song_of(items[i].as_str()));
        i = i + 1;
    }
    Some(songs)
}

/// NetEase's lyric answer: `yrc.lyric` when it is there, and the texts of
/// `lrc.lyric` and `tlyric.lyric` (empty when missing).
pub fn netease_payload(body: &str) -> (r: (Option<String>, String, String))
    ensures
        opt_view(r.0) == json_text_at(body@, seq!["yrc"@, "lyric"@]),
        r.1@ == or_empty(json_text_at(body@, seq!["lrc"@, "lyric"@])),
        r.2@ == or_empty(json_text_at(body@, seq!["tlyric"@, "lyric"@])),
{
    let yrc_key: [&str; 2] = ["yrc", "lyric"];
    let lrc_key: [&str; 2] = ["lrc", "lyric"];
    let tlyric_key: [&str; 2] = ["tlyric", "lyric"];
    assert(keys_view(yrc_key@) =~= seq!["yrc"@, "lyric"@]);
    assert(keys_view(lrc_key@) =~= seq!["lrc"@, "lyric"@]);
    assert(keys_view(tlyric_key@) =~= seq!["tlyric"@, "lyric"@]);
    (
        json_text(body, yrc_key.as_slice()),
        text_or_empty(json_text(body, lrc_key.as_slice())),
        text_or_empty(json_text(body, tlyric_key.as_slice())),
    )
}

} // verus!
