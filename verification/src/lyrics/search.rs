//! Picking the right song out of a provider's search results.

use vstd::prelude::*;

use super::{
    first_artist_chars, first_artist_spec, normalize_chars, normalize_spec, plain_title_chars,
    plain_title_spec,
};
use crate::text::{chars_eq, chars_of, contains, contains_exec};

verus! {

/// A QQ Music search result, as far as matching reads it.
#[derive(Debug, Clone, PartialEq)]
pub struct QqSong {
    /// `songname`; empty when missing.
    pub name: String,
    /// The `name` of each singer; empty for a singer without one.
    pub singers: Vec<String>,
    /// `songid`, which the QRC download needs.
    pub song_id: Option<i64>,
    /// `songmid`, which the LRC lookup needs.
    pub song_mid: Option<String>,
}

/// A NetEase search result, as far as matching reads it.
#[derive(Debug, Clone, PartialEq)]
pub struct NeteaseSong {
    pub id: Option<i64>,
    /// `name`; empty when missing.
    pub name: String,
    /// The artists that have a `name`, in order.
    pub artists: Vec<String>,
    /// `album.name`; empty when missing.
    pub album: String,
    /// `duration`, in milliseconds.
    pub duration_ms: Option<i64>,
}

pub open spec fn names_view(v: Seq<String>) -> Seq<Seq<char>> {
    v.map_values(|s: String| s@)
}

/// Names joined by `/`.
pub open spec fn join_slash(names: Seq<Seq<char>>) -> Seq<char>
    decreases names.len(),
{
    if names.len() == 0 {
        Seq::empty()
    } else if names.len() == 1 {
        names[0]
    } else {
        join_slash(names.drop_last()) + seq!['/'] + names.last()
    }
}

/// The normalised names joined by `/`.
pub open spec fn joined_names(names: Seq<Seq<char>>) -> Seq<char> {
    join_slash(names.map_values(|n: Seq<char>| normalize_spec(n)))
}

fn joined_names_exec(names: &[String]) -> (r: Vec<char>)
    ensures
        r@ == joined_names(names_view(names@)),
{
    let ghost nv = names_view(names@).map_values(|n: Seq<char>| normalize_spec(n));
    let mut out: Vec<char> = Vec::new();
    let mut i: usize = 0;
    while i < names.len()
        invariant
            i <= names.len(),
            nv == names_view(names@).map_values(|n: Seq<char>| normalize_spec(n)),
            out@ == join_slash(nv.take(i as int)),
        decreases names.len() - i,
    {
        let n = normalize_chars(chars_of(names[i].as_str()).as_slice());
        assert(nv[i as int] == n@);
        assert(nv.take(i + 1).drop_last() =~= nv.take(i as int));
        if i > 0 {
            out.push('/');
        }
        crate::text::append_chars(&mut out, n.as_slice());
        i = i + 1;
        assert(i == 1 ==> out@ =~= nv.take(i as int)[0]);
        assert(i > 1 ==> out@ =~= join_slash(nv.take(i - 1)) + seq!['/'] + nv.take(i as int).last());
    }
    assert(nv.take(names.len() as int) =~= nv);
    out
}

/// Either text holds the other.
pub open spec fn overlaps(a: Seq<char>, b: Seq<char>) -> bool {
    contains(a, b) || contains(b, a)
}

/// The last index of a passing candidate with the greatest score among the
/// first `n` (`Iterator::max_by_key` keeps the last of equal maxima).
pub open spec fn last_max_from(cands: Seq<(bool, int)>, n: int) -> Option<int>
    decreases n,
{
    if n <= 0 || n > cands.len() {
        None
    } else {
        let prev = last_max_from(cands, n - 1);
        if !cands[n - 1].0 {
            prev
        } else {
            match prev {
                None => Some(n - 1),
                Some(j) => if cands[n - 1].1 >= cands[j].1 {
                    Some(n - 1)
                } else {
                    Some(j)
                },
            }
        }
    }
}

pub open spec fn last_max(cands: Seq<(bool, int)>) -> Option<int> {
    last_max_from(cands, cands.len() as int)
}

proof fn lemma_last_max_bounds(cands: Seq<(bool, int)>, n: int)
    ensures
        last_max_from(cands, n) matches Some(j) ==> 0 <= j < n <= cands.len() && cands[j].0,
    decreases n,
{
    if 0 < n <= cands.len() {
        lemma_last_max_bounds(cands, n - 1);
    }
}

/// The winning candidate's score is at least every passing candidate's.
pub proof fn lemma_last_max_is_max(cands: Seq<(bool, int)>, n: int)
    requires
        0 <= n <= cands.len(),
    ensures
        last_max_from(cands, n) matches Some(j) ==> forall|k: int|
            0 <= k < n && cands[k].0 ==> #[trigger] cands[k].1 <= cands[j].1,
        last_max_from(cands, n) is None ==> forall|k: int| 0 <= k < n ==> !(#[trigger] cands[k]).0,
    decreases n,
{
    if n > 0 {
        lemma_last_max_is_max(cands, n - 1);
        lemma_last_max_bounds(cands, n - 1);
    }
}

fn last_max_exec(cands: &[(bool, i64)]) -> (r: Option<usize>)
    ensures
        match r {
            Some(j) => last_max(cands_view(cands@)) == Some(j as int) && j < cands.len(),
            None => last_max(cands_view(cands@)) is None,
        },
{
    let ghost cv = cands_view(cands@);
    let mut best: Option<usize> = None;
    let mut i: usize = 0;
    while i < cands.len()
        invariant
            i <= cands.len(),
            cv == cands_view(cands@),
            match best {
                Some(j) => last_max_from(cv, i as int) == Some(j as int) && j < i,
                None => last_max_from(cv, i as int) is None,
            },
        decreases cands.len() - i,
    {
        let (passes, score) = cands[i];
        assert(cv[i as int] == (passes, score as int));
        if passes {
            best = match best {
                None => Some(i),
                Some(j) => {
                    assert(cv[j as int] == (cands@[j as int].0, cands@[j as int].1 as int));
                    if score >= cands[j].1 {
                        Some(i)
                    } else {
                        Some(j)
                    }
                },
            };
        }
        i = i + 1;
    }
    best
}

pub open spec fn cands_view(c: Seq<(bool, i64)>) -> Seq<(bool, int)> {
    c.map_values(|p: (bool, i64)| (p.0, p.1 as int))
}

// ---------------------------------------------------------------------------
// QQ Music.

/// Title 2 for the same name, 1 when one name holds the other; artist 2 when
/// the wanted artist and the singers overlap (never for an empty artist).
pub open spec fn qq_score(
    name: Seq<char>,
    singers: Seq<Seq<char>>,
    wanted_title: Seq<char>,
    wanted_artist: Seq<char>,
) -> int {
    let n = normalize_spec(name);
    let s = joined_names(singers);
    let title_score: int = if n == wanted_title {
        2
    } else if overlaps(n, wanted_title) {
        1
    } else {
        0
    };
    let artist_score: int = if wanted_artist.len() == 0 {
        0
    } else if overlaps(s, wanted_artist) {
        2
    } else {
        0
    };
    title_score + artist_score
}

pub open spec fn qq_cands(songs: Seq<QqSong>, title: Seq<char>, artist: Seq<char>) -> Seq<
    (bool, int),
> {
    songs.map_values(
        |s: QqSong|
            (
                true,
                qq_score(
                    s.name@,
                    names_view(s.singers@),
                    normalize_spec(title),
                    normalize_spec(artist),
                ),
            ),
    )
}

/// The best-scoring song (the last of equal best), if it scores at all.
pub open spec fn best_match_spec(songs: Seq<QqSong>, title: Seq<char>, artist: Seq<char>) -> Option<
    int,
> {
    let cands = qq_cands(songs, title, artist);
    match last_max(cands) {
        Some(j) => if cands[j].1 > 0 {
            Some(j)
        } else {
            None
        },
        None => None,
    }
}

proof fn lemma_qq_choice(songs: Seq<QqSong>, title: Seq<char>, artist: Seq<char>)
    ensures
        best_match_spec(songs, title, artist) matches Some(j) ==> {
            &&& 0 <= j < songs.len()
            &&& qq_cands(songs, title, artist)[j].1 > 0
            &&& forall|k: int|
                0 <= k < songs.len() ==> #[trigger] qq_cands(songs, title, artist)[k].1 <= qq_cands(
                    songs,
                    title,
                    artist,
                )[j].1
        },
{
    let cands = qq_cands(songs, title, artist);
    lemma_last_max_is_max(cands, cands.len() as int);
    lemma_last_max_bounds(cands, cands.len() as int);
}

/// The song picked is one that scores best: no song scores more, and it
/// scores at all; when none is picked, every song scores nothing. Of two
/// songs by the same singers, one named exactly the wanted title and one
/// whose name only holds it (or is held by it), the second is never picked;
/// and of two songs of the same name, one whose singers match the wanted
/// artist and one whose singers do not, the second is never picked.
pub proof fn lemma_best_match_prefers_exact(
    songs: Seq<QqSong>,
    title: Seq<char>,
    artist: Seq<char>,
    i: int,
    j: int,
)
    requires
        0 <= i < songs.len(),
        0 <= j < songs.len(),
    ensures
        best_match_spec(songs, title, artist) matches Some(w) ==> 0 <= w < songs.len() && forall|k: int|
            0 <= k < songs.len() ==> #[trigger] qq_cands(songs, title, artist)[k].1 <= qq_cands(
                songs,
                title,
                artist,
            )[w].1,
        best_match_spec(songs, title, artist) is None ==> qq_cands(songs, title, artist)[i].1 == 0,
        names_view(songs[i].singers@) == names_view(songs[j].singers@) && normalize_spec(songs[i].name@)
            == normalize_spec(title) && normalize_spec(songs[j].name@) != normalize_spec(title)
            ==> best_match_spec(songs, title, artist) != Some(j),
        songs[i].name@ == songs[j].name@ && normalize_spec(artist).len() > 0 && overlaps(
            joined_names(names_view(songs[i].singers@)),
            normalize_spec(artist),
        ) && !overlaps(joined_names(names_view(songs[j].singers@)), normalize_spec(artist))
            ==> best_match_spec(songs, title, artist) != Some(j),
{
    let cands = qq_cands(songs, title, artist);
    lemma_qq_choice(songs, title, artist);
    lemma_last_max_is_max(cands, cands.len() as int);
    lemma_last_max_bounds(cands, cands.len() as int);
    assert(cands[i].1 == qq_score(
        songs[i].name@,
        names_view(songs[i].singers@),
        normalize_spec(title),
        normalize_spec(artist),
    ));
    assert(cands[j].1 == qq_score(
        songs[j].name@,
        names_view(songs[j].singers@),
        normalize_spec(title),
        normalize_spec(artist),
    ));
    if best_match_spec(songs, title, artist) is None {
        if last_max(cands) is None {
            assert(cands[i].0);
        }
    }
}

fn overlaps_exec(a: &[char], b: &[char]) -> (r: bool)
    ensures
        r == overlaps(a@, b@),
{
    contains_exec(a, b) || contains_exec(b, a)
}

/// Prefers an exact title match by the same artist; the search endpoint
/// otherwise happily returns covers and remixes first. Returns the index of
/// the chosen song.
pub fn best_match(songs: &[QqSong], title: &str, artist: &str) -> (r: Option<usize>)
    ensures
        match r {
            Some(j) => best_match_spec(songs@, title@, artist@) == Some(j as int),
            None => best_match_spec(songs@, title@, artist@) is None,
        },
{
    let wanted_title = normalize_chars(chars_of(title).as_slice());
    let wanted_artist = normalize_chars(chars_of(artist).as_slice());
    let ghost target = qq_cands(songs@, title@, artist@);
    let mut cands: Vec<(bool, i64)> = Vec::new();
    let mut i: usize = 0;
    while i < songs.len()
        invariant
            i <= songs.len(),
            wanted_title@ == normalize_spec(title@),
            wanted_artist@ == normalize_spec(artist@),
            target == qq_cands(songs@, title@, artist@),
            cands_view(cands@) =~= target.take(i as int),
        decreases songs.len() - i,
    {
        let song = &songs[i];
        let name = normalize_chars(chars_of(song.name.as_str()).as_slice());
        let singers = joined_names_exec(song.singers.as_slice());
        let title_score: i64 = if chars_eq(name.as_slice(), wanted_title.as_slice()) {
            2
        } else if overlaps_exec(name.as_slice(), wanted_title.as_slice()) {
            1
        } else {
            0
        };
        let artist_score: i64 = if wanted_artist.len() == 0 {
            0
        } else if overlaps_exec(singers.as_slice(), wanted_artist.as_slice()) {
            2
        } else {
            0
        };
        let ghost before = cands@;
        cands.push((true, title_score + artist_score));
        assert(target[i as int] == (
            true,
            qq_score(song.name@, names_view(song.singers@), wanted_title@, wanted_artist@),
        ));
        assert(target[i as int].1 == (title_score + artist_score) as int);
        assert(cands_view(cands@) =~= cands_view(before).push(target[i as int]));
        assert(target.take(i + 1) =~= target.take(i as int).push(target[i as int]));
        i = i + 1;
    }
    assert(target.take(songs.len() as int) =~= target);
    match last_max_exec(cands.as_slice()) {
        Some(j) => {
            assert(cands_view(cands@)[j as int] == (cands@[j as int].0, cands@[j as int].1 as int));
            if cands[j].1 > 0 {
                Some(j)
            } else {
                None
            }
        },
        None => None,
    }
}

// ---------------------------------------------------------------------------
// NetEase.

/// Songs whose normalised name overlaps the wanted title take part.
pub open spec fn netease_passes(name: Seq<char>, wanted_title: Seq<char>) -> bool {
    let n = normalize_spec(name);
    n == wanted_title || overlaps(n, wanted_title)
}

/// Title 4 (same) or 2 (overlapping), artist 3, album 1, and 1 more when the
/// length is within three seconds of the track's.
pub open spec fn netease_score(
    song: NeteaseSong,
    wanted_title: Seq<char>,
    wanted_artist: Seq<char>,
    wanted_album: Seq<char>,
    duration_ms: Option<i64>,
) -> int {
    let n = normalize_spec(song.name@);
    let artists = joined_names(names_view(song.artists@));
    let album = normalize_spec(song.album@);
    let title_score: int = if n == wanted_title {
        4
    } else if overlaps(n, wanted_title) {
        2
    } else {
        0
    };
    let artist_score: int = if wanted_artist.len() > 0 && overlaps(artists, wanted_artist) {
        3
    } else {
        0
    };
    let album_score: int = if wanted_album.len() > 0 && (album == wanted_album || overlaps(
        album,
        wanted_album,
    )) {
        1
    } else {
        0
    };
    let length_score: int = match (duration_ms, song.duration_ms) {
        (Some(w), Some(a)) => if -3000 < w - a < 3000 {
            1
        } else {
            0
        },
        _ => 0,
    };
    title_score + artist_score + album_score + length_score
}

pub open spec fn netease_cands(
    songs: Seq<NeteaseSong>,
    title: Seq<char>,
    artist: Seq<char>,
    album: Seq<char>,
    duration_ms: Option<i64>,
) -> Seq<(bool, int)> {
    let wt = normalize_spec(plain_title_spec(title));
    let wa = normalize_spec(first_artist_spec(artist));
    let wal = normalize_spec(album);
    songs.map_values(
        |s: NeteaseSong| (netease_passes(s.name@, wt), netease_score(s, wt, wa, wal, duration_ms)),
    )
}

/// Filters on the title first, then keeps the best-scoring song (the last
/// of equal best). Returns its index.
pub fn best_netease_match(
    songs: &[NeteaseSong],
    title: &str,
    artist: &str,
    album: &str,
    duration_ms: Option<i64>,
) -> (r: Option<usize>)
    ensures
        match r {
            Some(j) => last_max(netease_cands(songs@, title@, artist@, album@, duration_ms)) == Some(
                j as int,
            ),
            None => last_max(netease_cands(songs@, title@, artist@, album@, duration_ms)) is None,
        },
{
    let wt = normalize_chars(plain_title_chars(chars_of(title).as_slice()).as_slice());
    let wa = normalize_chars(first_artist_chars(chars_of(artist).as_slice()).as_slice());
    let wal = normalize_chars(chars_of(album).as_slice());
    let ghost target = netease_cands(songs@, title@, artist@, album@, duration_ms);
    let mut cands: Vec<(bool, i64)> = Vec::new();
    let mut i: usize = 0;
    while i < songs.len()
        invariant
            i <= songs.len(),
            wt@ == normalize_spec(plain_title_spec(title@)),
            wa@ == normalize_spec(first_artist_spec(artist@)),
            wal@ == normalize_spec(album@),
            target == netease_cands(songs@, title@, artist@, album@, duration_ms),
            cands_view(cands@) =~= target.take(i as int),
        decreases songs.len() - i,
    {
        let song = &songs[i];
        let name = normalize_chars(chars_of(song.name.as_str()).as_slice());
        let artists = joined_names_exec(song.artists.as_slice());
        let album_name = normalize_chars(chars_of(song.album.as_str()).as_slice());
        let same_title = chars_eq(name.as_slice(), wt.as_slice());
        let overlap_title = overlaps_exec(name.as_slice(), wt.as_slice());
        let passes = same_title || overlap_title;
        let mut score: i64 = if same_title {
            4
        } else if overlap_title {
            2
        } else {
            0
        };
        if wa.len() > 0 && overlaps_exec(artists.as_slice(), wa.as_slice()) {
            score = score + 3;
        }
        if wal.len() > 0 && (chars_eq(album_name.as_slice(), wal.as_slice()) || overlaps_exec(
            album_name.as_slice(),
            wal.as_slice(),
        )) {
            score = score + 1;
        }
        match (duration_ms, song.duration_ms) {
            (Some(w), Some(a)) => {
                let d = w as i128 - a as i128;
                if -3000 < d && d < 3000 {
                    score = score + 1;
                }
            },
            _ => {},
        }
        let ghost before = cands@;
        cands.push((passes, score));
        assert(target[i as int] == (
            netease_passes(song.name@, wt@),
            netease_score(*song, wt@, wa@, wal@, duration_ms),
        ));
        assert(target[i as int].0 == passes);
        assert(target[i as int].1 == score as int);
        assert(cands_view(cands@) =~= cands_view(before).push(target[i as int]));
        assert(target.take(i + 1) =~= target.take(i as int).push(target[i as int]));
        i = i + 1;
    }
    assert(target.take(songs.len() as int) =~= target);
    last_max_exec(cands.as_slice())
}

/// The NetEase song picked scores best among those whose name passes the
/// title filter; and of two songs with the same artists, album and length,
/// one named exactly the wanted title and one whose name only overlaps it,
/// the second is never picked.
pub proof fn lemma_netease_prefers_exact(
    songs: Seq<NeteaseSong>,
    title: Seq<char>,
    artist: Seq<char>,
    album: Seq<char>,
    duration_ms: Option<i64>,
    i: int,
    j: int,
)
    requires
        0 <= i < songs.len(),
        0 <= j < songs.len(),
    ensures
        last_max(netease_cands(songs, title, artist, album, duration_ms)) matches Some(w) ==> {
            &&& 0 <= w < songs.len()
            &&& netease_cands(songs, title, artist, album, duration_ms)[w].0
            &&& forall|k: int|
                0 <= k < songs.len() && #[trigger] netease_cands(songs, title, artist, album, duration_ms)[k].0
                    ==> netease_cands(songs, title, artist, album, duration_ms)[k].1 <= netease_cands(
                    songs,
                    title,
                    artist,
                    album,
                    duration_ms,
                )[w].1
        },
        names_view(songs[i].artists@) == names_view(songs[j].artists@) && songs[i].album@
            == songs[j].album@ && songs[i].duration_ms == songs[j].duration_ms && normalize_spec(
            songs[i].name@,
        ) == normalize_spec(plain_title_spec(title)) && normalize_spec(songs[j].name@)
            != normalize_spec(plain_title_spec(title)) ==> last_max(
            netease_cands(songs, title, artist, album, duration_ms),
        ) != Some(j),
{
    let cands = netease_cands(songs, title, artist, album, duration_ms);
    lemma_last_max_is_max(cands, cands.len() as int);
    lemma_last_max_bounds(cands, cands.len() as int);
    let wt = normalize_spec(plain_title_spec(title));
    let wa = normalize_spec(first_artist_spec(artist));
    let wal = normalize_spec(album);
    assert(cands[i] == (netease_passes(songs[i].name@, wt), netease_score(songs[i], wt, wa, wal, duration_ms)));
    assert(cands[j] == (netease_passes(songs[j].name@, wt), netease_score(songs[j], wt, wa, wal, duration_ms)));
    if names_view(songs[i].artists@) == names_view(songs[j].artists@) && songs[i].album@
        == songs[j].album@ && songs[i].duration_ms == songs[j].duration_ms && normalize_spec(
        songs[i].name@,
    ) == wt && normalize_spec(songs[j].name@) != wt && last_max(cands) == Some(j) {
        assert(cands[i].0);
        let ni = normalize_spec(songs[i].name@);
        let nj = normalize_spec(songs[j].name@);
        let tj: int = if overlaps(nj, wt) {
            2
        } else {
            0
        };
        let rest_i = netease_score(songs[i], wt, wa, wal, duration_ms) - 4;
        let rest_j = netease_score(songs[j], wt, wa, wal, duration_ms) - tj;
        assert(rest_i == rest_j);
        assert(cands[i].1 <= cands[j].1);
        assert(false);
    }
}

} // verus!
