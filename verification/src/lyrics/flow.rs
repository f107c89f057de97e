//! The decisions around a lookup: when a track change asks for lyrics, which
//! query goes out, what a provider's payload yields, whether a cached result
//! is still usable, and what happens after a lookup succeeds or fails.

use vstd::prelude::*;

use super::parse::{
    parse_lrc, parse_lrc_spec, parse_qrc, parse_qrc_spec, parse_translation,
    parse_translation_spec, parse_yrc, parse_yrc_spec,
};
use super::{
    first_artist_chars, first_artist_spec, has_timing, has_timing_spec, lines_view,
    plain_title_chars, plain_title_spec, player_kind, player_kind_spec, provider_from_name,
    provider_from_name_spec, track_key, track_key_spec, with_translation, with_translation_spec,
    FetchedLyrics, LineModel, LyricLine, Lyrics, MediaState, PlayerKind, Provider,
};
use crate::text::{chars_eq, chars_of, concat, find_sub_exec, string_of, trim, trim_exec};

verus! {

/// Retries after a failed lookup; the delays are seconds.
pub const RETRIES: u8 = 2;

pub const CACHE_VERSION: u8 = 3;

/// What `DefaultHasher::new()` gives for a text hashed with `Hash::hash`
/// and `finish`. Every hasher made by `new` starts with the same keys, so
/// the number is a function of the text (within one build of std).
pub uninterp spec fn default_hash(text: Seq<char>) -> u64;

/// `DefaultHasher` run over the track's text. Only its name is stated: std
/// leaves the algorithm unspecified.
#[verifier::external_body]
fn track_hash(track: &str) -> (r: u64)
    ensures
        r == default_hash(track@),
{
    let mut hasher = std::collections::hash_map::DefaultHasher::new();
    std::hash::Hash::hash(track, &mut hasher);
    std::hash::Hasher::finish(&hasher)
}

/// The cache file of a track whose text hashes to `hash`: the hash in 16
/// lower-case hex digits, then `.json`.
pub open spec fn cache_file_name(hash: u64) -> Seq<char> {
    crate::numbers::zero_padded(crate::numbers::digits_in(hash as nat, 16), 16) + ".json"@
}

pub fn cache_file(hash: u64) -> (r: String)
    ensures
        r@ == cache_file_name(hash),
{
    let hex = crate::numbers::write_digits(hash, 16);
    let mut name = crate::numbers::pad_zeros(hex.as_slice(), 16);
    crate::text::append_chars(&mut name, chars_of(".json").as_slice());
    string_of(name.as_slice())
}

/// The name of a track's cache file: the `DefaultHasher` hash of its text
/// in hex, and `.json`.
pub fn cache_name(track: &str) -> (r: String)
    ensures
        r@ == cache_file_name(default_hash(track@)),
{
    let h = track_hash(track);
    cache_file(h)
}

/// One lookup the background worker is asked for.
#[derive(Debug, Clone, PartialEq)]
pub struct Request {
    pub track: String,
    pub title: String,
    pub artist: String,
    pub album: String,
    pub duration_ms: Option<i64>,
    pub player: PlayerKind,
    pub attempt: u8,
}

/// What a change of the media state does to the lyrics.
pub enum SyncStep {
    /// Nothing, or nothing with a title, is playing: publish empty lyrics.
    Clear,
    /// The same track as before: keep what is shown.
    Keep,
    /// A new track: publish its (still empty) lyrics at once, and send the
    /// request when lyrics are enabled.
    Switch { lyrics: Lyrics, request: Option<Request> },
}

/// Called whenever the media state changes; fetches once per track.
pub fn sync_step(current_track: &str, media: Option<&MediaState>, enabled: bool) -> (r: SyncStep)
    ensures
        match media {
            None => r is Clear,
            Some(m) => if m.title@.len() == 0 {
                r is Clear
            } else if track_key_spec(m.title@, m.artist@, m.album@) == current_track@ {
                r is Keep
            } else {
                match r {
                    SyncStep::Switch { lyrics, request } => {
                        &&& lyrics.track@ == track_key_spec(m.title@, m.artist@, m.album@)
                        &&& !lyrics.timed
                        &&& lyrics.lines@.len() == 0
                        &&& match request {
                            None => !enabled,
                            Some(q) => {
                                &&& enabled
                                &&& q.track@ == lyrics.track@
                                &&& q.title@ == m.title@
                                &&& q.artist@ == m.artist@
                                &&& q.album@ == m.album@
                                &&& q.duration_ms == m.duration_ms
                                &&& q.player == player_kind_spec(m.source_id@, m.app_name@)
                                &&& q.attempt == 0
                            },
                        }
                    },
                    _ => false,
                }
            },
        },
{
    let m = match media {
        Some(m) => m,
        None => return SyncStep::Clear,
    };
    if m.title.as_str().is_empty() {
        return SyncStep::Clear;
    }
    let track = track_key(m);
    if chars_eq(chars_of(track.as_str()).as_slice(), chars_of(current_track).as_slice()) {
        return SyncStep::Keep;
    }
    let lyrics = Lyrics {
        track: string_of(chars_of(track.as_str()).as_slice()),
        timed: false,
        lines: Vec::new(),
    };
    let request = if enabled {
        Some(
            Request {
                track,
                title: string_of(chars_of(m.title.as_str()).as_slice()),
                artist: string_of(chars_of(m.artist.as_str()).as_slice()),
                album: string_of(chars_of(m.album.as_str()).as_slice()),
                duration_ms: m.duration_ms,
                player: player_kind(m),
                attempt: 0,
            },
        )
    } else {
        None
    };
    SyncStep::Switch { lyrics, request }
}

/// A request is worth working on while its track is still the one shown.
pub fn still_wanted(current_track: &str, request: &Request) -> (r: bool)
    ensures
        r == (current_track@ == request.track@),
{
    chars_eq(chars_of(current_track).as_slice(), chars_of(request.track.as_str()).as_slice())
}

/// What follows a lookup.
pub enum Settle {
    /// Show these lyrics.
    Publish(Lyrics),
    /// Ask again after `after_secs` seconds.
    Retry { after_secs: u64, request: Request },
    /// The track changed meanwhile: drop the result.
    Drop,
}

/// Seconds before retry number `attempt + 1`.
pub open spec fn retry_delay(attempt: u8) -> u64 {
    if attempt == 0 {
        30
    } else {
        120
    }
}

/// A result is shown if its track is still current; a failure is retried
/// twice, after 30 s and then 120 s, and after that the track's lyrics are
/// published empty (again only while it is current).
pub fn settle(current_track: &str, request: Request, fetched: Option<FetchedLyrics>) -> (r: Settle)
    ensures
        match fetched {
            Some(f) => if current_track@ == request.track@ {
                r matches Settle::Publish(l) && l.track@ == request.track@ && l.timed == f.timed
                    && l.lines@ == f.lines@
            } else {
                r is Drop
            },
            None => if request.attempt < RETRIES {
                r matches Settle::Retry { after_secs, request: q } && after_secs == retry_delay(
                    request.attempt,
                ) && q == (Request { attempt: (request.attempt + 1) as u8, ..request })
            } else if current_track@ == request.track@ {
                r matches Settle::Publish(l) && l.track@ == request.track@ && !l.timed
                    && l.lines@.len() == 0
            } else {
                r is Drop
            },
        },
{
    let current = still_wanted(current_track, &request);
    match fetched {
        Some(f) => {
            if current {
                Settle::Publish(Lyrics { track: request.track, timed: f.timed, lines: f.lines })
            } else {
                Settle::Drop
            }
        },
        None => {
            if request.attempt < RETRIES {
                let after_secs: u64 = if request.attempt == 0 {
                    30
                } else {
                    120
                };
                let attempt = request.attempt + 1;
                Settle::Retry { after_secs, request: Request { attempt, ..request } }
            } else if current {
                Settle::Publish(Lyrics { track: request.track, timed: false, lines: Vec::new() })
            } else {
                Settle::Drop
            }
        },
    }
}

/// What the provider loop does with one provider's answer.
pub enum ProviderStep {
    /// An acceptable result: it is the answer, and no further provider is
    /// asked.
    Done(FetchedLyrics),
    /// No answer, or one that is not acceptable: ask the next provider.
    Next,
}

/// The loop over the providers stops at the first acceptable result.
pub fn provider_step(fetched: Option<FetchedLyrics>) -> (r: ProviderStep)
    ensures
        match fetched {
            Some(f) => if f.timed && f.lines@.len() > 0 {
                r matches ProviderStep::Done(g) && g == f
            } else {
                r is Next
            },
            None => r is Next,
        },
{
    match fetched {
        Some(f) => if super::acceptable(&f) {
            ProviderStep::Done(f)
        } else {
            ProviderStep::Next
        },
        None => ProviderStep::Next,
    }
}

/// A cached result is used only when it has the current cache version, a
/// known provider, timing and lines.
pub fn cache_entry(version: u8, provider: &str, timed: bool, lines: Vec<LyricLine>) -> (r: Option<
    FetchedLyrics,
>)
    ensures
        match r {
            Some(f) => {
                &&& version == CACHE_VERSION
                &&& provider_from_name_spec(provider@) == Some(f.provider)
                &&& timed && lines@.len() > 0
                &&& f.timed == timed
                &&& f.lines@ == lines@
            },
            None => version != CACHE_VERSION || provider_from_name_spec(provider@) is None || !timed
                || lines@.len() == 0,
        },
{
    if version != CACHE_VERSION {
        return None;
    }
    let provider = match provider_from_name(provider) {
        Some(p) => p,
        None => return None,
    };
    let result = FetchedLyrics { provider, timed, lines };
    if super::acceptable(&result) {
        Some(result)
    } else {
        None
    }
}

// ---------------------------------------------------------------------------
// Queries.

/// The QQ Music searches, in order: the title and artist as given, then the
/// plain title and lead artist when that reads differently.
pub open spec fn qq_queries_spec(title: Seq<char>, artist: Seq<char>) -> Seq<Seq<char>> {
    let full = title + seq![' '] + artist;
    let plain = plain_title_spec(title) + seq![' '] + first_artist_spec(artist);
    if plain == full {
        seq![full]
    } else {
        seq![full, plain]
    }
}

pub fn qq_queries(title: &str, artist: &str) -> (r: Vec<String>)
    ensures
        strings_view(r@) == qq_queries_spec(title@, artist@),
{
    let sp = [' '];
    assert(sp@ =~= seq![' ']);
    let t = chars_of(title);
    let a = chars_of(artist);
    let full = concat(concat(t.as_slice(), &sp).as_slice(), a.as_slice());
    let plain = concat(
        concat(plain_title_chars(t.as_slice()).as_slice(), &sp).as_slice(),
        first_artist_chars(a.as_slice()).as_slice(),
    );
    let mut out: Vec<String> = Vec::new();
    out.push(string_of(full.as_slice()));
    if !chars_eq(plain.as_slice(), full.as_slice()) {
        out.push(string_of(plain.as_slice()));
    }
    assert(strings_view(out@) =~= qq_queries_spec(title@, artist@));
    out
}

/// The NetEase search: plain title and lead artist.
pub fn netease_query(title: &str, artist: &str) -> (r: String)
    ensures
        r@ == plain_title_spec(title@) + seq![' '] + first_artist_spec(artist@),
{
    let sp = [' '];
    assert(sp@ =~= seq![' ']);
    let t = plain_title_chars(chars_of(title).as_slice());
    let a = first_artist_chars(chars_of(artist).as_slice());
    string_of(concat(concat(t.as_slice(), &sp).as_slice(), a.as_slice()).as_slice())
}

// ---------------------------------------------------------------------------
// Payloads.

/// Lines read from an LRC payload with its translation, when there are any.
pub open spec fn lrc_result_spec(lyric: Seq<char>, trans: Seq<char>) -> Option<
    (bool, Seq<LineModel>),
> {
    let lines = parse_lrc_spec(lyric);
    if lines.len() == 0 {
        None
    } else {
        Some((has_timing_spec(lines), with_translation_spec(lines, parse_lrc_spec(trans))))
    }
}

/// QQ Music's LRC payload (`lyric` and `trans`).
pub fn lrc_result(lyric: &str, trans: &str) -> (r: Option<FetchedLyrics>)
    ensures
        match r {
            Some(f) => f.provider == Provider::QqLrc && lrc_result_spec(lyric@, trans@) == Some(
                (f.timed, lines_view(f.lines@)),
            ),
            None => lrc_result_spec(lyric@, trans@) is None,
        },
{
    let lines = parse_lrc(lyric);
    if lines.len() == 0 {
        return None;
    }
    let timed = has_timing(lines.as_slice());
    let lines = with_translation(lines, parse_lrc(trans));
    Some(FetchedLyrics { provider: Provider::QqLrc, timed, lines })
}

/// NetEase's payload: YRC when it yields lines, else LRC; with the
/// translation (`tlyric`) paired in.
pub open spec fn netease_result_spec(yrc: Option<Seq<char>>, lrc: Seq<char>, tlyric: Seq<char>) -> Option<
    (bool, Seq<LineModel>),
> {
    let lines = match yrc {
        Some(y) => if parse_yrc_spec(y).len() == 0 {
            parse_lrc_spec(lrc)
        } else {
            parse_yrc_spec(y)
        },
        None => parse_lrc_spec(lrc),
    };
    if lines.len() == 0 {
        None
    } else {
        Some((has_timing_spec(lines), with_translation_spec(lines, parse_lrc_spec(tlyric))))
    }
}

pub fn netease_result(yrc: Option<&str>, lrc: &str, tlyric: &str) -> (r: Option<FetchedLyrics>)
    ensures
        match r {
            Some(f) => f.provider == Provider::NetEase && netease_result_spec(
                match yrc {
                    Some(y) => Some(y@),
                    None => None,
                },
                lrc@,
                tlyric@,
            ) == Some((f.timed, lines_view(f.lines@))),
            None => netease_result_spec(
                match yrc {
                    Some(y) => Some(y@),
                    None => None,
                },
                lrc@,
                tlyric@,
            ) is None,
        },
{
    let lines = match yrc {
        Some(y) => {
            let parsed = parse_yrc(y);
            if parsed.len() == 0 {
                parse_lrc(lrc)
            } else {
                parsed
            }
        },
        None => parse_lrc(lrc),
    };
    if lines.len() == 0 {
        return None;
    }
    let timed = has_timing(lines.as_slice());
    let lines = with_translation(lines, parse_lrc(tlyric));
    Some(FetchedLyrics { provider: Provider::NetEase, timed, lines })
}

/// A decrypted QRC lyric document with its optional translation document:
/// the lines, when there are any, with translations paired in.
pub open spec fn qrc_result_spec(lyric: Seq<char>, translation: Option<Seq<char>>) -> Option<
    Seq<LineModel>,
> {
    let lines = parse_qrc_spec(lyric);
    if lines.len() == 0 {
        None
    } else {
        Some(
            with_translation_spec(
                lines,
                match translation {
                    Some(t) => parse_translation_spec(t),
                    None => Seq::empty(),
                },
            ),
        )
    }
}

pub fn qrc_result(lyric: &str, translation: Option<&str>) -> (r: Option<FetchedLyrics>)
    ensures
        match r {
            Some(f) => {
                &&& f.provider == Provider::QqQrc
                &&& qrc_result_spec(
                    lyric@,
                    match translation {
                        Some(t) => Some(t@),
                        None => None,
                    },
                ) == Some(lines_view(f.lines@))
                &&& f.timed == has_timing_spec(lines_view(f.lines@))
            },
            None => qrc_result_spec(
                lyric@,
                match translation {
                    Some(t) => Some(t@),
                    None => None,
                },
            ) is None,
        },
{
    let lines = parse_qrc(lyric);
    if lines.len() == 0 {
        return None;
    }
    let translations = match translation {
        Some(t) => parse_translation(t),
        None => Vec::new(),
    };
    assert(translation is None ==> lines_view(translations@) =~= Seq::<LineModel>::empty());
    let lines = with_translation(lines, translations);
    let timed = has_timing(lines.as_slice());
    Some(FetchedLyrics { provider: Provider::QqQrc, timed, lines })
}

// ---------------------------------------------------------------------------
// The QRC download.

pub open spec fn strings_view(v: Seq<String>) -> Seq<Seq<char>> {
    v.map_values(|s: String| s@)
}

/// The trimmed text of each `<![CDATA[ ... ]]>` section, in order.
pub open spec fn cdata_from(doc: Seq<char>, i: int) -> Seq<Seq<char>>
    decreases doc.len() - i,
{
    if i < 0 || i > doc.len() {
        Seq::empty()
    } else {
        match crate::text::find_sub(doc.subrange(i, doc.len() as int), "<![CDATA["@) {
            Some(k) => {
                let start = i + k + "<![CDATA["@.len();
                let rest = doc.subrange(start, doc.len() as int);
                let block = match crate::text::find_sub(rest, "]]>"@) {
                    Some(e) => rest.subrange(0, e),
                    None => rest,
                };
                proof {
                    crate::text::lemma_find_sub_from_some(
                        doc.subrange(i, doc.len() as int),
                        "<![CDATA["@,
                        0,
                    );
                    reveal_strlit("<![CDATA[");
                }
                seq![trim(block)] + cdata_from(doc, start)
            },
            None => Seq::empty(),
        }
    }
}

pub fn cdata_blocks(document: &str) -> (r: Vec<String>)
    ensures
        strings_view(r@) == cdata_from(document@, 0),
{
    let doc = chars_of(document);
    let open = chars_of("<![CDATA[");
    let close = chars_of("]]>");
    proof {
        reveal_strlit("<![CDATA[");
    }
    let mut out: Vec<String> = Vec::new();
    let mut i: usize = 0;
    loop
        invariant
            i <= doc.len(),
            doc@ == document@,
            open@ == "<![CDATA["@,
            close@ == "]]>"@,
            cdata_from(doc@, 0) == strings_view(out@) + cdata_from(doc@, i as int),
        decreases doc.len() - i,
    {
        let tail = &doc.as_slice()[i..doc.len()];
        assert(tail@ =~= doc@.subrange(i as int, doc@.len() as int));
        match find_sub_exec(tail, open.as_slice()) {
            Some(k) => {
                proof {
                    crate::text::lemma_find_sub_from_some(tail@, open@, 0);
                }
                let start = i + k + open.len();
                let rest = &doc.as_slice()[start..doc.len()];
                let block: &[char] = match find_sub_exec(rest, close.as_slice()) {
                    Some(e) => &rest[0..e],
                    None => rest,
                };
                let ghost before = out@;
                let b = string_of(trim_exec(block).as_slice());
                out.push(b);
                assert(strings_view(out@) =~= strings_view(before)
                    + seq![b@]);
                i = start;
            },
            None => {
                assert(crate::text::find_sub(doc@.subrange(i as int, doc@.len() as int), "<![CDATA["@) is None);
                assert(cdata_from(doc@, i as int) =~= Seq::<Seq<char>>::empty());
                assert(strings_view(out@) + Seq::<Seq<char>>::empty() =~= strings_view(out@));
                return out;
            },
        }
    }
}

} // verus!
