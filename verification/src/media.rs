//! "Now playing": the state the media bridge reports, what Spotify answers
//! about itself, and album art as the webview takes it. Times and lengths
//! are kept as the bits of the doubles they are read as.

use vstd::prelude::*;

use crate::data_url::{data_url, data_url_spec};
use crate::i18n::{t, LanguageState};
use crate::numbers::{double_gt, greater};
use crate::text::{
    chars_eq, chars_of, clone_opt, find_from, first_sep_from, opt_view, owned, split_on,
    split_on_exec, string_of,
};

verus! {

/// What is playing.
pub struct MediaState {
    pub title: String,
    pub artist: String,
    pub album: String,
    pub app_name: String,
    /// Bundle identifier (macOS) or AppUserModelId (Windows) of the player.
    pub source_id: String,
    pub playing: bool,
    /// Track length in seconds, when the player reports one.
    pub duration: Option<u64>,
    /// Playback position in seconds as of `elapsed_at`.
    pub elapsed: Option<u64>,
    /// Unix milliseconds at which `elapsed` was sampled.
    pub elapsed_at: u64,
    /// Album art as a data URL.
    pub artwork: Option<String>,
}

pub struct MediaModel {
    pub title: Seq<char>,
    pub artist: Seq<char>,
    pub album: Seq<char>,
    pub app_name: Seq<char>,
    pub source_id: Seq<char>,
    pub playing: bool,
    pub duration: Option<u64>,
    pub elapsed: Option<u64>,
    pub elapsed_at: u64,
    pub artwork: Option<Seq<char>>,
}

impl View for MediaState {
    type V = MediaModel;

    open spec fn view(&self) -> MediaModel {
        MediaModel {
            title: self.title@,
            artist: self.artist@,
            album: self.album@,
            app_name: self.app_name@,
            source_id: self.source_id@,
            playing: self.playing,
            duration: self.duration,
            elapsed: self.elapsed,
            elapsed_at: self.elapsed_at,
            artwork: opt_view(self.artwork),
        }
    }
}

pub open spec fn opt_media_view(m: Option<MediaState>) -> Option<MediaModel> {
    match m {
        Some(x) => Some(x@),
        None => None,
    }
}

/// A length is kept only when it is positive.
pub open spec fn positive(d: Option<u64>) -> Option<u64> {
    match d {
        Some(x) => if double_gt(x, 0) {
            Some(x)
        } else {
            None
        },
        None => None,
    }
}

fn positive_exec(d: Option<u64>) -> (r: Option<u64>)
    ensures
        r == positive(d),
{
    match d {
        Some(x) => if greater(x, 0) {
            Some(x)
        } else {
            None
        },
        None => None,
    }
}

/// One line from the media bridge.
pub struct BridgeMessage {
    pub available: bool,
    pub title: String,
    pub artist: String,
    pub album: String,
    pub app_name: String,
    pub source_id: String,
    pub playing: bool,
    pub duration: Option<u64>,
    pub elapsed: Option<u64>,
    pub timestamp: u64,
    pub has_artwork: bool,
    /// Only sent when the artwork changed, to keep the pipe light.
    pub artwork: Option<String>,
}

/// The artwork after a message: gone with the session, replaced when the
/// message carries new art, dropped when the track has none, and otherwise
/// the art last sent.
pub open spec fn artwork_after(
    available: bool,
    has_artwork: bool,
    sent: Option<Seq<char>>,
    kept: Option<Seq<char>>,
) -> Option<Seq<char>> {
    if !available {
        None
    } else if sent is Some {
        sent
    } else if !has_artwork {
        None
    } else {
        kept
    }
}

impl BridgeMessage {
    /// The state a message describes; `artwork` is the art kept between
    /// messages. No session means no state.
    pub fn into_state(self, artwork: &mut Option<String>) -> (r: Option<MediaState>)
        ensures
            opt_view(*final(artwork)) == artwork_after(
                self.available,
                self.has_artwork,
                opt_view(self.artwork),
                opt_view(*old(artwork)),
            ),
            !self.available ==> r is None,
            self.available ==> opt_media_view(r) == Some(
                MediaModel {
                    title: self.title@,
                    artist: self.artist@,
                    album: self.album@,
                    app_name: self.app_name@,
                    source_id: self.source_id@,
                    playing: self.playing,
                    duration: positive(self.duration),
                    elapsed: self.elapsed,
                    elapsed_at: self.timestamp,
                    artwork: opt_view(*final(artwork)),
                },
            ),
    {
        if !self.available {
            *artwork = None;
            return None;
        }
        if self.artwork.is_some() {
            *artwork = self.artwork;
        } else if !self.has_artwork {
            *artwork = None;
        }
        Some(
            MediaState {
                title: self.title,
                artist: self.artist,
                album: self.album,
                app_name: self.app_name,
                source_id: self.source_id,
                playing: self.playing,
                duration: positive_exec(self.duration),
                elapsed: self.elapsed,
                elapsed_at: self.timestamp,
                artwork: clone_opt(artwork),
            },
        )
    }
}

// ---------------------------------------------------------------------------
// Spotify.

/// Spotify's fields come separated by the ASCII unit separator, which
/// cannot appear in a track name.
pub open spec fn separator() -> Seq<char> {
    seq!['\u{1f}']
}

/// What Spotify answered, field by field; the numbers stay text, written in
/// the system's number format.
pub struct SpotifyFields {
    pub playing: bool,
    pub title: String,
    pub artist: String,
    pub album: String,
    /// The track length in milliseconds, when sent.
    pub duration: Option<String>,
    /// The position in seconds, when sent.
    pub position: Option<String>,
    pub artwork_url: String,
}

pub open spec fn field_at(fields: Seq<Seq<char>>, i: int) -> Seq<char> {
    if i < fields.len() {
        fields[i]
    } else {
        Seq::empty()
    }
}

pub open spec fn opt_field(fields: Seq<Seq<char>>, i: int) -> Option<Seq<char>> {
    if i < fields.len() {
        Some(fields[i])
    } else {
        None
    }
}

/// The fields of Spotify's answer: nothing when no track title is there.
/// Missing text fields are empty.
pub open spec fn spotify_spec(line: Seq<char>) -> Option<
    (bool, Seq<char>, Seq<char>, Seq<char>, Option<Seq<char>>, Option<Seq<char>>, Seq<char>),
> {
    let f = split_on(line, separator());
    if f.len() < 2 || f[1].len() == 0 {
        None
    } else {
        Some(
            (
                f[0] == "playing"@,
                f[1],
                field_at(f, 2),
                field_at(f, 3),
                opt_field(f, 4),
                opt_field(f, 5),
                field_at(f, 6),
            ),
        )
    }
}

pub open spec fn spotify_view(s: SpotifyFields) -> (
    bool,
    Seq<char>,
    Seq<char>,
    Seq<char>,
    Option<Seq<char>>,
    Option<Seq<char>>,
    Seq<char>,
) {
    (
        s.playing,
        s.title@,
        s.artist@,
        s.album@,
        opt_view(s.duration),
        opt_view(s.position),
        s.artwork_url@,
    )
}

fn field(pieces: &Vec<Vec<char>>, i: usize) -> (r: String)
    ensures
        r@ == field_at(pieces@.map_values(|v: Vec<char>| v@), i as int),
{
    if i < pieces.len() {
        string_of(pieces[i].as_slice())
    } else {
        String::new()
    }
}

fn opt_piece(pieces: &Vec<Vec<char>>, i: usize) -> (r: Option<String>)
    ensures
        opt_view(r) == opt_field(pieces@.map_values(|v: Vec<char>| v@), i as int),
{
    if i < pieces.len() {
        Some(string_of(pieces[i].as_slice()))
    } else {
        None
    }
}

/// Reads Spotify's answer about what it plays.
pub fn spotify_fields(line: &str) -> (r: Option<SpotifyFields>)
    ensures
        match spotify_spec(line@) {
            Some(v) => r matches Some(f) && spotify_view(f) == v,
            None => r is None,
        },
{
    let sep: [char; 1] = ['\u{1f}'];
    assert(sep@ =~= separator());
    let pieces = split_on_exec(chars_of(line).as_slice(), sep.as_slice());
    let ghost pv = pieces@.map_values(|v: Vec<char>| v@);
    if pieces.len() < 2 || pieces[1].len() == 0 {
        return None;
    }
    assert(pv[0] == pieces@[0]@ && pv[1] == pieces@[1]@);
    let playing = chars_eq(pieces[0].as_slice(), chars_of("playing").as_slice());
    Some(
        SpotifyFields {
            playing,
            title: string_of(pieces[1].as_slice()),
            artist: field(&pieces, 2),
            album: field(&pieces, 3),
            duration: opt_piece(&pieces, 4),
            position: opt_piece(&pieces, 5),
            artwork_url: field(&pieces, 6),
        },
    )
}

/// Album art is a few hundred KB; anything beyond this is not album art.
pub const MAX_ARTWORK: usize = 4194304;

/// The data URL of downloaded art: none for no bytes or too many; PNG when
/// the bytes start like one, JPEG otherwise.
pub open spec fn artwork_spec(bytes: Seq<u8>) -> Option<Seq<char>> {
    if bytes.len() == 0 || bytes.len() > MAX_ARTWORK {
        None
    } else if bytes.len() >= 2 && bytes[0] == 0x89 && bytes[1] == 0x50 {
        Some(data_url_spec("image/png"@, bytes))
    } else {
        Some(data_url_spec("image/jpeg"@, bytes))
    }
}

pub fn artwork_url(bytes: &[u8]) -> (r: Option<String>)
    ensures
        opt_view(r) == artwork_spec(bytes@),
{
    if bytes.len() == 0 || bytes.len() > MAX_ARTWORK {
        return None;
    }
    if bytes.len() >= 2 && bytes[0] == 0x89 && bytes[1] == 0x50 {
        Some(data_url("image/png", bytes))
    } else {
        Some(data_url("image/jpeg", bytes))
    }
}

/// The art last downloaded and the URL it came from, so the same URL is not
/// fetched again.
pub struct ArtworkCache {
    entry: Option<(String, String)>,
}

impl View for ArtworkCache {
    type V = Option<(Seq<char>, Seq<char>)>;

    closed spec fn view(&self) -> Option<(Seq<char>, Seq<char>)> {
        match self.entry {
            Some((u, d)) => Some((u@, d@)),
            None => None,
        }
    }
}

impl ArtworkCache {
    pub fn new() -> (r: Self)
        ensures
            r@ is None,
    {
        ArtworkCache { entry: None }
    }

    /// The art for this URL, if it is the one last downloaded.
    pub fn get(&self, url: &str) -> (r: Option<String>)
        ensures
            opt_view(r) == match self@ {
                Some((u, d)) => if u == url@ {
                    Some(d)
                } else {
                    None
                },
                None => None,
            },
    {
        match &self.entry {
            Some((u, d)) => if chars_eq(chars_of(u.as_str()).as_slice(), chars_of(url).as_slice()) {
                Some(d.clone())
            } else {
                None
            },
            None => None,
        }
    }

    pub fn put(&mut self, url: String, data: String)
        ensures
            final(self)@ == Some((url@, data@)),
    {
        self.entry = Some((url, data));
    }
}

/// What a Spotify command answers when Spotify is closed or silent.
pub fn spotify_not_running(language: &LanguageState) -> (r: String)
    ensures
        r@ == (if language.is_chinese() {
            "Spotify 没在运行"@
        } else {
            "Spotify is not running"@
        }),
{
    owned(t(language, "Spotify 没在运行", "Spotify is not running"))
}

pub fn spotify_no_answer(language: &LanguageState) -> (r: String)
    ensures
        r@ == (if language.is_chinese() {
            "Spotify 没有响应"@
        } else {
            "Spotify did not answer"@
        }),
{
    owned(t(language, "Spotify 没有响应", "Spotify did not answer"))
}

} // verus!
