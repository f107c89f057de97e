//! Lyrics for whatever is playing. The active player selects a provider order;
//! only track metadata leaves the machine. Times are whole milliseconds into
//! the track.

use vstd::prelude::*;
use vstd::string::StringSliceAdditionalSpecFns;

use crate::text::{
    chars_of, concat, contains, contains_exec, find, find_sub, find_sub_exec, first_piece,
    first_piece_exec, is_whitespace, is_ws, lowercase, opt_view, rfind, string_of, to_lowercase, trim,
    trim_exec,
};

pub mod parse;
pub mod search;
pub mod flow;
pub mod answers;

verus! {

pub struct WordModel {
    pub at: i64,
    pub duration: i64,
    pub text: Seq<char>,
}

pub struct LineModel {
    pub at: i64,
    pub text: Seq<char>,
    pub translation: Option<Seq<char>>,
    pub words: Seq<WordModel>,
}

/// One timed character group of a line.
#[derive(Debug, Clone, PartialEq)]
pub struct LyricWord {
    /// Milliseconds into the track.
    pub at: i64,
    pub duration: i64,
    pub text: String,
}

impl View for LyricWord {
    type V = WordModel;

    open spec fn view(&self) -> WordModel {
        WordModel { at: self.at, duration: self.duration, text: self.text@ }
    }
}

pub open spec fn words_view(words: Seq<LyricWord>) -> Seq<WordModel> {
    words.map_values(|w: LyricWord| w@)
}

#[derive(Debug, Clone, PartialEq)]
pub struct LyricLine {
    /// Milliseconds into the track.
    pub at: i64,
    pub text: String,
    pub translation: Option<String>,
    /// Per-character timing, when the source has it (QRC, YRC).
    pub words: Vec<LyricWord>,
}

impl View for LyricLine {
    type V = LineModel;

    open spec fn view(&self) -> LineModel {
        LineModel {
            at: self.at,
            text: self.text@,
            translation: opt_view(self.translation),
            words: words_view(self.words@),
        }
    }
}

pub open spec fn lines_view(lines: Seq<LyricLine>) -> Seq<LineModel> {
    lines.map_values(|l: LyricLine| l@)
}

/// Sorts lines by time, keeping the read order of equal times.
pub fn sort_lines(v: Vec<LyricLine>) -> (r: Vec<LyricLine>)
    ensures
        lines_view(r@) == crate::sort::sort_by(lines_view(v@), parse::line_order()),
{
    let ghost input = v@;
    let r = crate::sort::stable_sort_exec(v);
    proof {
        let f = |l: LyricLine| l@;
        crate::sort::lemma_sort_map(
            input,
            f,
            crate::sort::key_order::<LyricLine>(),
            parse::line_order(),
        );
        assert(lines_view(input) =~= input.map_values(f));
        assert(lines_view(r@) =~= r@.map_values(f));
    }
    r
}

impl crate::sort::SortKey for LyricLine {
    open spec fn stays_before(&self, other: &Self) -> bool {
        self.at <= other.at
    }

    fn le(&self, other: &Self) -> (r: bool) {
        self.at <= other.at
    }
}

/// The lines published for a track.
#[derive(Debug, Clone, PartialEq)]
pub struct Lyrics {
    /// The track these lines belong to, so the webview can drop stale ones.
    pub track: String,
    /// Whether the accepted lines have real timestamps.
    pub timed: bool,
    pub lines: Vec<LyricLine>,
}

impl Lyrics {
    /// No lines for no track.
    pub fn empty() -> (r: Self)
        ensures
            r.track@.len() == 0,
            !r.timed,
            r.lines@.len() == 0,
    {
        Lyrics { track: String::new(), timed: false, lines: Vec::new() }
    }
}

/// What the media session reports about the track, as far as lyrics read it.
#[derive(Debug, Clone, PartialEq)]
pub struct MediaState {
    pub title: String,
    pub artist: String,
    pub album: String,
    pub app_name: String,
    /// Bundle identifier (macOS) or AppUserModelId (Windows) of the player.
    pub source_id: String,
    pub playing: bool,
    /// Track length in milliseconds, when the player reports one.
    pub duration_ms: Option<i64>,
}

#[derive(Debug, Clone, Copy, PartialEq, Eq)]
pub enum PlayerKind {
    QqMusic,
    NetEase,
    Spotify,
    Other,
}

#[derive(Debug, Clone, Copy, PartialEq, Eq)]
pub enum Provider {
    QqQrc,
    QqLrc,
    NetEase,
}

/// Lines one provider produced.
#[derive(Debug, Clone)]
pub struct FetchedLyrics {
    pub provider: Provider,
    pub timed: bool,
    pub lines: Vec<LyricLine>,
}

// ---------------------------------------------------------------------------
// Providers.

pub open spec fn provider_order_spec(player: PlayerKind) -> Seq<Provider> {
    match player {
        PlayerKind::QqMusic => seq![Provider::QqQrc, Provider::QqLrc, Provider::NetEase],
        PlayerKind::NetEase => seq![Provider::NetEase, Provider::QqQrc, Provider::QqLrc],
        PlayerKind::Spotify | PlayerKind::Other => seq![
            Provider::QqQrc,
            Provider::NetEase,
            Provider::QqLrc,
        ],
    }
}

/// The order in which providers are asked: the player's own source first.
pub fn provider_order(player: PlayerKind) -> (r: Vec<Provider>)
    ensures
        r@ == provider_order_spec(player),
{
    let r = match player {
        PlayerKind::QqMusic => vec![Provider::QqQrc, Provider::QqLrc, Provider::NetEase],
        PlayerKind::NetEase => vec![Provider::NetEase, Provider::QqQrc, Provider::QqLrc],
        PlayerKind::Spotify | PlayerKind::Other => vec![
            Provider::QqQrc,
            Provider::NetEase,
            Provider::QqLrc,
        ],
    };
    assert(r@ =~= provider_order_spec(player));
    r
}

pub open spec fn provider_name_spec(p: Provider) -> Seq<char> {
    match p {
        Provider::QqQrc => "qq-qrc"@,
        Provider::QqLrc => "qq-lrc"@,
        Provider::NetEase => "netease"@,
    }
}

impl Provider {
    /// The name the cache file records.
    pub fn name(self) -> (r: &'static str)
        ensures
            r@ == provider_name_spec(self),
    {
        match self {
            Provider::QqQrc => "qq-qrc",
            Provider::QqLrc => "qq-lrc",
            Provider::NetEase => "netease",
        }
    }
}

pub open spec fn provider_from_name_spec(name: Seq<char>) -> Option<Provider> {
    if name == "qq-qrc"@ {
        Some(Provider::QqQrc)
    } else if name == "qq-lrc"@ {
        Some(Provider::QqLrc)
    } else if name == "netease"@ {
        Some(Provider::NetEase)
    } else {
        None
    }
}

pub fn provider_from_name(name: &str) -> (r: Option<Provider>)
    ensures
        r == provider_from_name_spec(name@),
{
    let n = chars_of(name);
    if crate::text::chars_eq(n.as_slice(), chars_of("qq-qrc").as_slice()) {
        Some(Provider::QqQrc)
    } else if crate::text::chars_eq(n.as_slice(), chars_of("qq-lrc").as_slice()) {
        Some(Provider::QqLrc)
    } else if crate::text::chars_eq(n.as_slice(), chars_of("netease").as_slice()) {
        Some(Provider::NetEase)
    } else {
        None
    }
}

/// A provider's name reads back as that provider.
pub proof fn lemma_provider_name_roundtrip(p: Provider)
    ensures
        provider_from_name_spec(provider_name_spec(p)) == Some(p),
{
    reveal_strlit("qq-qrc");
    reveal_strlit("qq-lrc");
    reveal_strlit("netease");
    assert("qq-qrc"@ != "qq-lrc"@ ==> true);
    match p {
        Provider::QqQrc => {},
        Provider::QqLrc => {
            assert("qq-lrc"@[3] != "qq-qrc"@[3]);
        },
        Provider::NetEase => {
            assert("netease"@[0] != "qq-qrc"@[0]);
            assert("netease"@[0] != "qq-lrc"@[0]);
        },
    }
}

// ---------------------------------------------------------------------------
// Normalising titles and artists.

/// The characters of `s` that are not white space.
pub open spec fn without_ws(s: Seq<char>) -> Seq<char>
    decreases s.len(),
{
    if s.len() == 0 {
        s
    } else if is_ws(s.last()) {
        without_ws(s.drop_last())
    } else {
        without_ws(s.drop_last()).push(s.last())
    }
}

/// Comparison form of a title or name: no white space, lowercase.
pub open spec fn normalize_spec(s: Seq<char>) -> Seq<char> {
    lowercase(without_ws(s))
}

pub fn normalize_chars(value: &[char]) -> (r: Vec<char>)
    ensures
        r@ == normalize_spec(value@),
{
    let mut kept: Vec<char> = Vec::new();
    let mut i: usize = 0;
    while i < value.len()
        invariant
            i <= value.len(),
            kept@ == without_ws(value@.take(i as int)),
        decreases value.len() - i,
    {
        assert(value@.take(i + 1).drop_last() =~= value@.take(i as int));
        if !is_whitespace(value[i]) {
            kept.push(value[i]);
        }
        i = i + 1;
    }
    assert(value@.take(value.len() as int) =~= value@);
    chars_of(to_lowercase(string_of(kept.as_slice()).as_str()).as_str())
}

pub fn normalize(value: &str) -> (r: String)
    ensures
        r@ == normalize_spec(value@),
{
    let n = normalize_chars(chars_of(value).as_slice());
    string_of(n.as_slice())
}

/// Stable song identity: normalised title, artist and album, joined by the
/// unit separator. Source, duration and artwork do not belong in it.
pub open spec fn track_key_spec(title: Seq<char>, artist: Seq<char>, album: Seq<char>) -> Seq<
    char,
> {
    normalize_spec(title) + seq!['\u{1f}'] + normalize_spec(artist) + seq!['\u{1f}']
        + normalize_spec(album)
}

pub fn track_key(media: &MediaState) -> (r: String)
    ensures
        r@ == track_key_spec(media.title@, media.artist@, media.album@),
{
    let sep = ['\u{1f}'];
    let a = concat(
        normalize_chars(chars_of(media.title.as_str()).as_slice()).as_slice(),
        &sep,
    );
    let b = concat(a.as_slice(), normalize_chars(chars_of(media.artist.as_str()).as_slice()).as_slice());
    let c = concat(b.as_slice(), &sep);
    let d = concat(c.as_slice(), normalize_chars(chars_of(media.album.as_str()).as_slice()).as_slice());
    assert(sep@ =~= seq!['\u{1f}']);
    string_of(d.as_slice())
}

/// The player's family, from the lowercased text that names it.
pub open spec fn kind_in(hay: Seq<char>) -> PlayerKind {
    if contains(hay, "spotify"@) {
        PlayerKind::Spotify
    } else if contains(hay, "qqmusic"@) || contains(hay, "qq 音乐"@) || contains(hay, "qq音乐"@) {
        PlayerKind::QqMusic
    } else if contains(hay, "cloudmusic"@) || contains(hay, "netease"@) || contains(hay, "网易云"@)
        || contains(hay, "163music"@) {
        PlayerKind::NetEase
    } else {
        PlayerKind::Other
    }
}

/// The player's family, from its identifier and name (lowercased, joined by
/// a space).
pub open spec fn player_kind_spec(source_id: Seq<char>, app_name: Seq<char>) -> PlayerKind {
    kind_in(lowercase(source_id + seq![' '] + app_name))
}

/// The player's family named in a lowercased text: Spotify, QQ Music or
/// NetEase by the words each is known by, else another player.
pub fn player_kind_in(hay: &[char]) -> (r: PlayerKind)
    ensures
        r == kind_in(hay@),
{
    let h = hay;
    if contains_exec(h, chars_of("spotify").as_slice()) {
        PlayerKind::Spotify
    } else if contains_exec(h, chars_of("qqmusic").as_slice()) || contains_exec(
        h,
        chars_of("qq 音乐").as_slice(),
    ) || contains_exec(h, chars_of("qq音乐").as_slice()) {
        PlayerKind::QqMusic
    } else if contains_exec(h, chars_of("cloudmusic").as_slice()) || contains_exec(
        h,
        chars_of("netease").as_slice(),
    ) || contains_exec(h, chars_of("网易云").as_slice()) || contains_exec(
        h,
        chars_of("163music").as_slice(),
    ) {
        PlayerKind::NetEase
    } else {
        PlayerKind::Other
    }
}

pub fn player_kind(media: &MediaState) -> (r: PlayerKind)
    ensures
        r == player_kind_spec(media.source_id@, media.app_name@),
{
    let sp = [' '];
    let joined = concat(
        concat(chars_of(media.source_id.as_str()).as_slice(), &sp).as_slice(),
        chars_of(media.app_name.as_str()).as_slice(),
    );
    assert(sp@ =~= seq![' ']);
    let hay = chars_of(to_lowercase(string_of(joined.as_slice()).as_str()).as_str());
    player_kind_in(hay.as_slice())
}

/// Drops the suffixes players add to a title: "Song - Live", "Song (feat. X)".
/// A title that is all decoration keeps its own trimmed text, because an empty
/// one matches every song in the results.
pub open spec fn plain_title_spec(title: Seq<char>) -> Seq<char> {
    let before_dash = match find_sub(title, " - "@) {
        Some(i) => title.subrange(0, i),
        None => title,
    };
    let plain = trim(first_piece(before_dash, seq!['(', '（', '[']));
    if plain.len() == 0 {
        trim(title)
    } else {
        plain
    }
}

pub fn plain_title_chars(title: &[char]) -> (r: Vec<char>)
    ensures
        r@ == plain_title_spec(title@),
{
    let dash = chars_of(" - ");
    let before: &[char] = match find_sub_exec(title, dash.as_slice()) {
        Some(i) => {
            proof {
                crate::text::lemma_find_sub_from_some(title@, dash@, 0);
            }
            &title[0..i]
        },
        None => title,
    };
    let seps = ['(', '（', '['];
    assert(seps@ =~= seq!['(', '（', '[']);
    let plain = trim_exec(first_piece_exec(before, &seps).as_slice());
    if plain.len() == 0 {
        trim_exec(title)
    } else {
        plain
    }
}

pub fn plain_title(title: &str) -> (r: String)
    ensures
        r@ == plain_title_spec(title@),
{
    string_of(plain_title_chars(chars_of(title).as_slice()).as_slice())
}

/// The lead artist: the text before the first `,` `&` `/` or `;`, trimmed; a
/// search does worse with the whole billing.
pub open spec fn first_artist_spec(artist: Seq<char>) -> Seq<char> {
    let lead = trim(first_piece(artist, seq![',', '&', '/', ';']));
    if lead.len() == 0 {
        trim(artist)
    } else {
        lead
    }
}

pub fn first_artist_chars(artist: &[char]) -> (r: Vec<char>)
    ensures
        r@ == first_artist_spec(artist@),
{
    let seps = [',', '&', '/', ';'];
    assert(seps@ =~= seq![',', '&', '/', ';']);
    let lead = trim_exec(first_piece_exec(artist, &seps).as_slice());
    if lead.len() == 0 {
        trim_exec(artist)
    } else {
        lead
    }
}

pub fn first_artist(artist: &str) -> (r: String)
    ensures
        r@ == first_artist_spec(artist@),
{
    string_of(first_artist_chars(chars_of(artist).as_slice()).as_slice())
}

// ---------------------------------------------------------------------------
// Query encoding.

pub open spec fn unreserved(b: u8) -> bool {
    ||| 0x41 <= b <= 0x5a
    ||| 0x61 <= b <= 0x7a
    ||| 0x30 <= b <= 0x39
    ||| b == 0x2d
    ||| b == 0x5f
    ||| b == 0x2e
    ||| b == 0x7e
}

pub open spec fn hex_digit(n: u8) -> char {
    if n < 10 {
        ((n + 0x30) as u8) as char
    } else {
        ((n - 10 + 0x41) as u8) as char
    }
}

/// Percent-encoding of a byte: unreserved ASCII stays, everything else is
/// `%XX` with upper-case hex.
pub open spec fn encode_byte(b: u8) -> Seq<char> {
    if unreserved(b) {
        seq![b as char]
    } else {
        seq!['%', hex_digit(b / 16), hex_digit(b % 16)]
    }
}

pub open spec fn encode_bytes(bytes: Seq<u8>) -> Seq<char>
    decreases bytes.len(),
{
    if bytes.len() == 0 {
        Seq::empty()
    } else {
        encode_bytes(bytes.drop_last()) + encode_byte(bytes.last())
    }
}

fn hex_digit_exec(n: u8) -> (r: char)
    requires
        n < 16,
    ensures
        r == hex_digit(n),
{
    if n < 10 {
        (n + 0x30) as char
    } else {
        (n - 10 + 0x41) as char
    }
}

/// Percent-encodes the UTF-8 bytes of `value` for a query string.
pub fn encode(value: &str) -> (r: String)
    ensures
        r@ == encode_bytes(value.spec_bytes()),
{
    let bytes = value.as_bytes();
    let mut out: Vec<char> = Vec::new();
    let mut i: usize = 0;
    while i < bytes.len()
        invariant
            i <= bytes.len(),
            bytes@ == value.spec_bytes(),
            out@ == encode_bytes(bytes@.take(i as int)),
        decreases bytes.len() - i,
    {
        let b = bytes[i];
        assert(bytes@.take(i + 1).drop_last() =~= bytes@.take(i as int));
        let ghost before = out@;
        if (0x41 <= b && b <= 0x5a) || (0x61 <= b && b <= 0x7a) || (0x30 <= b && b <= 0x39) || b
            == 0x2d || b == 0x5f || b == 0x2e || b == 0x7e {
            out.push(b as char);
            assert(out@ =~= before + encode_byte(b));
        } else {
            out.push('%');
            out.push(hex_digit_exec(b / 16));
            out.push(hex_digit_exec(b % 16));
            assert(out@ =~= before + encode_byte(b));
        }
        i = i + 1;
    }
    assert(bytes@.take(bytes.len() as int) =~= bytes@);
    string_of(out.as_slice())
}

// ---------------------------------------------------------------------------
// Response shapes.

/// The JSON inside a callback wrapper such as `MusicJsonCallback({...})`:
/// from the first `{` to the last `}`, or the whole text when there is no
/// such pair.
pub open spec fn strip_jsonp_spec(raw: Seq<char>) -> Seq<char> {
    match (find(raw, '{'), rfind(raw, '}')) {
        (Some(start), Some(end)) => if end > start {
            raw.subrange(start, end + 1)
        } else {
            raw
        },
        _ => raw,
    }
}

pub fn strip_jsonp(raw: &str) -> (r: String)
    ensures
        r@ == strip_jsonp_spec(raw@),
{
    let s = chars_of(raw);
    let start = crate::text::find_char(s.as_slice(), '{');
    let end = crate::text::rfind_char(s.as_slice(), '}');
    proof {
        crate::text::lemma_rfind_before_bounds(s@, '}', s@.len() as int);
    }
    match (start, end) {
        (Some(a), Some(b)) => {
            if b > a {
                string_of(&s.as_slice()[a..b + 1])
            } else {
                string_of(s.as_slice())
            }
        },
        _ => string_of(s.as_slice()),
    }
}

// ---------------------------------------------------------------------------
// Accepting results.

pub open spec fn has_timing_spec(lines: Seq<LineModel>) -> bool {
    lines.len() > 0 && forall|i: int| 0 <= i < lines.len() ==> lines[i].at >= 0
}

/// Whether the lines carry real timestamps: there are some, and none is
/// negative.
pub fn has_timing(lines: &[LyricLine]) -> (r: bool)
    ensures
        r == has_timing_spec(lines_view(lines@)),
{
    if lines.len() == 0 {
        return false;
    }
    let mut i: usize = 0;
    while i < lines.len()
        invariant
            i <= lines.len(),
            forall|k: int| 0 <= k < i ==> lines@[k].at >= 0,
        decreases lines.len() - i,
    {
        if lines[i].at < 0 {
            assert(lines_view(lines@)[i as int].at < 0);
            return false;
        }
        i = i + 1;
    }
    assert forall|k: int| 0 <= k < lines_view(lines@).len() implies lines_view(lines@)[k].at
        >= 0 by {
        assert(lines_view(lines@)[k] == lines@[k]@);
    }
    true
}

/// A result is kept when it is timed and has lines.
pub fn acceptable(result: &FetchedLyrics) -> (r: bool)
    ensures
        r == (result.timed && result.lines@.len() > 0),
{
    result.timed && result.lines.len() > 0
}

// ---------------------------------------------------------------------------
// Translations.

/// The first translation within 50 ms of `at`, scanning from `i`.
pub open spec fn first_near(ts: Seq<LineModel>, at: i64, i: int) -> Option<int>
    decreases ts.len() - i,
{
    if i < 0 || i >= ts.len() {
        None
    } else if -50 < ts[i].at - at < 50 {
        Some(i)
    } else {
        first_near(ts, at, i + 1)
    }
}

/// The translation a line gets: the trimmed text of the first translation
/// with (nearly) the same timestamp, unless that is empty or the line itself.
pub open spec fn translation_for(line: LineModel, ts: Seq<LineModel>) -> Option<Seq<char>> {
    match first_near(ts, line.at, 0) {
        Some(k) => {
            let t = trim(ts[k].text);
            if t.len() > 0 && t != trim(line.text) {
                Some(t)
            } else {
                None
            }
        },
        None => None,
    }
}

pub open spec fn with_translation_spec(lines: Seq<LineModel>, ts: Seq<LineModel>) -> Seq<LineModel> {
    lines.map_values(
        |l: LineModel| LineModel { translation: translation_for(l, ts), ..l },
    )
}

fn translation_exec(line: &LyricLine, ts: &[LyricLine]) -> (r: Option<String>)
    ensures
        opt_view(r) == translation_for(line@, lines_view(ts@)),
{
    let ghost tv = lines_view(ts@);
    let mut i: usize = 0;
    while i < ts.len()
        invariant
            i <= ts.len(),
            tv == lines_view(ts@),
            first_near(tv, line.at, 0) == first_near(tv, line.at, i as int),
        decreases ts.len() - i,
    {
        assert(tv[i as int] == ts@[i as int]@);
        let d = ts[i].at as i128 - line.at as i128;
        if -50 < d && d < 50 {
            let t = trim_exec(chars_of(ts[i].text.as_str()).as_slice());
            let own = trim_exec(chars_of(line.text.as_str()).as_slice());
            if t.len() > 0 && !crate::text::chars_eq(t.as_slice(), own.as_slice()) {
                return Some(string_of(t.as_slice()));
            } else {
                return None;
            }
        }
        i = i + 1;
    }
    None
}

/// Pairs each line with the translation carrying the same timestamp.
pub fn with_translation(lines: Vec<LyricLine>, translations: Vec<LyricLine>) -> (r: Vec<LyricLine>)
    ensures
        lines_view(r@) == with_translation_spec(lines_view(lines@), lines_view(translations@)),
{
    let ghost input = lines@;
    let mut rest = lines;
    let mut out: Vec<LyricLine> = Vec::new();
    while rest.len() > 0
        invariant
            rest@.len() <= input.len(),
            rest@ == input.subrange(input.len() - rest@.len(), input.len() as int),
            lines_view(out@) == with_translation_spec(
                lines_view(input.subrange(0, input.len() - rest@.len())),
                lines_view(translations@),
            ),
        decreases rest@.len(),
    {
        let ghost done = input.len() - rest@.len();
        let mut line = rest.remove(0);
        let translation = translation_exec(&line, translations.as_slice());
        line.translation = translation;
        let ghost before = out@;
        out.push(line);
        assert(rest@ =~= input.subrange(input.len() - rest@.len(), input.len() as int));
        assert(lines_view(out@) =~= with_translation_spec(
            lines_view(input.subrange(0, done + 1)),
            lines_view(translations@),
        )) by {
            assert(lines_view(input.subrange(0, done + 1)) =~= lines_view(
                input.subrange(0, done),
            ).push(input[done]@));
            assert(lines_view(out@) =~= lines_view(before).push(line@));
        }
    }
    assert(input.subrange(0, input.len() as int) =~= input);
    out
}

} // verus!
