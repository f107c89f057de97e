//! The loopback API that writes activity files: reading a request head out of
//! the bytes a client sent, deciding the answer, and writing the response.
//! The socket, the files and the JSON of rows are the caller's.
//!
//! A request with an `Origin` header comes from a browser and is refused
//! (403); one whose `X-Bangs-Token` differs from the stored token is refused
//! (401).

use vstd::prelude::*;
use vstd::utf8::encode_utf8;

use super::{sanitized, Activity, ActivityModel};
use crate::numbers::{digit_char, digits_in, pad_zeros, parse_usize, parse_usize_spec, write_digits, zero_padded};
use crate::text::{
    append_chars, ascii_bytes, ascii_lower, ascii_lower_exec, bytes_as_chars, chars_eq, chars_of,
    find, find_char, lossy_text, owned, utf8_lossy,
    first_piece, first_piece_exec, is_whitespace, is_ws, lemma_find_from_bounds,
    lemma_first_sep_bounds, lemma_skip_ws_bounds, opt_view, rows_view, skip_ws, skip_ws_exec,
    split_lines, starts_with, starts_with_exec, string_of, strip_prefixes, strip_prefixes_exec,
    text_lines, trim, trim_exec,
};

verus! {

/// The most a client may send before the body, and the most body read.
pub const MAX_BODY: usize = 32768;

/// Ids become file names: at most this many characters.
pub const MAX_ID: usize = 64;

// ---------------------------------------------------------------------------
// The end of the head.

pub open spec fn blank_line_at(b: Seq<u8>, i: int) -> bool {
    0 <= i && i + 4 <= b.len() && b[i] == 13 && b[i + 1] == 10 && b[i + 2] == 13 && b[i + 3]
        == 10
}

/// One past the first `\r\n\r\n` at or after `i`.
pub open spec fn head_end_from(b: Seq<u8>, i: int) -> Option<int>
    decreases b.len() - i,
{
    if i < 0 || i + 4 > b.len() {
        None
    } else if blank_line_at(b, i) {
        Some(i + 4)
    } else {
        head_end_from(b, i + 1)
    }
}

/// Where the head ends: just past the blank line that closes the headers.
pub fn find_head_end(buf: &[u8]) -> (r: Option<usize>)
    ensures
        match r {
            Some(k) => head_end_from(buf@, 0) == Some(k as int),
            None => head_end_from(buf@, 0) is None,
        },
{
    let mut i: usize = 0;
    while 4 <= buf.len() - i
        invariant
            i <= buf.len(),
            head_end_from(buf@, 0) == head_end_from(buf@, i as int),
        decreases buf.len() - i,
    {
        if buf[i] == 13 && buf[i + 1] == 10 && buf[i + 2] == 13 && buf[i + 3] == 10 {
            return Some(i + 4);
        }
        i = i + 1;
    }
    None
}

/// Whether a chunk read while waiting for the head is taken: the client
/// has not hung up, and the head stays within `MAX_BODY`.
pub fn accepts_chunk(buffered: usize, read: usize) -> (r: bool)
    ensures
        r == (read != 0 && buffered + read <= MAX_BODY),
{
    read != 0 && read <= MAX_BODY && buffered <= MAX_BODY - read
}

/// How much body to wait for: what `Content-Length` says, up to `MAX_BODY`.
pub fn body_goal(length: usize) -> (r: usize)
    ensures
        r == if length < MAX_BODY {
            length
        } else {
            MAX_BODY
        },
{
    if length < MAX_BODY {
        length
    } else {
        MAX_BODY
    }
}

// ---------------------------------------------------------------------------
// Bytes to text.

/// The body of a request as text.
pub fn body_text(bytes: &[u8]) -> (r: String)
    ensures
        r@ == utf8_lossy(bytes@),
        ascii_bytes(bytes@) ==> r@ == bytes_as_chars(bytes@),
{
    lossy_text(bytes)
}

// ---------------------------------------------------------------------------
// The request line and the headers.

/// One past the end of the word that starts at `i`.
pub open spec fn word_end(s: Seq<char>, i: int) -> int
    decreases s.len() - i,
{
    if 0 <= i < s.len() && !is_ws(s[i]) {
        word_end(s, i + 1)
    } else {
        i
    }
}

proof fn lemma_word_end_bounds(s: Seq<char>, i: int)
    requires
        0 <= i <= s.len(),
    ensures
        i <= word_end(s, i) <= s.len(),
    decreases s.len() - i,
{
    if i < s.len() && !is_ws(s[i]) {
        lemma_word_end_bounds(s, i + 1);
    }
}

/// The first two whitespace-separated words (`split_whitespace`).
pub open spec fn two_words(s: Seq<char>) -> Option<(Seq<char>, Seq<char>)> {
    let a1 = skip_ws(s, 0);
    if a1 >= s.len() {
        None
    } else {
        let e1 = word_end(s, a1);
        let a2 = skip_ws(s, e1);
        if a2 >= s.len() {
            None
        } else {
            Some((s.subrange(a1, e1), s.subrange(a2, word_end(s, a2))))
        }
    }
}

fn word_end_exec(s: &[char], from: usize) -> (r: usize)
    requires
        from <= s.len(),
    ensures
        r == word_end(s@, from as int),
        from <= r <= s.len(),
{
    let mut i = from;
    while i < s.len() && !is_whitespace(s[i])
        invariant
            from <= i <= s.len(),
            word_end(s@, from as int) == word_end(s@, i as int),
        decreases s.len() - i,
    {
        i = i + 1;
    }
    i
}

fn two_words_exec(s: &[char]) -> (r: Option<(Vec<char>, Vec<char>)>)
    ensures
        match r {
            Some((a, b)) => two_words(s@) == Some((a@, b@)),
            None => two_words(s@) is None,
        },
{
    let a1 = skip_ws_exec(s, 0);
    if a1 >= s.len() {
        return None;
    }
    let e1 = word_end_exec(s, a1);
    let a2 = skip_ws_exec(s, e1);
    if a2 >= s.len() {
        return None;
    }
    let e2 = word_end_exec(s, a2);
    Some((vstd::slice::slice_to_vec(&s[a1..e1]), vstd::slice::slice_to_vec(&s[a2..e2])))
}

/// The headers the API reads.
pub struct HeadFields {
    pub token: Option<Seq<char>>,
    pub origin: Option<Seq<char>>,
    pub length: usize,
}

/// One header line: `name: value`, the name compared without ASCII case and
/// the value trimmed. A later header of the same name wins; a length that
/// does not parse counts as 0.
pub open spec fn header_step(f: HeadFields, line: Seq<char>) -> HeadFields {
    match find(line, ':') {
        None => f,
        Some(p) => {
            let name = ascii_lower(line.subrange(0, p));
            let value = trim(line.subrange(p + 1, line.len() as int));
            if name == "x-bangs-token"@ {
                HeadFields { token: Some(value), ..f }
            } else if name == "origin"@ {
                HeadFields { origin: Some(value), ..f }
            } else if name == "content-length"@ {
                HeadFields {
                    length: match parse_usize_spec(value) {
                        Some(n) => n,
                        None => 0,
                    },
                    ..f
                }
            } else {
                f
            }
        },
    }
}

pub open spec fn header_fold(lines: Seq<Seq<char>>, f: HeadFields) -> HeadFields
    decreases lines.len(),
{
    if lines.len() == 0 {
        f
    } else {
        header_fold(lines.drop_first(), header_step(f, lines[0]))
    }
}

pub struct HeadModel {
    pub method: Seq<char>,
    pub path: Seq<char>,
    pub token: Option<Seq<char>>,
    pub origin: Option<Seq<char>>,
    pub length: usize,
}

/// The head of a request, as far as the API reads it.
pub struct RequestHead {
    pub method: String,
    pub path: String,
    pub token: Option<String>,
    /// Browsers set this; command line clients do not.
    pub origin: Option<String>,
    /// `Content-Length`, 0 when absent or unreadable.
    pub length: usize,
}

impl View for RequestHead {
    type V = HeadModel;

    open spec fn view(&self) -> HeadModel {
        HeadModel {
            method: self.method@,
            path: self.path@,
            token: opt_view(self.token),
            origin: opt_view(self.origin),
            length: self.length,
        }
    }
}

/// The head as `read_head` reads it: the request line gives the method and
/// the path; `None` when the text has no line with two words first.
pub open spec fn parse_head_spec(head: Seq<char>) -> Option<HeadModel> {
    let lines = text_lines(head);
    if lines.len() == 0 {
        None
    } else {
        match two_words(lines[0]) {
            None => None,
            Some((m, p)) => {
                let f = header_fold(
                    lines.drop_first(),
                    HeadFields { token: None, origin: None, length: 0 },
                );
                Some(
                    HeadModel {
                        method: m,
                        path: p,
                        token: f.token,
                        origin: f.origin,
                        length: f.length,
                    },
                )
            },
        }
    }
}

pub open spec fn opt_head_view(h: Option<RequestHead>) -> Option<HeadModel> {
    match h {
        Some(x) => Some(x@),
        None => None,
    }
}

fn header_step_exec(
    token: &mut Option<String>,
    origin: &mut Option<String>,
    length: &mut usize,
    line: &[char],
)
    ensures
        ({
            let f = header_step(
                HeadFields { token: opt_view(*old(token)), origin: opt_view(*old(origin)), length: *old(length) },
                line@,
            );
            &&& opt_view(*final(token)) == f.token
            &&& opt_view(*final(origin)) == f.origin
            &&& *final(length) == f.length
        }),
{
    match find_char(line, ':') {
        None => {},
        Some(p) => {
            proof {
                lemma_find_from_bounds(line@, ':', 0);
            }
            let left = &line[0..p];
            let right = &line[p + 1..line.len()];
            assert(line@.subrange(0, p as int) =~= left@);
            assert(line@.subrange(p + 1, line@.len() as int) =~= right@);
            let name = ascii_lower_exec(left);
            let value = trim_exec(right);
            if chars_eq(name.as_slice(), chars_of("x-bangs-token").as_slice()) {
                *token = Some(string_of(value.as_slice()));
            } else if chars_eq(name.as_slice(), chars_of("origin").as_slice()) {
                *origin = Some(string_of(value.as_slice()));
            } else if chars_eq(name.as_slice(), chars_of("content-length").as_slice()) {
                *length = match parse_usize(value.as_slice()) {
                    Some(n) => n,
                    None => 0,
                };
            }
        },
    }
}

/// Reads the request line and the headers out of the head's text.
pub fn parse_head(head: &str) -> (r: Option<RequestHead>)
    ensures
        opt_head_view(r) == parse_head_spec(head@),
{
    let text = chars_of(head);
    let lines = split_lines(text.as_slice());
    let ghost lv = rows_view(lines@);
    if lines.len() == 0 {
        return None;
    }
    assert(lv[0] == lines@[0]@);
    let (method, path) = match two_words_exec(lines[0].as_slice()) {
        None => {
            return None;
        },
        Some(w) => w,
    };
    let mut token: Option<String> = None;
    let mut origin: Option<String> = None;
    let mut length: usize = 0;
    let mut i: usize = 1;
    let ghost init = HeadFields { token: None, origin: None, length: 0 };
    assert(lv.drop_first().subrange(0, lv.len() - 1) =~= lv.drop_first());
    while i < lines.len()
        invariant
            1 <= i <= lines.len(),
            lv == rows_view(lines@),
            lv == text_lines(text@),
            header_fold(lv.drop_first(), init) == header_fold(
                lv.subrange(i as int, lv.len() as int),
                HeadFields { token: opt_view(token), origin: opt_view(origin), length },
            ),
        decreases lines.len() - i,
    {
        let ghost rest = lv.subrange(i as int, lv.len() as int);
        assert(rest[0] == lines@[i as int]@);
        header_step_exec(&mut token, &mut origin, &mut length, lines[i].as_slice());
        assert(rest.drop_first() =~= lv.subrange(i + 1, lv.len() as int));
        i = i + 1;
    }
    assert(lv.subrange(i as int, lv.len() as int) =~= Seq::<Seq<char>>::empty());
    Some(
        RequestHead {
            method: string_of(method.as_slice()),
            path: string_of(path.as_slice()),
            token,
            origin,
            length,
        },
    )
}

/// Reads the head out of the bytes before the blank line.
pub fn read_head(bytes: &[u8]) -> (r: Option<RequestHead>)
    ensures
        opt_head_view(r) == parse_head_spec(utf8_lossy(bytes@)),
{
    let text = lossy_text(bytes);
    parse_head(text.as_str())
}

// ---------------------------------------------------------------------------
// Ids as file names.

pub open spec fn id_char(c: char) -> bool {
    ('a' <= c <= 'z') || ('A' <= c <= 'Z') || ('0' <= c <= '9') || c == '-' || c == '_'
}

/// An id that may become a file name: the trimmed id, when it is made of
/// ASCII letters, digits, `-` and `_` only and has 1 to `MAX_ID` of them.
pub open spec fn safe_name_spec(id: Seq<char>) -> Option<Seq<char>> {
    let t = trim(id);
    if (forall|i: int| 0 <= i < t.len() ==> #[trigger] id_char(t[i])) && 0 < t.len() <= MAX_ID {
        Some(t)
    } else {
        None
    }
}

/// Ids become file names, so they may not wander out of the directory.
pub fn safe_name(id: &str) -> (r: Option<String>)
    ensures
        opt_view(r) == safe_name_spec(id@),
{
    let t = trim_exec(chars_of(id).as_slice());
    if t.len() == 0 || t.len() > MAX_ID {
        return None;
    }
    let mut i: usize = 0;
    while i < t.len()
        invariant
            i <= t.len(),
            t@ == trim(id@),
            forall|k: int| 0 <= k < i ==> #[trigger] id_char(t@[k]),
        decreases t.len() - i,
    {
        let c = t[i];
        if !(('a' <= c && c <= 'z') || ('A' <= c && c <= 'Z') || ('0' <= c && c <= '9') || c == '-'
            || c == '_') {
            assert(!id_char(trim(id@)[i as int]));
            return None;
        }
        i = i + 1;
    }
    Some(string_of(t.as_slice()))
}

// ---------------------------------------------------------------------------
// Answers.

#[derive(PartialEq, Eq, Structural, Clone, Copy, Debug)]
pub enum Status {
    Success,
    BadRequest,
    Unauthorized,
    Forbidden,
    NotFound,
    ServerError,
}

pub open spec fn status_text(s: Status) -> Seq<char> {
    match s {
        Status::Success => "200 OK"@,
        Status::BadRequest => "400 Bad Request"@,
        Status::Unauthorized => "401 Unauthorized"@,
        Status::Forbidden => "403 Forbidden"@,
        Status::NotFound => "404 Not Found"@,
        Status::ServerError => "500 Internal Server Error"@,
    }
}

impl Status {
    /// The status line's code and reason.
    pub fn text(&self) -> (r: String)
        ensures
            r@ == status_text(*self),
    {
        match self {
            Status::Success => owned("200 OK"),
            Status::BadRequest => owned("400 Bad Request"),
            Status::Unauthorized => owned("401 Unauthorized"),
            Status::Forbidden => owned("403 Forbidden"),
            Status::NotFound => owned("404 Not Found"),
            Status::ServerError => owned("500 Internal Server Error"),
        }
    }
}

/// An answer: a status and a JSON body.
pub struct Reply {
    pub status: Status,
    pub body: String,
}

pub struct ReplyModel {
    pub status: Status,
    pub body: Seq<char>,
}

impl View for Reply {
    type V = ReplyModel;

    open spec fn view(&self) -> ReplyModel {
        ReplyModel { status: self.status, body: self.body@ }
    }
}

pub open spec fn reply_model(status: Status, body: Seq<char>) -> ReplyModel {
    ReplyModel { status, body }
}

fn reply(status: Status, body: &str) -> (r: Reply)
    ensures
        r@ == reply_model(status, body@),
{
    Reply { status, body: owned(body) }
}

/// The answer to bytes that are not a request.
pub fn bad_request() -> (r: Reply)
    ensures
        r@ == reply_model(Status::BadRequest, "{\"error\":\"bad request\"}"@),
{
    reply(Status::BadRequest, "{\"error\":\"bad request\"}")
}

/// The answer to a request that was carried out.
pub fn done() -> (r: Reply)
    ensures
        r@ == reply_model(Status::Success, "{\"ok\":true}"@),
{
    reply(Status::Success, "{\"ok\":true}")
}

/// What the API does with a request that got past the checks.
pub enum Route {
    Answer(Reply),
    /// Answer with the rows, as JSON.
    List,
    /// Read the body as a row and write it.
    Post,
    /// Remove the file of this name.
    Delete(String),
}

pub enum RouteModel {
    Answer(ReplyModel),
    List,
    Post,
    Delete(Seq<char>),
}

pub open spec fn route_view(r: Route) -> RouteModel {
    match r {
        Route::Answer(x) => RouteModel::Answer(x@),
        Route::List => RouteModel::List,
        Route::Post => RouteModel::Post,
        Route::Delete(f) => RouteModel::Delete(f@),
    }
}

pub open spec fn route_spec(h: HeadModel, stored: Option<Seq<char>>, has_dir: bool) -> RouteModel {
    if h.origin is Some {
        RouteModel::Answer(reply_model(Status::Forbidden, "{\"error\":\"not for browsers\"}"@))
    } else if stored is None || stored != h.token {
        RouteModel::Answer(
            reply_model(Status::Unauthorized, "{\"error\":\"bad or missing X-Bangs-Token\"}"@),
        )
    } else if !has_dir {
        RouteModel::Answer(reply_model(Status::ServerError, "{\"error\":\"no config directory\"}"@))
    } else {
        let path = first_piece(h.path, seq!['?']);
        if h.method == "GET"@ && path == "/activities"@ {
            RouteModel::List
        } else if h.method == "POST"@ && path == "/activity"@ {
            RouteModel::Post
        } else if h.method == "DELETE"@ && starts_with(path, "/activity/"@) {
            match safe_name_spec(strip_prefixes(path, "/activity/"@)) {
                Some(f) => RouteModel::Delete(f),
                None => RouteModel::Answer(reply_model(Status::BadRequest, "{\"error\":\"bad id\"}"@)),
            }
        } else {
            RouteModel::Answer(reply_model(Status::NotFound, "{\"error\":\"try POST /activity\"}"@))
        }
    }
}

fn same_opt_text(a: &Option<String>, b: &Option<String>) -> (r: bool)
    ensures
        r == (opt_view(*a) == opt_view(*b)),
{
    match (a, b) {
        (Some(x), Some(y)) => chars_eq(chars_of(x.as_str()).as_slice(), chars_of(y.as_str()).as_slice()),
        (None, None) => true,
        _ => false,
    }
}

/// Whether a request gets past the browser and token checks: no browser
/// sent it, a token is stored, and the request carries that token.
pub fn admitted(head: &RequestHead, stored: &Option<String>) -> (r: bool)
    ensures
        r == (head@.origin is None && opt_view(*stored) is Some && opt_view(*stored) == head@.token),
{
    head.origin.is_none() && stored.is_some() && same_opt_text(stored, &head.token)
}

/// Decides what a request gets: a browser is refused, then every request
/// when no token is stored and any request without the stored token, then
/// everything when there is no directory to write;
/// then the method and the path (without its query) choose.
pub fn route(head: &RequestHead, stored: &Option<String>, has_dir: bool) -> (r: Route)
    ensures
        route_view(r) == route_spec(head@, opt_view(*stored), has_dir),
{
    if head.origin.is_some() {
        return Route::Answer(reply(Status::Forbidden, "{\"error\":\"not for browsers\"}"));
    }
    if stored.is_none() || !same_opt_text(stored, &head.token) {
        return Route::Answer(
            reply(Status::Unauthorized, "{\"error\":\"bad or missing X-Bangs-Token\"}"),
        );
    }
    if !has_dir {
        return Route::Answer(reply(Status::ServerError, "{\"error\":\"no config directory\"}"));
    }
    let q: [char; 1] = ['?'];
    assert(q@ =~= seq!['?']);
    let path = first_piece_exec(chars_of(head.path.as_str()).as_slice(), q.as_slice());
    let method = chars_of(head.method.as_str());
    if chars_eq(method.as_slice(), chars_of("GET").as_slice()) && chars_eq(
        path.as_slice(),
        chars_of("/activities").as_slice(),
    ) {
        Route::List
    } else if chars_eq(method.as_slice(), chars_of("POST").as_slice()) && chars_eq(
        path.as_slice(),
        chars_of("/activity").as_slice(),
    ) {
        Route::Post
    } else if chars_eq(method.as_slice(), chars_of("DELETE").as_slice()) && starts_with_exec(
        path.as_slice(),
        chars_of("/activity/").as_slice(),
    ) {
        let rest = strip_prefixes_exec(path.as_slice(), chars_of("/activity/").as_slice());
        match safe_name(string_of(rest.as_slice()).as_str()) {
            Some(f) => Route::Delete(f),
            None => Route::Answer(reply(Status::BadRequest, "{\"error\":\"bad id\"}")),
        }
    } else {
        Route::Answer(reply(Status::NotFound, "{\"error\":\"try POST /activity\"}"))
    }
}

/// What a posted row leads to.
pub enum PostStep {
    Answer(Reply),
    /// Write the row to the file of this name.
    Write(String, Activity),
}

/// Takes the body of a `POST /activity`, read as a row (`None` when it is
/// not one). The row is sanitized and stamped with `now`; its id must be
/// given, since there is no file name to fall back on, and must be safe as a
/// file name.
pub fn post_step(parsed: Option<Activity>, now: u64) -> (r: PostStep)
    ensures
        match parsed {
            None => r matches PostStep::Answer(a) && a@ == reply_model(
                Status::BadRequest,
                "{\"error\":\"body is not an activity\"}"@,
            ),
            Some(p) => match sanitized(p@, Seq::empty(), now) {
                None => r matches PostStep::Answer(a) && a@ == reply_model(
                    Status::BadRequest,
                    "{\"error\":\"id and title are required\"}"@,
                ),
                Some(s) => match safe_name_spec(s.id) {
                    None => r matches PostStep::Answer(a) && a@ == reply_model(
                        Status::BadRequest,
                        "{\"error\":\"id must be letters, digits, - or _\"}"@,
                    ),
                    Some(f) => r matches PostStep::Write(name, row) && name@ == f && row@ == s,
                },
            },
        },
{
    match parsed {
        None => PostStep::Answer(reply(Status::BadRequest, "{\"error\":\"body is not an activity\"}")),
        Some(p) => {
            let empty = String::new();
            assert(empty@ =~= Seq::<char>::empty());
            match p.sanitize(empty, now) {
                None => PostStep::Answer(
                    reply(Status::BadRequest, "{\"error\":\"id and title are required\"}"),
                ),
                Some(s) => match safe_name(s.id.as_str()) {
                    None => PostStep::Answer(
                        reply(Status::BadRequest, "{\"error\":\"id must be letters, digits, - or _\"}"),
                    ),
                    Some(f) => PostStep::Write(f, s),
                },
            }
        },
    }
}

/// The file a row of this safe name lives in.
pub fn file_name(name: &str) -> (r: String)
    ensures
        r@ == name@ + ".json"@,
{
    let c = crate::text::concat(chars_of(name).as_slice(), chars_of(".json").as_slice());
    string_of(c.as_slice())
}

/// How serde_json writes one character inside a JSON string: `"` and `\\`
/// after a backslash; backspace, form feed, line feed, carriage return and
/// tab as `\b \f \n \r \t`; any other character below U+0020 as `\u00`
/// and two lower-case hex digits; everything else as it is.
pub open spec fn json_escape(c: char) -> Seq<char> {
    if c == '\u{22}' {
        seq!['\u{5c}', '\u{22}']
    } else if c == '\u{5c}' {
        seq!['\u{5c}', '\u{5c}']
    } else if c == '\u{8}' {
        seq!['\u{5c}', 'b']
    } else if c == '\u{c}' {
        seq!['\u{5c}', 'f']
    } else if c == '\n' {
        seq!['\u{5c}', 'n']
    } else if c == '\r' {
        seq!['\u{5c}', 'r']
    } else if c == '\t' {
        seq!['\u{5c}', 't']
    } else if (c as u32) < 0x20 {
        seq!['\u{5c}', 'u', '0', '0', digit_char((c as u32 / 16) as nat), digit_char((c as u32 % 16) as nat)]
    } else {
        seq![c]
    }
}

pub open spec fn json_escaped(s: Seq<char>) -> Seq<char>
    decreases s.len(),
{
    if s.len() == 0 {
        Seq::empty()
    } else {
        json_escaped(s.drop_last()) + json_escape(s.last())
    }
}

/// What `serde_json::to_string` writes for a string: the JSON string
/// literal, each character escaped as `json_escape` says, in quotes.
pub open spec fn json_quoted(s: Seq<char>) -> Seq<char> {
    seq!['\u{22}'] + json_escaped(s) + seq!['\u{22}']
}

/// `serde_json::to_string` on a string. Serialising a `str` writes into a
/// `Vec` and cannot fail, so the result is always there.
#[verifier::external_body]
fn json_string(s: &str) -> (r: Option<String>)
    ensures
        r is Some,
        r matches Some(t) ==> t@ == json_quoted(s@),
{
    serde_json::to_string(s).ok()
}

/// The answer when writing the file failed with this message: the message
/// as a JSON string under `error`.
pub fn write_failed(message: &str) -> (r: Reply)
    ensures
        r.status == Status::ServerError,
        r.body@ == "{\"error\":"@ + json_quoted(message@) + "}"@,
{
    let quoted = match json_string(message) {
        Some(q) => chars_of(q.as_str()),
        None => Vec::new(),
    };
    let head = chars_of("{\"error\":");
    let tail = chars_of("}");
    proof {
        reveal_strlit("{\"error\":");
        reveal_strlit("}");
    }
    let mut all = crate::text::concat(head.as_slice(), quoted.as_slice());
    append_chars(&mut all, tail.as_slice());
    assert(all@ =~= "{\"error\":"@ + quoted@ + "}"@);
    Reply { status: Status::ServerError, body: string_of(all.as_slice()) }
}

// ---------------------------------------------------------------------------
// The response.

/// The bytes of a response, as text: the status line, the JSON content
/// type, the body's length in UTF-8 bytes, `Connection: close`, the body.
pub open spec fn response_spec(r: ReplyModel) -> Seq<char> {
    "HTTP/1.1 "@ + status_text(r.status)
        + "\r\nContent-Type: application/json; charset=utf-8\r\nContent-Length: "@ + digits_in(
        (encode_utf8(r.body).len() as usize) as nat,
        10,
    ) + "\r\nConnection: close\r\n\r\n"@ + r.body
}

pub fn response_text(r: &Reply) -> (t: String)
    ensures
        t@ == response_spec(r@),
{
    let status = r.status.text();
    let len = r.body.as_str().len();
    let digits = write_digits(len as u64, 10);
    let mut out = chars_of("HTTP/1.1 ");
    append_chars(&mut out, chars_of(status.as_str()).as_slice());
    append_chars(
        &mut out,
        chars_of("\r\nContent-Type: application/json; charset=utf-8\r\nContent-Length: ").as_slice(),
    );
    append_chars(&mut out, digits.as_slice());
    append_chars(&mut out, chars_of("\r\nConnection: close\r\n\r\n").as_slice());
    append_chars(&mut out, chars_of(r.body.as_str()).as_slice());
    assert(out@ =~= response_spec(r@));
    string_of(out.as_slice())
}

// ---------------------------------------------------------------------------
// The shared secret.

/// A stored token: the file's text, trimmed, unless nothing is left.
pub open spec fn stored_token_spec(text: Seq<char>) -> Option<Seq<char>> {
    if trim(text).len() > 0 {
        Some(trim(text))
    } else {
        None
    }
}

pub fn stored_token(text: &str) -> (r: Option<String>)
    ensures
        opt_view(r) == stored_token_spec(text@),
{
    let t = trim_exec(chars_of(text).as_slice());
    if t.len() > 0 {
        Some(string_of(t.as_slice()))
    } else {
        None
    }
}

/// A new token from random words: each written as 16 lower-case hex digits.
pub open spec fn token_text(words: Seq<u64>) -> Seq<char>
    decreases words.len(),
{
    if words.len() == 0 {
        Seq::empty()
    } else {
        token_text(words.drop_last()) + zero_padded(digits_in(words.last() as nat, 16), 16)
    }
}

pub fn token_from_words(words: &[u64]) -> (r: String)
    ensures
        r@ == token_text(words@),
{
    let mut out: Vec<char> = Vec::new();
    let mut i: usize = 0;
    while i < words.len()
        invariant
            i <= words.len(),
            out@ == token_text(words@.take(i as int)),
        decreases words.len() - i,
    {
        let hex = write_digits(words[i], 16);
        let padded = pad_zeros(hex.as_slice(), 16);
        append_chars(&mut out, padded.as_slice());
        i = i + 1;
        assert(words@.take(i as int).drop_last() =~= words@.take(i - 1));
    }
    assert(words@.take(words.len() as int) =~= words@);
    string_of(out.as_slice())
}

// ---------------------------------------------------------------------------
// What every request is answered.

/// A request from a browser (one with an `Origin` header) is refused with
/// 403, whatever else it carries, and reads or writes nothing.
pub proof fn lemma_browsers_refused(h: HeadModel, stored: Option<Seq<char>>, has_dir: bool)
    requires
        h.origin is Some,
    ensures
        route_spec(h, stored, has_dir) == RouteModel::Answer(
            reply_model(Status::Forbidden, "{\"error\":\"not for browsers\"}"@),
        ),
{
}

/// Every request needs the token: without a stored token, or with a token
/// that differs from it, a request (that no browser sent) is refused with
/// 401, and only a request carrying the stored token reaches the rows.
pub proof fn lemma_token_required(h: HeadModel, stored: Option<Seq<char>>, has_dir: bool)
    ensures
        h.origin is None && (stored is None || h.token != stored) ==> route_spec(h, stored, has_dir)
            == RouteModel::Answer(
            reply_model(Status::Unauthorized, "{\"error\":\"bad or missing X-Bangs-Token\"}"@),
        ),
        !(route_spec(h, stored, has_dir) is Answer) ==> stored is Some && h.token == stored,
{
}

/// A file is only ever removed under a safe name: 1 to `MAX_ID` ASCII
/// letters, digits, `-` and `_`, so it stays inside the directory.
pub proof fn lemma_delete_names_safe(h: HeadModel, stored: Option<Seq<char>>, has_dir: bool)
    ensures
        route_spec(h, stored, has_dir) matches RouteModel::Delete(f) ==> {
            &&& 0 < f.len() <= MAX_ID
            &&& forall|i: int| 0 <= i < f.len() ==> #[trigger] id_char(f[i])
        },
{
    let path = first_piece(h.path, seq!['?']);
    let t = trim(strip_prefixes(path, "/activity/"@));
    if safe_name_spec(strip_prefixes(path, "/activity/"@)) is Some {
        assert(safe_name_spec(strip_prefixes(path, "/activity/"@)) == Some(t));
    }
}

} // verus!
