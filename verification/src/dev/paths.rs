//! Paths as the developer panel reads them: a project's name, the path a
//! `file://` URI names, and the branch a `.git/HEAD` points at.

use vstd::prelude::*;

use crate::text::{
    append_chars, chars_of, contains, contains_exec, lossy_text, opt_view, owned, split_on,
    split_on_exec,
    starts_with, starts_with_exec, string_of, trim, trim_exec, utf8_lossy,
};

verus! {

// ---------------------------------------------------------------------------
// The last component of a path.

/// A component that names something: not empty (a doubled or trailing `/`)
/// and not `.`.
pub open spec fn names_something(piece: Seq<char>) -> bool {
    piece.len() > 0 && piece != seq!['.']
}

/// The last naming component of a path's pieces.
pub open spec fn last_named(pieces: Seq<Seq<char>>) -> Option<Seq<char>>
    decreases pieces.len(),
{
    if pieces.len() == 0 {
        None
    } else if names_something(pieces.last()) {
        Some(pieces.last())
    } else {
        last_named(pieces.drop_last())
    }
}

/// What separates the components of a path: `/`, and on Windows `\\` too.
pub open spec fn separators(on_windows: bool) -> Seq<char> {
    if on_windows {
        seq!['/', '\\']
    } else {
        seq!['/']
    }
}

/// A Windows drive designator (`C:`) at the start of a piece.
pub open spec fn has_drive(piece: Seq<char>) -> bool {
    piece.len() >= 2 && (('a' <= piece[0] <= 'z') || ('A' <= piece[0] <= 'Z')) && piece[1] == ':'
}

/// On Windows the drive designator in front of the first component is not
/// part of any component.
pub open spec fn without_drive(pieces: Seq<Seq<char>>, on_windows: bool) -> Seq<Seq<char>> {
    if on_windows && pieces.len() > 0 && has_drive(pieces[0]) {
        pieces.update(0, pieces[0].skip(2))
    } else {
        pieces
    }
}

/// The last component of a path (`Path::file_name` on this platform): none
/// when there is none or it is `..`. On Windows, paths with a UNC or
/// verbatim (`\\?\`) prefix are read as plain paths.
pub open spec fn file_name_spec(path: Seq<char>, on_windows: bool) -> Option<Seq<char>> {
    match last_named(without_drive(split_on(path, separators(on_windows)), on_windows)) {
        Some(name) => if name == seq!['.', '.'] {
            None
        } else {
            Some(name)
        },
        None => None,
    }
}

pub fn file_name(path: &str, on_windows: bool) -> (r: Option<String>)
    ensures
        opt_view(r) == file_name_spec(path@, on_windows),
{
    let text = chars_of(path);
    let seps: Vec<char> = if on_windows {
        vec!['/', '\\']
    } else {
        vec!['/']
    };
    assert(seps@ =~= separators(on_windows));
    let mut pieces = split_on_exec(text.as_slice(), seps.as_slice());
    let ghost split = split_on(path@, separators(on_windows));
    assert(pieces@.map_values(|v: Vec<char>| v@) == split);
    if on_windows && pieces.len() > 0 {
        let first = &pieces[0];
        let drive = first.len() >= 2 && (('a' <= first[0] && first[0] <= 'z') || ('A' <= first[0]
            && first[0] <= 'Z')) && first[1] == ':';
        if drive {
            let rest = vstd::slice::slice_to_vec(&first[2..first.len()]);
            assert(rest@ =~= split[0].skip(2));
            pieces.set(0, rest);
        }
    }
    let ghost pv = pieces@.map_values(|v: Vec<char>| v@);
    assert(pv =~= without_drive(split, on_windows));
    let mut i = pieces.len();
    assert(pv.subrange(0, pv.len() as int) =~= pv);
    while i > 0
        invariant
            i <= pieces.len(),
            pv == pieces@.map_values(|v: Vec<char>| v@),
            pv == without_drive(split_on(path@, separators(on_windows)), on_windows),
            last_named(pv) == last_named(pv.subrange(0, i as int)),
        decreases i,
    {
        let piece = &pieces[i - 1];
        let ghost pre = pv.subrange(0, i as int);
        assert(pre.last() == piece@);
        let named = piece.len() > 0 && !(piece.len() == 1 && piece[0] == '.');
        assert(named == names_something(piece@)) by {
            if piece@.len() == 1 && piece@[0] == '.' {
                assert(piece@ =~= seq!['.']);
            }
        }
        if named {
            let dots = piece.len() == 2 && piece[0] == '.' && piece[1] == '.';
            assert(dots == (piece@ == seq!['.', '.'])) by {
                if piece@.len() == 2 && piece@[0] == '.' && piece@[1] == '.' {
                    assert(piece@ =~= seq!['.', '.']);
                }
            }
            if dots {
                return None;
            }
            return Some(string_of(piece.as_slice()));
        }
        assert(pre.drop_last() =~= pv.subrange(0, i - 1));
        i = i - 1;
    }
    assert(pv.subrange(0, 0) =~= Seq::<Seq<char>>::empty());
    None
}

/// A project is named after its folder: the path's last component, or the
/// whole path when it has none.
pub open spec fn project_name_spec(path: Seq<char>, on_windows: bool) -> Seq<char> {
    match file_name_spec(path, on_windows) {
        Some(name) => name,
        None => path,
    }
}

pub fn project_name(path: &str, on_windows: bool) -> (r: String)
    ensures
        r@ == project_name_spec(path@, on_windows),
{
    match file_name(path, on_windows) {
        Some(name) => name,
        None => owned(path),
    }
}

// ---------------------------------------------------------------------------
// `file://` URIs.

pub open spec fn hex_value(c: char) -> Option<nat> {
    if '0' <= c <= '9' {
        Some((c as u32 - '0' as u32) as nat)
    } else if 'a' <= c <= 'f' {
        Some((c as u32 - 'a' as u32 + 10) as nat)
    } else if 'A' <= c <= 'F' {
        Some((c as u32 - 'A' as u32 + 10) as nat)
    } else {
        None
    }
}

/// `u8::from_str_radix(h, 16)` for a text of at most two characters: an
/// optional `+` before at least one hexadecimal digit.
pub open spec fn hex_byte(h: Seq<char>) -> Option<u8>
    recommends
        h.len() <= 2,
{
    let d = if h.len() > 1 && h[0] == '+' {
        h.drop_first()
    } else {
        h
    };
    if d.len() == 1 {
        match hex_value(d[0]) {
            Some(v) => Some(v as u8),
            None => None,
        }
    } else if d.len() == 2 {
        match (hex_value(d[0]), hex_value(d[1])) {
            (Some(a), Some(b)) => Some((16 * a + b) as u8),
            _ => None,
        }
    } else {
        None
    }
}

/// Decoded bytes waiting to be written out as text.
pub open spec fn flush(out: Seq<char>, pending: Seq<u8>) -> Seq<char> {
    if pending.len() == 0 {
        out
    } else {
        out + utf8_lossy(pending)
    }
}

/// Percent-decoding of the rest of a URI. `%` takes the next two
/// characters (fewer at the end); when they are a hexadecimal byte it is
/// kept, and runs of such bytes become text together. Otherwise the `%` is
/// kept as it is and the characters it took are gone.
pub open spec fn decode_from(s: Seq<char>, out: Seq<char>, pending: Seq<u8>) -> Seq<char>
    decreases s.len(),
{
    if s.len() == 0 {
        flush(out, pending)
    } else if s[0] == '%' {
        let n = if s.len() - 1 < 2 {
            s.len() - 1
        } else {
            2
        };
        let rest = s.subrange(1 + n, s.len() as int);
        match hex_byte(s.subrange(1, 1 + n)) {
            Some(b) => decode_from(rest, out, pending.push(b)),
            None => decode_from(rest, flush(out, pending).push('%'), Seq::empty()),
        }
    } else {
        decode_from(s.drop_first(), flush(out, pending).push(s[0]), Seq::empty())
    }
}

pub open spec fn file_scheme() -> Seq<char> {
    seq!['f', 'i', 'l', 'e', ':', '/', '/']
}

/// The path a URI names: `None` for a scheme other than `file`. A decoded
/// path of the form `/c:/dev` loses its leading `/`, as Windows paths do.
pub open spec fn path_from_uri_spec(uri: Seq<char>) -> Option<Seq<char>> {
    if !starts_with(uri, file_scheme()) {
        None
    } else {
        let d = decode_from(uri.subrange(7, uri.len() as int), Seq::empty(), Seq::empty());
        if d.len() > 0 && d[0] == '/' && contains(d.drop_first(), seq![':']) {
            Some(d.drop_first())
        } else {
            Some(d)
        }
    }
}

fn hex_value_exec(c: char) -> (r: Option<u8>)
    ensures
        match hex_value(c) {
            Some(v) => r == Some(v as u8) && v < 16,
            None => r is None,
        },
{
    if '0' <= c && c <= '9' {
        Some((c as u32 - '0' as u32) as u8)
    } else if 'a' <= c && c <= 'f' {
        Some((c as u32 - 'a' as u32 + 10) as u8)
    } else if 'A' <= c && c <= 'F' {
        Some((c as u32 - 'A' as u32 + 10) as u8)
    } else {
        None
    }
}

fn hex_byte_exec(h: &[char]) -> (r: Option<u8>)
    requires
        h.len() <= 2,
    ensures
        r == hex_byte(h@),
{
    let d = if h.len() > 1 && h[0] == '+' {
        &h[1..h.len()]
    } else {
        h
    };
    assert(h.len() > 1 && h@[0] == '+' ==> d@ =~= h@.drop_first());
    if d.len() == 1 {
        hex_value_exec(d[0])
    } else if d.len() == 2 {
        match (hex_value_exec(d[0]), hex_value_exec(d[1])) {
            (Some(a), Some(b)) => Some(16 * a + b),
            _ => None,
        }
    } else {
        None
    }
}

fn flush_exec(out: &mut Vec<char>, pending: &mut Vec<u8>)
    ensures
        final(out)@ == flush(old(out)@, old(pending)@),
        final(pending)@ == Seq::<u8>::empty(),
{
    if pending.len() > 0 {
        let text = lossy_text(pending.as_slice());
        append_chars(out, chars_of(text.as_str()).as_slice());
        pending.clear();
    }
}

/// `file:///Users/me/dev` → `/Users/me/dev`; other schemes give `None`.
pub fn path_from_uri(uri: &str) -> (r: Option<String>)
    ensures
        match path_from_uri_spec(uri@) {
            Some(p) => r matches Some(x) && x@ == p,
            None => r is None,
        },
{
    let text = chars_of(uri);
    let scheme: [char; 7] = ['f', 'i', 'l', 'e', ':', '/', '/'];
    assert(scheme@ =~= file_scheme());
    if !starts_with_exec(text.as_slice(), scheme.as_slice()) {
        return None;
    }
    let ghost s = uri@.subrange(7, uri@.len() as int);
    let mut out: Vec<char> = Vec::new();
    let mut pending: Vec<u8> = Vec::new();
    let mut i: usize = 7;
    assert(uri@.subrange(7, uri@.len() as int) =~= s);
    while i < text.len()
        invariant
            7 <= i <= text.len(),
            text@ == uri@,
            decode_from(s, Seq::empty(), Seq::empty()) == decode_from(
                text@.subrange(i as int, text@.len() as int),
                out@,
                pending@,
            ),
        decreases text.len() - i,
    {
        let ghost rest = text@.subrange(i as int, text@.len() as int);
        let c = text[i];
        assert(rest[0] == c);
        if c == '%' {
            let n: usize = if text.len() - i - 1 < 2 {
                text.len() - i - 1
            } else {
                2
            };
            let h = &text[i + 1..i + 1 + n];
            assert(h@ =~= rest.subrange(1, 1 + n as int));
            assert(rest.subrange(1 + n as int, rest.len() as int) =~= text@.subrange(
                (i + 1 + n) as int,
                text@.len() as int,
            ));
            match hex_byte_exec(h) {
                Some(b) => {
                    pending.push(b);
                },
                None => {
                    flush_exec(&mut out, &mut pending);
                    out.push('%');
                },
            }
            i = i + 1 + n;
        } else {
            flush_exec(&mut out, &mut pending);
            out.push(c);
            assert(rest.drop_first() =~= text@.subrange(i + 1, text@.len() as int));
            i = i + 1;
        }
    }
    flush_exec(&mut out, &mut pending);
    assert(text@.subrange(i as int, text@.len() as int) =~= Seq::<char>::empty());
    let ghost d = out@;
    if out.len() > 0 && out[0] == '/' {
        let tail = vstd::slice::slice_to_vec(&out[1..out.len()]);
        assert(tail@ =~= d.drop_first());
        let colon: [char; 1] = [':'];
        assert(colon@ =~= seq![':']);
        if contains_exec(tail.as_slice(), colon.as_slice()) {
            return Some(string_of(tail.as_slice()));
        }
    }
    Some(string_of(out.as_slice()))
}

// ---------------------------------------------------------------------------
// The branch in `.git/HEAD`.

/// How many bytes UTF-8 spends on a character.
pub open spec fn utf8_width(c: char) -> int {
    if (c as u32) < 0x80 {
        1
    } else if (c as u32) < 0x800 {
        2
    } else if (c as u32) < 0x10000 {
        3
    } else {
        4
    }
}

/// The characters that make up exactly the first `n` bytes, if a character
/// does not straddle byte `n` (`str::get(..n)`).
pub open spec fn prefix_of_bytes(s: Seq<char>, n: int) -> Option<Seq<char>>
    decreases s.len(),
{
    if n <= 0 {
        Some(Seq::empty())
    } else if s.len() == 0 || utf8_width(s[0]) > n {
        None
    } else {
        match prefix_of_bytes(s.drop_first(), n - utf8_width(s[0])) {
            Some(p) => Some(seq![s[0]] + p),
            None => None,
        }
    }
}

pub open spec fn branch_ref() -> Seq<char> {
    "ref: refs/heads/"@
}

/// The branch a `.git/HEAD` names, or for a detached head the first seven
/// bytes of the commit it holds (`None` when it is shorter).
pub open spec fn branch_of_head_spec(text: Seq<char>) -> Option<Seq<char>> {
    let t = trim(text);
    if starts_with(t, branch_ref()) {
        Some(t.subrange(branch_ref().len() as int, t.len() as int))
    } else {
        prefix_of_bytes(t, 7)
    }
}

fn width_exec(c: char) -> (r: usize)
    ensures
        r == utf8_width(c),
{
    let u = c as u32;
    if u < 0x80 {
        1
    } else if u < 0x800 {
        2
    } else if u < 0x10000 {
        3
    } else {
        4
    }
}

fn prefix_of_bytes_exec(s: &[char], n: usize) -> (r: Option<Vec<char>>)
    ensures
        match prefix_of_bytes(s@, n as int) {
            Some(p) => r matches Some(v) && v@ == p,
            None => r is None,
        },
{
    let mut i: usize = 0;
    let mut left: usize = n;
    assert(s@.subrange(0, s@.len() as int) =~= s@);
    assert forall|p: Seq<char>| #[trigger] (s@.subrange(0, 0) + p) == p by {
        assert(s@.subrange(0, 0) + p =~= p);
    }
    while left > 0
        invariant
            i <= s.len(),
            left <= n,
            prefix_of_bytes(s@, n as int) == match prefix_of_bytes(
                s@.subrange(i as int, s@.len() as int),
                left as int,
            ) {
                Some(p) => Some(s@.subrange(0, i as int) + p),
                None => None,
            },
        decreases left,
    {
        let ghost rest = s@.subrange(i as int, s@.len() as int);
        if i == s.len() {
            return None;
        }
        let w = width_exec(s[i]);
        assert(rest[0] == s@[i as int]);
        if w > left {
            return None;
        }
        assert(rest.drop_first() =~= s@.subrange(i + 1, s@.len() as int));
        assert(s@.subrange(0, i + 1) =~= s@.subrange(0, i as int) + seq![s@[i as int]]);
        proof {
            let tail = prefix_of_bytes(rest.drop_first(), left - w);
            if let Some(p) = tail {
                assert(s@.subrange(0, i + 1) + p =~= s@.subrange(0, i as int) + (seq![s@[i as int]] + p));
            }
        }
        left = left - w;
        i = i + 1;
    }
    assert(s@.subrange(0, i as int) + Seq::<char>::empty() =~= s@.subrange(0, i as int));
    Some(vstd::slice::slice_to_vec(&s[0..i]))
}

/// Reads the branch out of the text of `.git/HEAD`.
pub fn branch_of_head(text: &str) -> (r: Option<String>)
    ensures
        match branch_of_head_spec(text@) {
            Some(b) => r matches Some(x) && x@ == b,
            None => r is None,
        },
{
    let t = trim_exec(chars_of(text).as_slice());
    let prefix = chars_of("ref: refs/heads/");
    if starts_with_exec(t.as_slice(), prefix.as_slice()) {
        let rest = vstd::slice::slice_to_vec(&t[prefix.len()..t.len()]);
        return Some(string_of(rest.as_slice()));
    }
    match prefix_of_bytes_exec(t.as_slice(), 7) {
        Some(p) => Some(string_of(p.as_slice())),
        None => None,
    }
}

} // verus!
