//! Character-level text operations on `Seq<char>` models, with the executable
//! versions that the parsers and matchers of this crate are built from.

use vstd::prelude::*;

verus! {

/// Unicode `White_Space`: the characters that `char::is_whitespace` accepts.
pub open spec fn is_ws(c: char) -> bool {
    let u = c as u32;
    ||| 0x09 <= u <= 0x0d
    ||| u == 0x20
    ||| u == 0x85
    ||| u == 0xa0
    ||| u == 0x1680
    ||| 0x2000 <= u <= 0x200a
    ||| u == 0x2028
    ||| u == 0x2029
    ||| u == 0x202f
    ||| u == 0x205f
    ||| u == 0x3000
}

pub fn is_whitespace(c: char) -> (r: bool)
    ensures
        r == is_ws(c),
{
    let u = c as u32;
    (0x09 <= u && u <= 0x0d) || u == 0x20 || u == 0x85 || u == 0xa0 || u == 0x1680 || (0x2000 <= u
        && u <= 0x200a) || u == 0x2028 || u == 0x2029 || u == 0x202f || u == 0x205f || u == 0x3000
}

/// The characters of a string slice.
pub fn chars_of(s: &str) -> (r: Vec<char>)
    ensures
        r@ == s@,
{
    broadcast use vstd::string::axiom_spec_iter;
    let mut out: Vec<char> = Vec::new();
    for c in it: s.chars()
        invariant
            out@ == it.seq().take(it.index() as int),
            it.seq() == s@,
    {
        out.push(c);
    }
    out
}

/// What `String::from_utf8_lossy` makes of these bytes.
pub uninterp spec fn utf8_lossy(bytes: Seq<u8>) -> Seq<char>;

pub open spec fn ascii_bytes(b: Seq<u8>) -> bool {
    forall|i: int| 0 <= i < b.len() ==> #[trigger] b[i] < 128
}

pub open spec fn bytes_as_chars(b: Seq<u8>) -> Seq<char> {
    b.map_values(|x: u8| x as char)
}

/// `String::from_utf8_lossy`: invalid sequences become U+FFFD. Its result is
/// a function of the bytes; of its value only the ASCII case is stated,
/// where each byte is its own character.
#[verifier::external_body]
pub(crate) fn lossy_text(bytes: &[u8]) -> (r: String)
    ensures
        r@ == utf8_lossy(bytes@),
        ascii_bytes(bytes@) ==> r@ == bytes_as_chars(bytes@),
{
    String::from_utf8_lossy(bytes).into_owned()
}

/// An owned copy of a string slice.
pub fn owned(s: &str) -> (r: String)
    ensures
        r@ == s@,
{
    string_of(chars_of(s).as_slice())
}

/// The text an optional string holds.
pub open spec fn opt_view(s: Option<String>) -> Option<Seq<char>> {
    match s {
        Some(t) => Some(t@),
        None => None,
    }
}

pub fn clone_opt(s: &Option<String>) -> (r: Option<String>)
    ensures
        opt_view(r) == opt_view(*s),
{
    match s {
        Some(t) => Some(t.clone()),
        None => None,
    }
}

/// `String::from_iter` on characters: the string made of them, in order.
#[verifier::external_body]
pub(crate) fn string_of(v: &[char]) -> (r: String)
    ensures
        r@ == v@,
{
    String::from_iter(v)
}

/// What `str::to_lowercase` returns for a string with these characters: the
/// Unicode lowercase mapping, which may change the length of the text.
pub uninterp spec fn lowercase(s: Seq<char>) -> Seq<char>;

/// `str::to_lowercase`. Its result is a function of the characters alone;
/// nothing further is stated about the Unicode case mapping.
#[verifier::external_body]
pub(crate) fn to_lowercase(s: &str) -> (r: String)
    ensures
        r@ == lowercase(s@),
{
    s.to_lowercase()
}

// ---------------------------------------------------------------------------
// Searching for a character.

/// The first index at or after `i` that holds `c`.
pub open spec fn find_from(s: Seq<char>, c: char, i: int) -> Option<int>
    decreases s.len() - i,
{
    if i < 0 || i >= s.len() {
        None
    } else if s[i] == c {
        Some(i)
    } else {
        find_from(s, c, i + 1)
    }
}

/// The first index that holds `c` (`str::find` with a `char`).
pub open spec fn find(s: Seq<char>, c: char) -> Option<int> {
    find_from(s, c, 0)
}

/// The last index below `j` that holds `c`.
pub open spec fn rfind_before(s: Seq<char>, c: char, j: int) -> Option<int>
    decreases j,
{
    if j <= 0 || j > s.len() {
        None
    } else if s[j - 1] == c {
        Some(j - 1)
    } else {
        rfind_before(s, c, j - 1)
    }
}

/// The last index that holds `c` (`str::rfind` with a `char`).
pub open spec fn rfind(s: Seq<char>, c: char) -> Option<int> {
    rfind_before(s, c, s.len() as int)
}

pub proof fn lemma_find_from_bounds(s: Seq<char>, c: char, i: int)
    ensures
        find_from(s, c, i) matches Some(k) ==> 0 <= i <= k < s.len() && s[k] == c && forall|
            j: int,
        | i <= j < k ==> s[j] != c,
        find_from(s, c, i) is None ==> forall|j: int| 0 <= i <= j < s.len() ==> s[j] != c,
    decreases s.len() - i,
{
    if 0 <= i < s.len() && s[i] != c {
        lemma_find_from_bounds(s, c, i + 1);
    }
}

pub proof fn lemma_rfind_before_bounds(s: Seq<char>, c: char, j: int)
    ensures
        rfind_before(s, c, j) matches Some(k) ==> 0 <= k < j <= s.len() && s[k] == c && forall|
            m: int,
        | k < m < j ==> s[m] != c,
        rfind_before(s, c, j) is None ==> forall|m: int| 0 <= m < j <= s.len() ==> s[m] != c,
    decreases j,
{
    if 0 < j <= s.len() && s[j - 1] != c {
        lemma_rfind_before_bounds(s, c, j - 1);
    }
}

/// `find_from` over a slice.
pub fn find_char_from(s: &[char], c: char, from: usize) -> (r: Option<usize>)
    requires
        from <= s.len(),
    ensures
        match r {
            Some(k) => find_from(s@, c, from as int) == Some(k as int) && from <= k < s.len(),
            None => find_from(s@, c, from as int) is None,
        },
{
    let mut i = from;
    while i < s.len()
        invariant
            from <= i <= s.len(),
            find_from(s@, c, from as int) == find_from(s@, c, i as int),
        decreases s.len() - i,
    {
        if s[i] == c {
            return Some(i);
        }
        i = i + 1;
    }
    None
}

pub fn find_char(s: &[char], c: char) -> (r: Option<usize>)
    ensures
        match r {
            Some(k) => find(s@, c) == Some(k as int) && k < s.len(),
            None => find(s@, c) is None,
        },
{
    find_char_from(s, c, 0)
}

pub fn rfind_char(s: &[char], c: char) -> (r: Option<usize>)
    ensures
        match r {
            Some(k) => rfind(s@, c) == Some(k as int) && k < s.len(),
            None => rfind(s@, c) is None,
        },
{
    let mut j = s.len();
    while j > 0
        invariant
            j <= s.len(),
            rfind(s@, c) == rfind_before(s@, c, j as int),
        decreases j,
    {
        if s[j - 1] == c {
            return Some(j - 1);
        }
        j = j - 1;
    }
    None
}

// ---------------------------------------------------------------------------
// Substrings.

/// `n` occurs in `h` starting at index `i`.
pub open spec fn occurs_at(h: Seq<char>, n: Seq<char>, i: int) -> bool {
    0 <= i && i + n.len() <= h.len() && h.subrange(i, i + n.len()) =~= n
}

pub open spec fn find_sub_from(h: Seq<char>, n: Seq<char>, i: int) -> Option<int>
    decreases h.len() - i,
{
    if i < 0 || i + n.len() > h.len() {
        None
    } else if occurs_at(h, n, i) {
        Some(i)
    } else {
        find_sub_from(h, n, i + 1)
    }
}

/// The first index at which `n` occurs in `h` (`str::find` with a `&str`).
pub open spec fn find_sub(h: Seq<char>, n: Seq<char>) -> Option<int> {
    find_sub_from(h, n, 0)
}

pub open spec fn rfind_sub_before(h: Seq<char>, n: Seq<char>, i: int) -> Option<int>
    decreases i + 1,
{
    if i < 0 {
        None
    } else if occurs_at(h, n, i) {
        Some(i)
    } else {
        rfind_sub_before(h, n, i - 1)
    }
}

/// The last index at which `n` occurs in `h` (`str::rfind` with a `&str`).
pub open spec fn rfind_sub(h: Seq<char>, n: Seq<char>) -> Option<int> {
    rfind_sub_before(h, n, h.len() - n.len())
}

/// `str::contains` with a `&str` pattern.
pub open spec fn contains(h: Seq<char>, n: Seq<char>) -> bool {
    exists|i: int| occurs_at(h, n, i)
}

pub proof fn lemma_find_sub_from_some(h: Seq<char>, n: Seq<char>, i: int)
    requires
        i >= 0,
    ensures
        find_sub_from(h, n, i) matches Some(k) ==> occurs_at(h, n, k) && k >= i,
        find_sub_from(h, n, i) is None ==> forall|k: int| k >= i ==> !occurs_at(h, n, k),
    decreases h.len() - i,
{
    if i + n.len() <= h.len() && !occurs_at(h, n, i) {
        lemma_find_sub_from_some(h, n, i + 1);
    }
}

pub fn occurs_at_exec(h: &[char], n: &[char], i: usize) -> (r: bool)
    ensures
        r == occurs_at(h@, n@, i as int),
{
    if i > h.len() || n.len() > h.len() - i {
        return false;
    }
    let mut k: usize = 0;
    while k < n.len()
        invariant
            i + n.len() <= h.len(),
            k <= n.len(),
            forall|m: int| 0 <= m < k ==> h@[i + m] == n@[m],
        decreases n.len() - k,
    {
        if h[i + k] != n[k] {
            assert(h@.subrange(i as int, i + n.len())[k as int] != n@[k as int]);
            return false;
        }
        k = k + 1;
    }
    assert(h@.subrange(i as int, i + n.len()) =~= n@);
    true
}

pub fn find_sub_exec(h: &[char], n: &[char]) -> (r: Option<usize>)
    ensures
        match r {
            Some(k) => find_sub(h@, n@) == Some(k as int) && k + n.len() <= h.len(),
            None => find_sub(h@, n@) is None,
        },
{
    let mut i: usize = 0;
    while i <= h.len() && n.len() <= h.len() - i
        invariant
            find_sub(h@, n@) == find_sub_from(h@, n@, i as int),
        decreases h.len() + 1 - i,
    {
        if occurs_at_exec(h, n, i) {
            return Some(i);
        }
        i = i + 1;
    }
    None
}

pub fn rfind_sub_exec(h: &[char], n: &[char]) -> (r: Option<usize>)
    ensures
        match r {
            Some(k) => rfind_sub(h@, n@) == Some(k as int) && k + n.len() <= h.len(),
            None => rfind_sub(h@, n@) is None,
        },
{
    if n.len() > h.len() {
        return None;
    }
    let mut i: usize = h.len() - n.len();
    loop
        invariant
            i + n.len() <= h.len(),
            rfind_sub(h@, n@) == rfind_sub_before(h@, n@, i as int),
        decreases i,
    {
        if occurs_at_exec(h, n, i) {
            return Some(i);
        }
        if i == 0 {
            assert(rfind_sub_before(h@, n@, -1) is None);
            return None;
        }
        i = i - 1;
    }
}

pub fn contains_exec(h: &[char], n: &[char]) -> (r: bool)
    ensures
        r == contains(h@, n@),
{
    let mut i: usize = 0;
    while i <= h.len() && n.len() <= h.len() - i
        invariant
            forall|k: int| 0 <= k < i ==> !occurs_at(h@, n@, k),
        decreases h.len() + 1 - i,
    {
        if occurs_at_exec(h, n, i) {
            return true;
        }
        i = i + 1;
    }
    assert forall|k: int| !occurs_at(h@, n@, k) by {
        if k >= i && occurs_at(h@, n@, k) {
            assert(k + n@.len() <= h@.len());
        }
    }
    false
}

pub open spec fn starts_with(s: Seq<char>, p: Seq<char>) -> bool {
    occurs_at(s, p, 0)
}

pub fn starts_with_exec(s: &[char], p: &[char]) -> (r: bool)
    ensures
        r == starts_with(s@, p@),
{
    occurs_at_exec(s, p, 0)
}

// ---------------------------------------------------------------------------
// Trimming.

/// The first index at or after `i` that is not white space.
pub open spec fn skip_ws(s: Seq<char>, i: int) -> int
    decreases s.len() - i,
{
    if 0 <= i < s.len() && is_ws(s[i]) {
        skip_ws(s, i + 1)
    } else {
        i
    }
}

/// One past the last index below `j` that is not white space.
pub open spec fn back_ws(s: Seq<char>, j: int) -> int
    decreases j,
{
    if 0 < j <= s.len() && is_ws(s[j - 1]) {
        back_ws(s, j - 1)
    } else {
        j
    }
}

pub proof fn lemma_skip_ws_bounds(s: Seq<char>, i: int)
    requires
        0 <= i <= s.len(),
    ensures
        i <= skip_ws(s, i) <= s.len(),
    decreases s.len() - i,
{
    if i < s.len() && is_ws(s[i]) {
        lemma_skip_ws_bounds(s, i + 1);
    }
}

pub proof fn lemma_back_ws_bounds(s: Seq<char>, j: int)
    requires
        0 <= j <= s.len(),
    ensures
        0 <= back_ws(s, j) <= j,
    decreases j,
{
    if j > 0 && is_ws(s[j - 1]) {
        lemma_back_ws_bounds(s, j - 1);
    }
}

/// `str::trim_start`.
pub open spec fn trim_start(s: Seq<char>) -> Seq<char> {
    s.subrange(skip_ws(s, 0), s.len() as int)
}

/// `str::trim_end`.
pub open spec fn trim_end(s: Seq<char>) -> Seq<char> {
    s.subrange(0, back_ws(s, s.len() as int))
}

/// `str::trim`.
pub open spec fn trim(s: Seq<char>) -> Seq<char> {
    trim_end(trim_start(s))
}

pub fn skip_ws_exec(s: &[char], from: usize) -> (r: usize)
    requires
        from <= s.len(),
    ensures
        r == skip_ws(s@, from as int),
        from <= r <= s.len(),
{
    let mut i = from;
    while i < s.len() && is_whitespace(s[i])
        invariant
            from <= i <= s.len(),
            skip_ws(s@, from as int) == skip_ws(s@, i as int),
        decreases s.len() - i,
    {
        i = i + 1;
    }
    i
}

pub fn back_ws_exec(s: &[char], to: usize) -> (r: usize)
    requires
        to <= s.len(),
    ensures
        r == back_ws(s@, to as int),
        r <= to,
{
    let mut j = to;
    while j > 0 && is_whitespace(s[j - 1])
        invariant
            j <= to <= s.len(),
            back_ws(s@, to as int) == back_ws(s@, j as int),
        decreases j,
    {
        j = j - 1;
    }
    j
}

/// The bounds of the trimmed text: `trim(s) == s[start..end]`.
pub fn trim_bounds(s: &[char]) -> (r: (usize, usize))
    ensures
        r.0 <= r.1 <= s.len(),
        s@.subrange(r.0 as int, r.1 as int) == trim(s@),
{
    let a = skip_ws_exec(s, 0);
    let t = &s[a..s.len()];
    assert(t@ =~= s@.subrange(a as int, s@.len() as int));
    let b = back_ws_exec(t, t.len());
    assert(s@.subrange(a as int, (a + b) as int) =~= t@.subrange(0, b as int));
    (a, a + b)
}

pub fn trim_exec(s: &[char]) -> (r: Vec<char>)
    ensures
        r@ == trim(s@),
{
    let (a, b) = trim_bounds(s);
    vstd::slice::slice_to_vec(&s[a..b])
}

pub fn trim_start_exec(s: &[char]) -> (r: Vec<char>)
    ensures
        r@ == trim_start(s@),
{
    let a = skip_ws_exec(s, 0);
    vstd::slice::slice_to_vec(&s[a..s.len()])
}

pub fn is_blank(s: &[char]) -> (r: bool)
    ensures
        r == (trim(s@).len() == 0),
{
    let (a, b) = trim_bounds(s);
    a == b
}

// ---------------------------------------------------------------------------
// Building text.

pub fn append_chars(dst: &mut Vec<char>, src: &[char])
    ensures
        final(dst)@ == old(dst)@ + src@,
{
    let mut i: usize = 0;
    while i < src.len()
        invariant
            i <= src.len(),
            dst@ == old(dst)@ + src@.subrange(0, i as int),
        decreases src.len() - i,
    {
        dst.push(src[i]);
        i = i + 1;
        assert(src@.subrange(0, i as int) =~= src@.subrange(0, i - 1) + seq![src@[i - 1]]);
    }
    assert(src@.subrange(0, src.len() as int) =~= src@);
}

pub fn concat(a: &[char], b: &[char]) -> (r: Vec<char>)
    ensures
        r@ == a@ + b@,
{
    let mut r = vstd::slice::slice_to_vec(a);
    append_chars(&mut r, b);
    r
}

/// Whether two character sequences are equal.
pub fn chars_eq(a: &[char], b: &[char]) -> (r: bool)
    ensures
        r == (a@ == b@),
{
    if a.len() != b.len() {
        return false;
    }
    let mut i: usize = 0;
    while i < a.len()
        invariant
            a.len() == b.len(),
            i <= a.len(),
            forall|k: int| 0 <= k < i ==> a@[k] == b@[k],
        decreases a.len() - i,
    {
        if a[i] != b[i] {
            return false;
        }
        i = i + 1;
    }
    assert(a@ =~= b@);
    true
}

/// The first `n` characters (`chars().take(n)`).
pub open spec fn take_chars(s: Seq<char>, n: int) -> Seq<char> {
    if s.len() <= n {
        s
    } else {
        s.subrange(0, n)
    }
}

pub fn take_chars_exec(s: &[char], n: usize) -> (r: Vec<char>)
    ensures
        r@ == take_chars(s@, n as int),
{
    if s.len() <= n {
        vstd::slice::slice_to_vec(s)
    } else {
        vstd::slice::slice_to_vec(&s[0..n])
    }
}

// ---------------------------------------------------------------------------
// Splitting on a set of separator characters.

/// The pieces of `s[start..]`, scanned from `i`, split at every character
/// that `seps` holds (`str::split` with a set of `char`s).
pub open spec fn split_from(s: Seq<char>, seps: Seq<char>, start: int, i: int) -> Seq<Seq<char>>
    decreases s.len() - i,
{
    if i >= s.len() {
        seq![s.subrange(start, s.len() as int)]
    } else if seps.contains(s[i]) {
        seq![s.subrange(start, i)] + split_from(s, seps, i + 1, i + 1)
    } else {
        split_from(s, seps, start, i + 1)
    }
}

pub open spec fn split_on(s: Seq<char>, seps: Seq<char>) -> Seq<Seq<char>> {
    split_from(s, seps, 0, 0)
}

/// The index of the first separator at or after `i`, or the length.
pub open spec fn first_sep_from(s: Seq<char>, seps: Seq<char>, i: int) -> int
    decreases s.len() - i,
{
    if i < 0 || i >= s.len() {
        s.len() as int
    } else if seps.contains(s[i]) {
        i
    } else {
        first_sep_from(s, seps, i + 1)
    }
}

/// The text before the first separator (`split(seps).next()`).
pub open spec fn first_piece(s: Seq<char>, seps: Seq<char>) -> Seq<char> {
    s.subrange(0, first_sep_from(s, seps, 0))
}

pub proof fn lemma_first_sep_bounds(s: Seq<char>, seps: Seq<char>, i: int)
    requires
        0 <= i <= s.len(),
    ensures
        i <= first_sep_from(s, seps, i) <= s.len(),
    decreases s.len() - i,
{
    if i < s.len() && !seps.contains(s[i]) {
        lemma_first_sep_bounds(s, seps, i + 1);
    }
}

pub fn member(seps: &[char], c: char) -> (r: bool)
    ensures
        r == seps@.contains(c),
{
    let mut i: usize = 0;
    while i < seps.len()
        invariant
            i <= seps.len(),
            forall|k: int| 0 <= k < i ==> seps@[k] != c,
        decreases seps.len() - i,
    {
        if seps[i] == c {
            return true;
        }
        i = i + 1;
    }
    false
}

pub fn first_piece_exec(s: &[char], seps: &[char]) -> (r: Vec<char>)
    ensures
        r@ == first_piece(s@, seps@),
{
    let mut i: usize = 0;
    while i < s.len() && !member(seps, s[i])
        invariant
            i <= s.len(),
            first_sep_from(s@, seps@, 0) == first_sep_from(s@, seps@, i as int),
        decreases s.len() - i,
    {
        i = i + 1;
    }
    vstd::slice::slice_to_vec(&s[0..i])
}

pub fn split_on_exec(s: &[char], seps: &[char]) -> (r: Vec<Vec<char>>)
    ensures
        r@.map_values(|v: Vec<char>| v@) == split_on(s@, seps@),
{
    let mut out: Vec<Vec<char>> = Vec::new();
    let mut start: usize = 0;
    let mut i: usize = 0;
    while i < s.len()
        invariant
            start <= i <= s.len(),
            split_on(s@, seps@) == out@.map_values(|v: Vec<char>| v@) + split_from(
                s@,
                seps@,
                start as int,
                i as int,
            ),
        decreases s.len() - i,
    {
        if member(seps, s[i]) {
            let piece = vstd::slice::slice_to_vec(&s[start..i]);
            let ghost before = out@;
            out.push(piece);
            assert(out@.map_values(|v: Vec<char>| v@) =~= before.map_values(|v: Vec<char>| v@)
                + seq![piece@]);
            start = i + 1;
        }
        i = i + 1;
    }
    let piece = vstd::slice::slice_to_vec(&s[start..s.len()]);
    let ghost before = out@;
    out.push(piece);
    assert(out@.map_values(|v: Vec<char>| v@) =~= before.map_values(|v: Vec<char>| v@) + seq![
        piece@,
    ]);
    out
}

/// Drops every leading `c` (`str::trim_start_matches` with a `char`).
pub open spec fn skip_char(s: Seq<char>, c: char, i: int) -> int
    decreases s.len() - i,
{
    if 0 <= i < s.len() && s[i] == c {
        skip_char(s, c, i + 1)
    } else {
        i
    }
}

pub open spec fn trim_start_matches(s: Seq<char>, c: char) -> Seq<char> {
    s.subrange(skip_char(s, c, 0), s.len() as int)
}

pub fn trim_start_matches_exec(s: &[char], c: char) -> (r: Vec<char>)
    ensures
        r@ == trim_start_matches(s@, c),
{
    let mut i: usize = 0;
    while i < s.len() && s[i] == c
        invariant
            i <= s.len(),
            skip_char(s@, c, 0) == skip_char(s@, c, i as int),
        decreases s.len() - i,
    {
        i = i + 1;
    }
    vstd::slice::slice_to_vec(&s[i..s.len()])
}

// ---------------------------------------------------------------------------
// ASCII case, character replacement and ordering.

pub open spec fn ascii_lower_char(c: char) -> char {
    if 'A' <= c <= 'Z' {
        ((c as u32 + 32) as u8) as char
    } else {
        c
    }
}

/// `str::to_ascii_lowercase`.
pub open spec fn ascii_lower(s: Seq<char>) -> Seq<char> {
    s.map_values(|c: char| ascii_lower_char(c))
}

pub fn ascii_lower_exec(s: &[char]) -> (r: Vec<char>)
    ensures
        r@ == ascii_lower(s@),
{
    let mut out: Vec<char> = Vec::new();
    let mut i: usize = 0;
    while i < s.len()
        invariant
            i <= s.len(),
            out@ =~= ascii_lower(s@.take(i as int)),
        decreases s.len() - i,
    {
        let c = s[i];
        let l = if 'A' <= c && c <= 'Z' {
            ((c as u32 + 32) as u8) as char
        } else {
            c
        };
        out.push(l);
        i = i + 1;
        assert(ascii_lower(s@.take(i as int)) =~= ascii_lower(s@.take(i - 1)).push(
            ascii_lower_char(s@[i - 1]),
        ));
    }
    assert(s@.take(s.len() as int) =~= s@);
    out
}

/// Line breaks and tabs become spaces.
pub open spec fn flatten_char(c: char) -> char {
    if c == '\n' || c == '\r' || c == '\t' {
        ' '
    } else {
        c
    }
}

pub open spec fn flatten(s: Seq<char>) -> Seq<char> {
    s.map_values(|c: char| flatten_char(c))
}

pub fn flatten_exec(s: &[char]) -> (r: Vec<char>)
    ensures
        r@ == flatten(s@),
{
    let mut out: Vec<char> = Vec::new();
    let mut i: usize = 0;
    while i < s.len()
        invariant
            i <= s.len(),
            out@ =~= flatten(s@.take(i as int)),
        decreases s.len() - i,
    {
        let c = s[i];
        out.push(if c == '\n' || c == '\r' || c == '\t' {
            ' '
        } else {
            c
        });
        i = i + 1;
        assert(flatten(s@.take(i as int)) =~= flatten(s@.take(i - 1)).push(flatten_char(s@[i - 1])));
    }
    assert(s@.take(s.len() as int) =~= s@);
    out
}

/// Lexicographic order by code point: the order `String::cmp` gives, since
/// UTF-8 keeps code point order.
pub open spec fn lex_le(a: Seq<char>, b: Seq<char>) -> bool
    decreases a.len(),
{
    if a.len() == 0 {
        true
    } else if b.len() == 0 {
        false
    } else if a[0] != b[0] {
        a[0] < b[0]
    } else {
        lex_le(a.drop_first(), b.drop_first())
    }
}

pub proof fn lemma_lex_total(a: Seq<char>, b: Seq<char>)
    ensures
        lex_le(a, b) || lex_le(b, a),
    decreases a.len(),
{
    if a.len() > 0 && b.len() > 0 && a[0] == b[0] {
        lemma_lex_total(a.drop_first(), b.drop_first());
    }
}

pub proof fn lemma_lex_trans(a: Seq<char>, b: Seq<char>, c: Seq<char>)
    requires
        lex_le(a, b),
        lex_le(b, c),
    ensures
        lex_le(a, c),
    decreases a.len(),
{
    if a.len() > 0 && b.len() > 0 && c.len() > 0 && a[0] == b[0] && b[0] == c[0] {
        lemma_lex_trans(a.drop_first(), b.drop_first(), c.drop_first());
    }
}

pub fn lex_le_exec(a: &[char], b: &[char]) -> (r: bool)
    ensures
        r == lex_le(a@, b@),
{
    let mut i: usize = 0;
    assert(a@.subrange(0, a@.len() as int) =~= a@);
    assert(b@.subrange(0, b@.len() as int) =~= b@);
    while i < a.len() && i < b.len() && a[i] == b[i]
        invariant
            i <= a.len(),
            i <= b.len(),
            lex_le(a@, b@) == lex_le(a@.subrange(i as int, a@.len() as int), b@.subrange(i as int, b@.len() as int)),
        decreases a.len() - i,
    {
        assert(a@.subrange(i as int, a@.len() as int).drop_first() =~= a@.subrange(i + 1, a@.len() as int));
        assert(b@.subrange(i as int, b@.len() as int).drop_first() =~= b@.subrange(i + 1, b@.len() as int));
        i = i + 1;
    }
    if i == a.len() {
        true
    } else if i == b.len() {
        false
    } else {
        a[i] < b[i]
    }
}

// ---------------------------------------------------------------------------
// Splitting text into lines (`str::lines`).

pub open spec fn strip_cr(l: Seq<char>) -> Seq<char> {
    if l.len() > 0 && l.last() == '\r' {
        l.drop_last()
    } else {
        l
    }
}

/// The lines of `s[i..]`: split at `\n`, a `\r` before the `\n` dropped, and
/// no empty line after a final line ending.
pub open spec fn lines_from(s: Seq<char>, i: int) -> Seq<Seq<char>>
    decreases s.len() - i,
{
    if i < 0 || i >= s.len() {
        Seq::empty()
    } else {
        match find_from(s, '\n', i) {
            Some(j) => {
                proof {
                    lemma_find_from_bounds(s, '\n', i);
                }
                seq![strip_cr(s.subrange(i, j))] + lines_from(s, j + 1)
            },
            None => seq![s.subrange(i, s.len() as int)],
        }
    }
}

pub open spec fn text_lines(s: Seq<char>) -> Seq<Seq<char>> {
    lines_from(s, 0)
}

pub open spec fn rows_view(v: Seq<Vec<char>>) -> Seq<Seq<char>> {
    v.map_values(|r: Vec<char>| r@)
}

pub fn split_lines(s: &[char]) -> (r: Vec<Vec<char>>)
    ensures
        rows_view(r@) == text_lines(s@),
{
    let mut out: Vec<Vec<char>> = Vec::new();
    let mut i: usize = 0;
    while i < s.len()
        invariant
            i <= s.len(),
            text_lines(s@) == rows_view(out@) + lines_from(s@, i as int),
        decreases s.len() - i,
    {
        proof {
            lemma_find_from_bounds(s@, '\n', i as int);
        }
        let ghost before = out@;
        match find_char_from(s, '\n', i) {
            Some(j) => {
                let mut row = vstd::slice::slice_to_vec(&s[i..j]);
                if row.len() > 0 && row[row.len() - 1] == '\r' {
                    row.pop();
                }
                assert(row@ =~= strip_cr(s@.subrange(i as int, j as int)));
                out.push(row);
                assert(rows_view(out@) =~= rows_view(before) + seq![strip_cr(s@.subrange(i as int, j as int))]);
                i = j + 1;
            },
            None => {
                let row = vstd::slice::slice_to_vec(&s[i..s.len()]);
                out.push(row);
                assert(rows_view(out@) =~= rows_view(before) + seq![s@.subrange(i as int, s@.len() as int)]);
                assert(lines_from(s@, s@.len() as int) =~= Seq::<Seq<char>>::empty());
                i = s.len();
            },
        }
    }
    assert(lines_from(s@, i as int) =~= Seq::<Seq<char>>::empty());
    assert(rows_view(out@) + Seq::<Seq<char>>::empty() =~= rows_view(out@));
    out
}

/// `str::trim_start_matches` with a text pattern: the prefix removed as
/// many times as it repeats.
pub open spec fn strip_prefixes(s: Seq<char>, p: Seq<char>) -> Seq<char>
    decreases s.len(),
{
    if p.len() > 0 && starts_with(s, p) {
        strip_prefixes(s.subrange(p.len() as int, s.len() as int), p)
    } else {
        s
    }
}

pub fn strip_prefixes_exec(s: &[char], p: &[char]) -> (r: Vec<char>)
    ensures
        r@ == strip_prefixes(s@, p@),
{
    let mut i: usize = 0;
    assert(s@.subrange(0, s@.len() as int) =~= s@);
    while p.len() > 0 && i <= s.len() && starts_with_exec(&s[i..s.len()], p)
        invariant
            i <= s.len(),
            strip_prefixes(s@, p@) == strip_prefixes(s@.subrange(i as int, s@.len() as int), p@),
        decreases s.len() - i,
    {
        let ghost rest = s@.subrange(i as int, s@.len() as int);
        assert(rest.subrange(p@.len() as int, rest.len() as int) =~= s@.subrange(
            i + p@.len(),
            s@.len() as int,
        ));
        i = i + p.len();
    }
    let ghost rest = s@.subrange(i as int, s@.len() as int);
    let out = vstd::slice::slice_to_vec(&s[i..s.len()]);
    assert(out@ =~= rest);
    out
}

} // verus!
