//! The history kept here, where there is no Paste app: what is recorded of
//! a capture, how the list grows, and what the panel sees of it.

use vstd::prelude::*;

use super::{clips_view, collapsed, collapse, ClipItem, ClipKind, ClipModel, ClipSource, ClipboardState, PREVIEW_CHARS};
use crate::text::{chars_eq, chars_of, opt_view, owned, string_of, take_chars, take_chars_exec, trim, trim_exec};

verus! {

/// The preview of recorded text: collapsed and cut.
pub open spec fn preview_spec(text: Seq<char>) -> Seq<char> {
    take_chars(collapsed(text), PREVIEW_CHARS as int)
}

pub fn preview_of(text: &str) -> (r: String)
    ensures
        r@ == preview_spec(text@),
{
    let c = collapse(chars_of(text).as_slice());
    string_of(take_chars_exec(c.as_slice(), PREVIEW_CHARS).as_slice())
}


// ---------------------------------------------------------------------------
// The history kept here.

/// The most entries kept.
pub const MAX_KEPT: usize = 200;

/// Anything larger is a document, not something to paste from a notch.
pub const MAX_TEXT_BYTES: usize = 262144;

/// An entry with its full text.
pub struct StoredClip {
    pub item: ClipItem,
    pub text: String,
}

pub struct StoredModel {
    pub item: ClipModel,
    pub text: Seq<char>,
}

impl View for StoredClip {
    type V = StoredModel;

    open spec fn view(&self) -> StoredModel {
        StoredModel { item: self.item@, text: self.text@ }
    }
}

pub open spec fn stored_view(v: Seq<StoredClip>) -> Seq<StoredModel> {
    v.map_values(|c: StoredClip| c@)
}

/// A capture joins the top of the history, unless it repeats the entry on
/// top; the history then keeps `MAX_KEPT` entries.
pub open spec fn recorded(h: Seq<StoredModel>, c: StoredModel) -> Seq<StoredModel> {
    if h.len() > 0 && h[0].text == c.text {
        h
    } else {
        let r = seq![c] + h;
        if r.len() <= MAX_KEPT {
            r
        } else {
            r.subrange(0, MAX_KEPT as int)
        }
    }
}

/// Records a capture; says whether the history changed (and so is saved and
/// shown). Copying the same thing again does not fill the list.
pub fn record(history: &mut Vec<StoredClip>, capture: StoredClip) -> (changed: bool)
    ensures
        stored_view(final(history)@) == recorded(stored_view(old(history)@), capture@),
        changed == !(old(history)@.len() > 0 && old(history)@[0].text@ == capture.text@),
{
    if history.len() > 0 && chars_eq(
        chars_of(history[0].text.as_str()).as_slice(),
        chars_of(capture.text.as_str()).as_slice(),
    ) {
        return false;
    }
    let ghost before = stored_view(history@);
    history.insert(0, capture);
    let ghost full = history@;
    assert(stored_view(full) =~= seq![capture@] + before);
    history.truncate(MAX_KEPT);
    proof {
        if full.len() > MAX_KEPT {
            assert(stored_view(history@) =~= stored_view(full).subrange(0, MAX_KEPT as int));
        }
    }
    true
}

/// The history never holds more than `MAX_KEPT` entries, and never the same
/// text twice on top.
pub proof fn lemma_recorded_bounded(h: Seq<StoredModel>, c: StoredModel)
    requires
        h.len() <= MAX_KEPT,
    ensures
        recorded(h, c).len() <= MAX_KEPT,
        recorded(h, c).len() > 0,
        recorded(h, c)[0].text == c.text,
{
}

/// What the panel shows of the history: the first `limit` entries.
pub fn state_of(history: &Vec<StoredClip>, limit: usize) -> (r: ClipboardState)
    ensures
        r.available,
        r.source == ClipSource::Builtin,
        clips_view(r.items@) == stored_view(history@).take(
            if limit < history@.len() {
                limit as int
            } else {
                history@.len() as int
            },
        ).map_values(|s: StoredModel| s.item),
{
    let n = if limit < history.len() {
        limit
    } else {
        history.len()
    };
    let mut items: Vec<ClipItem> = Vec::new();
    let mut i: usize = 0;
    while i < n
        invariant
            n <= history@.len(),
            i <= n,
            items@.len() == i,
            forall|k: int| 0 <= k < i ==> items@[k]@ == history@[k].item@,
        decreases n - i,
    {
        items.push(history[i].item.copy());
        i = i + 1;
    }
    assert(clips_view(items@) =~= stored_view(history@).take(n as int).map_values(
        |s: StoredModel| s.item,
    ));
    ClipboardState { available: true, source: ClipSource::Builtin, items }
}

/// The full text of an entry, to put back on the clipboard.
pub open spec fn text_of_spec(h: Seq<StoredModel>, id: i64) -> Option<Seq<char>>
    decreases h.len(),
{
    if h.len() == 0 {
        None
    } else if h[0].item.id == id {
        Some(h[0].text)
    } else {
        text_of_spec(h.drop_first(), id)
    }
}

pub open spec fn gone_message() -> Seq<char> {
    "这条记录已经不在了"@
}

/// The text of the first entry with this id, or why there is none.
pub fn text_of(history: &Vec<StoredClip>, id: i64) -> (r: Result<String, String>)
    ensures
        match text_of_spec(stored_view(history@), id) {
            Some(t) => r matches Ok(x) && x@ == t,
            None => r matches Err(e) && e@ == gone_message(),
        },
{
    let ghost hv = stored_view(history@);
    let mut i: usize = 0;
    assert(hv.subrange(0, hv.len() as int) =~= hv);
    while i < history.len()
        invariant
            i <= history@.len(),
            hv == stored_view(history@),
            text_of_spec(hv, id) == text_of_spec(hv.subrange(i as int, hv.len() as int), id),
        decreases history.len() - i,
    {
        let ghost rest = hv.subrange(i as int, hv.len() as int);
        assert(rest[0] == history@[i as int]@);
        if history[i].item.id == id {
            return Ok(history[i].text.clone());
        }
        assert(rest.drop_first() =~= hv.subrange(i + 1, hv.len() as int));
        i = i + 1;
    }
    assert(hv.subrange(i as int, hv.len() as int) =~= Seq::<StoredModel>::empty());
    Err(owned("这条记录已经不在了"))
}

/// The text of dropped files: their paths, one per line.
pub open spec fn joined_lines(paths: Seq<Seq<char>>) -> Seq<char>
    decreases paths.len(),
{
    if paths.len() == 0 {
        Seq::empty()
    } else if paths.len() == 1 {
        paths[0]
    } else {
        joined_lines(paths.drop_last()) + seq!['\n'] + paths.last()
    }
}

pub fn files_text(paths: &Vec<String>) -> (r: String)
    ensures
        r@ == joined_lines(paths@.map_values(|p: String| p@)),
{
    let ghost pv = paths@.map_values(|p: String| p@);
    let mut out: Vec<char> = Vec::new();
    let mut i: usize = 0;
    assert(pv.take(0) =~= Seq::<Seq<char>>::empty());
    while i < paths.len()
        invariant
            i <= paths@.len(),
            pv == paths@.map_values(|p: String| p@),
            out@ == joined_lines(pv.take(i as int)),
        decreases paths.len() - i,
    {
        if i > 0 {
            out.push('\n');
        }
        crate::text::append_chars(&mut out, chars_of(paths[i].as_str()).as_slice());
        i = i + 1;
        assert(pv.take(i as int).drop_last() =~= pv.take(i - 1));
        if i == 1 {
            assert(out@ =~= joined_lines(pv.take(i as int)));
        }
    }
    assert(pv.take(i as int) =~= pv);
    string_of(out.as_slice())
}

/// What is recorded of a capture: nothing for blank text or text of more
/// than `MAX_TEXT_BYTES` bytes; otherwise an entry with its preview.
pub open spec fn capture_spec(
    id: i64,
    kind: ClipKind,
    text: Seq<char>,
    app: Option<Seq<char>>,
    created_at: u64,
) -> Option<StoredModel> {
    if trim(text).len() == 0 || (vstd::utf8::encode_utf8(text).len() as usize) > MAX_TEXT_BYTES {
        None
    } else {
        Some(
            StoredModel {
                item: ClipModel {
                    id,
                    kind,
                    preview: preview_spec(text),
                    app,
                    icon: None,
                    pinned: false,
                    created_at,
                },
                text,
            },
        )
    }
}

pub fn capture(id: i64, kind: ClipKind, text: String, app: Option<String>, created_at: u64) -> (r:
    Option<StoredClip>)
    ensures
        match capture_spec(id, kind, text@, opt_view(app), created_at) {
            Some(m) => r matches Some(c) && c@ == m,
            None => r is None,
        },
{
    let blank = trim_exec(chars_of(text.as_str()).as_slice()).len() == 0;
    if blank || text.as_str().len() > MAX_TEXT_BYTES {
        return None;
    }
    let preview = preview_of(text.as_str());
    Some(
        StoredClip {
            item: ClipItem { id, kind, preview, app, icon: None, pinned: false, created_at },
            text,
        },
    )
}

/// The name of an app from its process name, without `.exe` endings.
pub open spec fn app_name_spec(process: Seq<char>) -> Seq<char>
    decreases process.len(),
{
    let e = ".exe"@;
    if process.len() >= e.len() && process.subrange(process.len() - e.len(), process.len() as int)
        == e && e.len() > 0 {
        app_name_spec(process.subrange(0, process.len() - e.len()))
    } else {
        process
    }
}

pub fn app_name(process: &str) -> (r: String)
    ensures
        r@ == app_name_spec(process@),
{
    let s = chars_of(process);
    let e = chars_of(".exe");
    proof {
        reveal_strlit(".exe");
    }
    let mut end = s.len();
    assert(s@.subrange(0, end as int) =~= s@);
    while end >= 4 && chars_eq(&s[end - 4..end], e.as_slice())
        invariant
            end <= s.len(),
            e@ == ".exe"@,
            e@.len() == 4,
            app_name_spec(process@) == app_name_spec(s@.subrange(0, end as int)),
            s@ == process@,
        decreases end,
    {
        let ghost p = s@.subrange(0, end as int);
        assert(p.subrange(p.len() - 4, p.len() as int) =~= s@.subrange(end - 4, end as int));
        assert(p.subrange(0, p.len() - 4) =~= s@.subrange(0, end - 4));
        end = end - 4;
    }
    proof {
        let p = s@.subrange(0, end as int);
        if end >= 4 {
            assert(p.subrange(p.len() - 4, p.len() as int) =~= s@.subrange(end - 4, end as int));
        }
    }
    string_of(&s[0..end])
}

} // verus!
