//! The history of the Paste app, read from its store: entries, their
//! previews and the icons of the apps they came from.

use vstd::prelude::*;

use super::{collapsed, collapse, ClipItem, ClipKind, ClipModel, PREVIEW_CHARS};
use crate::data_url::{data_url, data_url_spec};
use crate::text::{chars_eq, chars_of, opt_view, owned, string_of, take_chars, take_chars_exec};

verus! {

/// The preview of a Paste entry: its text, or a word for what it holds when
/// there is no text to show.
pub open spec fn preview_spec(text: Option<Seq<char>>, kind: ClipKind) -> Seq<char> {
    let t = match text {
        Some(x) => x,
        None => Seq::empty(),
    };
    if collapsed(t).len() > 0 {
        take_chars(collapsed(t), PREVIEW_CHARS as int)
    } else {
        match kind {
            ClipKind::Image => "图片"@,
            ClipKind::Files => "文件"@,
            ClipKind::Text => "空白内容"@,
        }
    }
}

pub fn preview_of(text: &Option<String>, kind: ClipKind) -> (r: String)
    ensures
        r@ == preview_spec(opt_view(*text), kind),
{
    let t = match text {
        Some(x) => chars_of(x.as_str()),
        None => Vec::new(),
    };
    let c = collapse(t.as_slice());
    if c.len() > 0 {
        return string_of(take_chars_exec(c.as_slice(), PREVIEW_CHARS).as_slice());
    }
    match kind {
        ClipKind::Image => owned("图片"),
        ClipKind::Files => owned("文件"),
        ClipKind::Text => owned("空白内容"),
    }
}

// ---------------------------------------------------------------------------
// Entries of the Paste app.

/// Paste's type column: 1 is an image, 2 files, anything else text.
pub open spec fn clip_kind_spec(code: i64) -> ClipKind {
    if code == 1 {
        ClipKind::Image
    } else if code == 2 {
        ClipKind::Files
    } else {
        ClipKind::Text
    }
}

pub fn clip_kind(code: i64) -> (r: ClipKind)
    ensures
        r == clip_kind_spec(code),
{
    if code == 1 {
        ClipKind::Image
    } else if code == 2 {
        ClipKind::Files
    } else {
        ClipKind::Text
    }
}

/// An app icon as the panel shows it.
pub fn icon_url(png: &[u8]) -> (r: String)
    requires
        4 * ((png@.len() + 2) / 3) <= usize::MAX,
    ensures
        r@ == data_url_spec("image/png"@, png@),
{
    data_url("image/png", png)
}

/// The icons of the apps Paste knows, by bundle id; a later row for the
/// same app wins.
pub struct IconTable {
    rows: Vec<(String, String)>,
}

pub open spec fn icon_lookup(rows: Seq<(Seq<char>, Seq<char>)>, id: Seq<char>) -> Option<Seq<char>>
    decreases rows.len(),
{
    if rows.len() == 0 {
        None
    } else if rows.last().0 == id {
        Some(rows.last().1)
    } else {
        icon_lookup(rows.drop_last(), id)
    }
}

impl View for IconTable {
    type V = Seq<(Seq<char>, Seq<char>)>;

    closed spec fn view(&self) -> Seq<(Seq<char>, Seq<char>)> {
        self.rows@.map_values(|r: (String, String)| (r.0@, r.1@))
    }
}

impl IconTable {
    pub fn new() -> (r: Self)
        ensures
            r@ == Seq::<(Seq<char>, Seq<char>)>::empty(),
    {
        let r = IconTable { rows: Vec::new() };
        assert(r@ =~= Seq::<(Seq<char>, Seq<char>)>::empty());
        r
    }

    /// Adds an app's icon, read as PNG bytes.
    pub fn add(&mut self, bundle_id: String, png: &[u8])
        requires
            4 * ((png@.len() + 2) / 3) <= usize::MAX,
        ensures
            final(self)@ == old(self)@.push((bundle_id@, data_url_spec("image/png"@, png@))),
    {
        let url = icon_url(png);
        let ghost before = self@;
        self.rows.push((bundle_id, url));
        assert(self@ =~= before.push((bundle_id@, data_url_spec("image/png"@, png@))));
    }

    /// The icon of an app.
    pub fn get(&self, bundle_id: &str) -> (r: Option<String>)
        ensures
            opt_view(r) == icon_lookup(self@, bundle_id@),
    {
        let want = chars_of(bundle_id);
        let mut i = self.rows.len();
        let ghost all = self@;
        assert(all.take(all.len() as int) =~= all);
        while i > 0
            invariant
                i <= self.rows@.len(),
                all == self@,
                want@ == bundle_id@,
                icon_lookup(all, bundle_id@) == icon_lookup(all.take(i as int), bundle_id@),
            decreases i,
        {
            let ghost pre = all.take(i as int);
            assert(pre.last() == (self.rows@[i - 1].0@, self.rows@[i - 1].1@));
            if chars_eq(chars_of(self.rows[i - 1].0.as_str()).as_slice(), want.as_slice()) {
                return Some(self.rows[i - 1].1.clone());
            }
            assert(pre.drop_last() =~= all.take(i - 1));
            i = i - 1;
        }
        None
    }
}

/// A row of Paste's history, as read from its store. `created_at` is the
/// Unix millisecond time, as the bits of a double, computed from the store's
/// date by the caller.
pub struct PasteRow {
    pub pk: i64,
    pub kind_code: i64,
    pub pinned: i64,
    pub created_at: u64,
    pub app: Option<String>,
    pub text: Option<String>,
}

pub open spec fn paste_item_spec(
    pk: i64,
    kind_code: i64,
    pinned: i64,
    created_at: u64,
    app: Option<Seq<char>>,
    text: Option<Seq<char>>,
    icons: Seq<(Seq<char>, Seq<char>)>,
) -> ClipModel {
    ClipModel {
        id: pk,
        kind: clip_kind_spec(kind_code),
        preview: preview_spec(text, clip_kind_spec(kind_code)),
        app,
        icon: match app {
            Some(a) => icon_lookup(icons, a),
            None => None,
        },
        pinned: pinned != 0,
        created_at,
    }
}

/// The entry for a row of Paste's history.
pub fn paste_item(row: PasteRow, icons: &IconTable) -> (r: ClipItem)
    ensures
        r@ == paste_item_spec(
            row.pk,
            row.kind_code,
            row.pinned,
            row.created_at,
            opt_view(row.app),
            opt_view(row.text),
            icons@,
        ),
{
    let kind = clip_kind(row.kind_code);
    let icon = match &row.app {
        Some(a) => icons.get(a.as_str()),
        None => None,
    };
    ClipItem {
        id: row.pk,
        kind,
        preview: preview_of(&row.text, kind),
        app: row.app,
        icon,
        pinned: row.pinned != 0,
        created_at: row.created_at,
    }
}

/// Why an entry cannot go back on the clipboard: it has no text.
pub open spec fn no_text_message() -> Seq<char> {
    "这条没有文本内容"@
}

/// The text to put back on the clipboard for an entry whose stored plain
/// text is `text`: only text that is there and not empty; images and files
/// are left to Paste itself.
pub fn copy_text(text: Option<String>) -> (r: Result<String, String>)
    ensures
        match opt_view(text) {
            Some(t) => if t.len() > 0 {
                r matches Ok(x) && x@ == t
            } else {
                r matches Err(e) && e@ == no_text_message()
            },
            None => r matches Err(e) && e@ == no_text_message(),
        },
{
    match text {
        Some(t) => if chars_of(t.as_str()).len() > 0 {
            Ok(t)
        } else {
            Err(owned("这条没有文本内容"))
        },
        None => Err(owned("这条没有文本内容")),
    }
}

} // verus!
