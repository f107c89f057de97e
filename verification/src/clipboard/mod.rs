//! The clipboard panel. On macOS it mirrors the history of the Paste app;
//! on Windows, where there is no Paste, the history is kept here.

use vstd::prelude::*;

use crate::i18n::{t, LanguageState};
use crate::text::{chars_eq, chars_of, clone_opt, is_whitespace, is_ws, opt_view, owned};

pub mod mac;
pub mod win;

verus! {

#[derive(Debug, Clone, Copy, PartialEq, Eq, Structural)]
pub enum ClipKind {
    Text,
    Image,
    Files,
}

#[derive(Debug, Clone, Copy, PartialEq, Eq, Structural)]
pub enum ClipSource {
    /// Read from the Paste app, which owns the history.
    Paste,
    /// The history is recorded here.
    Builtin,
}

/// One entry of the history.
pub struct ClipItem {
    pub id: i64,
    pub kind: ClipKind,
    pub preview: String,
    /// The app the content came from.
    pub app: Option<String>,
    /// That app's icon as a data URL, when the source has one.
    pub icon: Option<String>,
    pub pinned: bool,
    /// Unix milliseconds, as the bits of a double.
    pub created_at: u64,
}

pub struct ClipModel {
    pub id: i64,
    pub kind: ClipKind,
    pub preview: Seq<char>,
    pub app: Option<Seq<char>>,
    pub icon: Option<Seq<char>>,
    pub pinned: bool,
    pub created_at: u64,
}

impl View for ClipItem {
    type V = ClipModel;

    open spec fn view(&self) -> ClipModel {
        ClipModel {
            id: self.id,
            kind: self.kind,
            preview: self.preview@,
            app: opt_view(self.app),
            icon: opt_view(self.icon),
            pinned: self.pinned,
            created_at: self.created_at,
        }
    }
}

pub open spec fn clips_view(v: Seq<ClipItem>) -> Seq<ClipModel> {
    v.map_values(|c: ClipItem| c@)
}

impl ClipItem {
    pub fn copy(&self) -> (r: ClipItem)
        ensures
            r@ == self@,
    {
        ClipItem {
            id: self.id,
            kind: self.kind,
            preview: self.preview.clone(),
            app: clone_opt(&self.app),
            icon: clone_opt(&self.icon),
            pinned: self.pinned,
            created_at: self.created_at,
        }
    }
}

/// What the panel shows.
pub struct ClipboardState {
    /// False on macOS while Paste is not installed.
    pub available: bool,
    pub source: ClipSource,
    pub items: Vec<ClipItem>,
}

impl View for ClipboardState {
    type V = (bool, ClipSource, Seq<ClipModel>);

    open spec fn view(&self) -> (bool, ClipSource, Seq<ClipModel>) {
        (self.available, self.source, clips_view(self.items@))
    }
}

fn copy_clips(v: &Vec<ClipItem>) -> (r: Vec<ClipItem>)
    ensures
        clips_view(r@) == clips_view(v@),
{
    let mut out: Vec<ClipItem> = Vec::new();
    let mut i: usize = 0;
    while i < v.len()
        invariant
            i <= v.len(),
            out@.len() == i,
            forall|k: int| 0 <= k < i ==> out@[k]@ == v@[k]@,
        decreases v.len() - i,
    {
        out.push(v[i].copy());
        i = i + 1;
    }
    assert(clips_view(out@) =~= clips_view(v@));
    out
}

impl ClipboardState {
    /// Nothing yet: on macOS the Paste app is the source, elsewhere the
    /// history kept here.
    pub fn initial(on_macos: bool) -> (r: Self)
        ensures
            r@ == (false, if on_macos {
                ClipSource::Paste
            } else {
                ClipSource::Builtin
            }, Seq::<ClipModel>::empty()),
    {
        let r = ClipboardState {
            available: false,
            source: if on_macos {
                ClipSource::Paste
            } else {
                ClipSource::Builtin
            },
            items: Vec::new(),
        };
        assert(clips_view(r.items@) =~= Seq::<ClipModel>::empty());
        r
    }

    pub fn copy(&self) -> (r: Self)
        ensures
            r@ == self@,
    {
        ClipboardState { available: self.available, source: self.source, items: copy_clips(&self.items) }
    }
}

fn same_opt(a: &Option<String>, b: &Option<String>) -> (r: bool)
    ensures
        r == (opt_view(*a) == opt_view(*b)),
{
    match (a, b) {
        (Some(x), Some(y)) => chars_eq(chars_of(x.as_str()).as_slice(), chars_of(y.as_str()).as_slice()),
        (None, None) => true,
        _ => false,
    }
}

fn same_clip(a: &ClipItem, b: &ClipItem) -> (r: bool)
    ensures
        r == (a@ == b@),
{
    a.id == b.id && a.kind == b.kind && chars_eq(
        chars_of(a.preview.as_str()).as_slice(),
        chars_of(b.preview.as_str()).as_slice(),
    ) && same_opt(&a.app, &b.app) && same_opt(&a.icon, &b.icon) && a.pinned == b.pinned
        && a.created_at == b.created_at
}

fn same_state(a: &ClipboardState, b: &ClipboardState) -> (r: bool)
    ensures
        r == (a@ == b@),
{
    if a.available != b.available || a.source != b.source || a.items.len() != b.items.len() {
        if a.items.len() != b.items.len() {
            assert(clips_view(a.items@).len() != clips_view(b.items@).len());
        }
        return false;
    }
    let mut i: usize = 0;
    while i < a.items.len()
        invariant
            a.items.len() == b.items.len(),
            i <= a.items.len(),
            forall|k: int| 0 <= k < i ==> a.items@[k]@ == b.items@[k]@,
        decreases a.items.len() - i,
    {
        if !same_clip(&a.items[i], &b.items[i]) {
            assert(clips_view(a.items@)[i as int] != clips_view(b.items@)[i as int]);
            return false;
        }
        i = i + 1;
    }
    assert(clips_view(a.items@) =~= clips_view(b.items@));
    true
}

// ---------------------------------------------------------------------------
// Paging.

/// How many entries the panel asks for before any scrolling.
pub const PAGE: usize = 24;

/// Scrolling stops loading here; the panel is a shortcut, not an archive.
pub const MAX_ITEMS: usize = 400;

/// The panel's state and how many entries it asks for.
pub struct ClipboardHub {
    state: ClipboardState,
    limit: usize,
}

impl View for ClipboardHub {
    type V = (bool, ClipSource, Seq<ClipModel>);

    closed spec fn view(&self) -> (bool, ClipSource, Seq<ClipModel>) {
        self.state@
    }
}

impl ClipboardHub {
    /// The panel asks for at least a page and at most `MAX_ITEMS` entries.
    #[verifier::type_invariant]
    spec fn limit_in_range(&self) -> bool {
        PAGE <= self.limit <= MAX_ITEMS
    }

    /// How many entries the panel asks for.
    pub closed spec fn limit_spec(&self) -> usize {
        self.limit
    }

    pub fn new(on_macos: bool) -> (r: Self)
        ensures
            r@ == (false, if on_macos {
                ClipSource::Paste
            } else {
                ClipSource::Builtin
            }, Seq::<ClipModel>::empty()),
            r.limit_spec() == PAGE,
    {
        ClipboardHub { state: ClipboardState::initial(on_macos), limit: PAGE }
    }

    pub fn current(&self) -> (r: ClipboardState)
        ensures
            r@ == self@,
    {
        self.state.copy()
    }

    pub fn limit(&self) -> (r: usize)
        ensures
            r == self.limit_spec(),
            PAGE <= r <= MAX_ITEMS,
    {
        proof {
            use_type_invariant(self);
        }
        self.limit
    }

    /// Keeps `next`; says whether it differs from what was shown.
    pub fn publish(&mut self, next: ClipboardState) -> (changed: bool)
        ensures
            final(self)@ == next@,
            final(self).limit_spec() == old(self).limit_spec(),
            changed == (old(self)@ != next@),
    {
        proof {
            use_type_invariant(&*self);
        }
        let same = same_state(&self.state, &next);
        self.state = next;
        !same
    }

    /// Asks for the next page when the panel is scrolled to the end. Once
    /// fewer entries arrived than were asked for, or the limit is reached,
    /// there is nothing more and the answer is false.
    pub fn more(&mut self) -> (r: bool)
        ensures
            final(self)@ == old(self)@,
            r == !(old(self)@.2.len() < old(self).limit_spec() || old(self).limit_spec() >= MAX_ITEMS),
            r ==> final(self).limit_spec() == (if old(self).limit_spec() + PAGE < MAX_ITEMS {
                old(self).limit_spec() + PAGE
            } else {
                MAX_ITEMS as int
            }),
            !r ==> final(self).limit_spec() == old(self).limit_spec(),
            old(self).limit_spec() <= final(self).limit_spec() <= MAX_ITEMS,
            final(self).limit_spec() == next_limit(old(self).limit_spec(), old(self)@.2.len()),
    {
        proof {
            use_type_invariant(&*self);
        }
        let loaded = self.state.items.len();
        let limit = self.limit;
        if loaded < limit || limit >= MAX_ITEMS {
            return false;
        }
        self.limit = if limit + PAGE < MAX_ITEMS {
            limit + PAGE
        } else {
            MAX_ITEMS
        };
        true
    }
}

/// The limit after asking for more, with `loaded` entries shown.
pub open spec fn next_limit(limit: usize, loaded: nat) -> usize {
    if loaded < limit || limit >= MAX_ITEMS {
        limit
    } else if limit + PAGE < MAX_ITEMS {
        (limit + PAGE) as usize
    } else {
        MAX_ITEMS
    }
}

/// The limit after asking for more after each of these counts of shown
/// entries, starting from the first page.
pub open spec fn limit_after(loaded: Seq<nat>) -> usize
    decreases loaded.len(),
{
    if loaded.len() == 0 {
        PAGE
    } else {
        next_limit(limit_after(loaded.drop_last()), loaded.last())
    }
}

/// Whatever the panel shows each time it asks for more, the limit starts at
/// a page, stays between `PAGE` and `MAX_ITEMS`, never falls, and grows by
/// at most a page at a time.
pub proof fn lemma_limit_bounded(loaded: Seq<nat>)
    ensures
        PAGE <= limit_after(loaded) <= MAX_ITEMS,
        loaded.len() > 0 ==> limit_after(loaded.drop_last()) <= limit_after(loaded) <= limit_after(
            loaded.drop_last(),
        ) + PAGE,
    decreases loaded.len(),
{
    if loaded.len() > 0 {
        lemma_limit_bounded(loaded.drop_last());
    }
}

// ---------------------------------------------------------------------------
// Previews.

/// Runs of white space become one space, and white space at the ends goes
/// (`split_whitespace` joined by spaces).
pub open spec fn collapse_from(s: Seq<char>, out: Seq<char>, gap: bool) -> Seq<char>
    decreases s.len(),
{
    if s.len() == 0 {
        out
    } else if is_ws(s[0]) {
        collapse_from(s.drop_first(), out, out.len() > 0)
    } else if gap {
        collapse_from(s.drop_first(), out.push(' ').push(s[0]), false)
    } else {
        collapse_from(s.drop_first(), out.push(s[0]), false)
    }
}

pub open spec fn collapsed(s: Seq<char>) -> Seq<char> {
    collapse_from(s, Seq::empty(), false)
}

pub fn collapse(s: &[char]) -> (r: Vec<char>)
    ensures
        r@ == collapsed(s@),
{
    let mut out: Vec<char> = Vec::new();
    let mut gap = false;
    let mut i: usize = 0;
    assert(s@.subrange(0, s@.len() as int) =~= s@);
    while i < s.len()
        invariant
            i <= s.len(),
            collapsed(s@) == collapse_from(s@.subrange(i as int, s@.len() as int), out@, gap),
        decreases s.len() - i,
    {
        let ghost rest = s@.subrange(i as int, s@.len() as int);
        assert(rest[0] == s@[i as int]);
        assert(rest.drop_first() =~= s@.subrange(i + 1, s@.len() as int));
        let c = s[i];
        if is_whitespace(c) {
            gap = out.len() > 0;
        } else {
            if gap {
                out.push(' ');
            }
            out.push(c);
            gap = false;
        }
        i = i + 1;
    }
    assert(s@.subrange(i as int, s@.len() as int) =~= Seq::<char>::empty());
    out
}

/// A preview is this many characters at most.
pub const PREVIEW_CHARS: usize = 180;


// ---------------------------------------------------------------------------
// Platforms without a clipboard history.

/// What a command answers where the platform lacks what it needs.
#[derive(Debug, Clone, Copy, PartialEq, Eq, Structural)]
pub enum Missing {
    /// No history to put back on the clipboard.
    History,
    /// No external clipboard panel.
    Panel,
    /// The history belongs to Paste.
    Clearing,
    /// Nothing to install.
    Install,
}

pub open spec fn missing_text(zh: bool, m: Missing) -> Seq<char> {
    match m {
        Missing::History => if zh {
            "剪贴板在这个平台上不可用"@
        } else {
            "No clipboard history on this platform"@
        },
        Missing::Panel => if zh {
            "这个平台没有外部剪贴板面板"@
        } else {
            "No external clipboard panel on this platform"@
        },
        Missing::Clearing => if zh {
            "历史由 Paste 管理，请在 Paste 里清空"@
        } else {
            "Paste owns this history; clear it there"@
        },
        Missing::Install => if zh {
            "不需要安装"@
        } else {
            "Nothing to install"@
        },
    }
}

pub fn missing_message(language: &LanguageState, m: Missing) -> (r: String)
    ensures
        r@ == missing_text(language.is_chinese(), m),
{
    match m {
        Missing::History => owned(
            t(language, "剪贴板在这个平台上不可用", "No clipboard history on this platform"),
        ),
        Missing::Panel => owned(
            t(language, "这个平台没有外部剪贴板面板", "No external clipboard panel on this platform"),
        ),
        Missing::Clearing => owned(
            t(language, "历史由 Paste 管理，请在 Paste 里清空", "Paste owns this history; clear it there"),
        ),
        Missing::Install => owned(t(language, "不需要安装", "Nothing to install")),
    }
}

} // verus!
