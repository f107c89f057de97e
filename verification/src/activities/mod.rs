//! Rows that other programs put on the notch.
//!
//! A plugin writes a JSON file into the activities directory, or asks the
//! loopback API to write it. Everything a plugin sends is a suggestion: text is
//! trimmed, flattened to one line and cut to `MAX_FIELD` characters, links
//! other than http(s) are dropped, and at most `MAX_ACTIVITIES` rows are shown,
//! newest first.

use vstd::prelude::*;

use crate::sort::{
    is_sorted_by, key_order, lemma_sort_by_sorted, lemma_sort_map, sort_by, stable_sort_exec,
    total_preorder, SortKey,
};
use crate::text::{
    ascii_lower, ascii_lower_exec, chars_of, clone_opt, flatten, flatten_exec, lemma_lex_total,
    lemma_lex_trans, lex_le, lex_le_exec, opt_view, starts_with, starts_with_exec, string_of,
    take_chars, take_chars_exec, trim, trim_exec,
};

pub mod api;

verus! {

/// A row is a line of text; anything longer is cut.
pub const MAX_FIELD: usize = 200;

/// The panel scrolls, but no plugin may bury everything else.
pub const MAX_ACTIVITIES: usize = 12;

/// One line on the notch, as a plugin describes it.
pub struct Activity {
    /// Stable across updates; the file name stands in when it is left out.
    pub id: String,
    pub title: String,
    pub subtitle: Option<String>,
    /// A glyph name the notch knows.
    pub icon: Option<String>,
    /// The fill of the bar under the title, as the bit pattern of an IEEE-754
    /// double in 0…1. This module carries it and never reads it.
    pub progress: Option<u64>,
    /// Opened with the system handler when the row is clicked.
    pub url: Option<String>,
    /// Unix seconds after which the row leaves on its own.
    pub expires_at: Option<u64>,
    /// When the row was last written, in Unix seconds: the sort key.
    pub updated_at: u64,
}

pub struct ActivityModel {
    pub id: Seq<char>,
    pub title: Seq<char>,
    pub subtitle: Option<Seq<char>>,
    pub icon: Option<Seq<char>>,
    pub progress: Option<u64>,
    pub url: Option<Seq<char>>,
    pub expires_at: Option<u64>,
    pub updated_at: u64,
}

impl View for Activity {
    type V = ActivityModel;

    open spec fn view(&self) -> ActivityModel {
        ActivityModel {
            id: self.id@,
            title: self.title@,
            subtitle: opt_view(self.subtitle),
            icon: opt_view(self.icon),
            progress: self.progress,
            url: opt_view(self.url),
            expires_at: self.expires_at,
            updated_at: self.updated_at,
        }
    }
}

pub open spec fn activities_view(v: Seq<Activity>) -> Seq<ActivityModel> {
    v.map_values(|a: Activity| a@)
}

pub open spec fn opt_activity_view(a: Option<Activity>) -> Option<ActivityModel> {
    match a {
        Some(x) => Some(x@),
        None => None,
    }
}

/// A field as it is kept: trimmed, with line breaks and tabs turned into
/// spaces, and cut to `MAX_FIELD` characters.
pub open spec fn clipped(s: Seq<char>) -> Seq<char> {
    take_chars(flatten(trim(s)), MAX_FIELD as int)
}

/// An optional field is dropped when nothing is left of it.
pub open spec fn clipped_opt(s: Option<Seq<char>>) -> Option<Seq<char>> {
    match s {
        Some(t) => if clipped(t).len() > 0 {
            Some(clipped(t))
        } else {
            None
        },
        None => None,
    }
}

pub open spec fn http_prefix() -> Seq<char> {
    seq!['h', 't', 't', 'p', ':', '/', '/']
}

pub open spec fn https_prefix() -> Seq<char> {
    seq!['h', 't', 't', 'p', 's', ':', '/', '/']
}

/// Only the two schemes that mean "a web page" get through, in any case.
pub open spec fn web_link(u: Seq<char>) -> bool {
    starts_with(ascii_lower(u), http_prefix()) || starts_with(ascii_lower(u), https_prefix())
}

pub open spec fn web_link_opt(u: Option<Seq<char>>) -> Option<Seq<char>> {
    match u {
        Some(t) => if web_link(t) {
            Some(t)
        } else {
            None
        },
        None => None,
    }
}

/// What `sanitize` keeps of a row: `None` when the id or the title is empty
/// after clipping.
pub open spec fn sanitized(a: ActivityModel, fallback_id: Seq<char>, updated_at: u64) -> Option<
    ActivityModel,
> {
    let id = clipped(if a.id.len() == 0 {
        fallback_id
    } else {
        a.id
    });
    let title = clipped(a.title);
    if id.len() == 0 || title.len() == 0 {
        None
    } else {
        Some(
            ActivityModel {
                id,
                title,
                subtitle: clipped_opt(a.subtitle),
                icon: clipped_opt(a.icon),
                progress: a.progress,
                url: web_link_opt(a.url),
                expires_at: a.expires_at,
                updated_at,
            },
        )
    }
}

/// No line break or tab.
pub open spec fn one_line(s: Seq<char>) -> bool {
    forall|i: int| 0 <= i < s.len() ==> #[trigger] s[i] != '\n' && s[i] != '\r' && s[i] != '\t'
}

proof fn lemma_clipped_one_line(s: Seq<char>)
    ensures
        clipped(s).len() <= MAX_FIELD,
        one_line(clipped(s)),
{
    let f = flatten(trim(s));
    assert forall|i: int| 0 <= i < clipped(s).len() implies #[trigger] clipped(s)[i] != '\n'
        && clipped(s)[i] != '\r' && clipped(s)[i] != '\t' by {
        assert(clipped(s)[i] == f[i]);
    }
}

/// A row that is kept has an id and a title, every text of it is at most
/// `MAX_FIELD` characters on one line, its link (if any) is http(s), and it
/// carries the time it was written.
pub proof fn lemma_sanitized_row(a: ActivityModel, fallback_id: Seq<char>, updated_at: u64)
    ensures
        sanitized(a, fallback_id, updated_at) matches Some(r) ==> {
            &&& 0 < r.id.len() <= MAX_FIELD && one_line(r.id)
            &&& 0 < r.title.len() <= MAX_FIELD && one_line(r.title)
            &&& (r.subtitle matches Some(t) ==> 0 < t.len() <= MAX_FIELD && one_line(t))
            &&& (r.icon matches Some(t) ==> 0 < t.len() <= MAX_FIELD && one_line(t))
            &&& (r.url matches Some(u) ==> web_link(u))
            &&& r.updated_at == updated_at
        },
{
    lemma_clipped_one_line(if a.id.len() == 0 {
        fallback_id
    } else {
        a.id
    });
    lemma_clipped_one_line(a.title);
    if let Some(t) = a.subtitle {
        lemma_clipped_one_line(t);
    }
    if let Some(t) = a.icon {
        lemma_clipped_one_line(t);
    }
}

/// A text that is already clean (no white space at either end, on one line,
/// at most `MAX_FIELD` characters) is kept exactly as it is.
pub proof fn lemma_clean_text_kept(t: Seq<char>)
    requires
        t.len() <= MAX_FIELD,
        t.len() > 0 ==> !crate::text::is_ws(t[0]) && !crate::text::is_ws(t[t.len() - 1]),
        one_line(t),
    ensures
        clipped(t) == t,
{
    if t.len() > 0 {
        assert(crate::text::skip_ws(t, 0) == 0);
        assert(crate::text::back_ws(t, t.len() as int) == t.len());
    }
    assert(t.subrange(0, t.len() as int) =~= t);
    assert(trim(t) == t);
    assert(flatten(t) =~= t);
}

/// What sanitizing keeps of each field: a row is kept exactly when its id
/// (the fallback when it gives none) and its title are not empty once
/// clipped; then the id and title are the clipped texts, a subtitle or
/// icon is its clipped text when something is left of it and is dropped
/// otherwise, a link is kept exactly when it is a web link, and the
/// progress and expiry are kept as they are, with the time of writing.
pub proof fn lemma_sanitize_keeps_fields(a: ActivityModel, fallback_id: Seq<char>, updated_at: u64)
    ensures
        (sanitized(a, fallback_id, updated_at) is Some) == (clipped(
            if a.id.len() == 0 {
                fallback_id
            } else {
                a.id
            },
        ).len() > 0 && clipped(a.title).len() > 0),
        sanitized(a, fallback_id, updated_at) matches Some(r) ==> {
            &&& r.id == clipped(
                if a.id.len() == 0 {
                    fallback_id
                } else {
                    a.id
                },
            )
            &&& r.title == clipped(a.title)
            &&& (a.subtitle matches Some(t) ==> (clipped(t).len() > 0 ==> r.subtitle == Some(clipped(t))))
            &&& (a.subtitle matches Some(t) ==> (clipped(t).len() == 0 ==> r.subtitle is None))
            &&& (a.subtitle is None ==> r.subtitle is None)
            &&& (a.icon matches Some(t) ==> (clipped(t).len() > 0 ==> r.icon == Some(clipped(t))))
            &&& (a.icon matches Some(t) ==> (clipped(t).len() == 0 ==> r.icon is None))
            &&& (a.icon is None ==> r.icon is None)
            &&& (a.url matches Some(u) ==> (web_link(u) ==> r.url == Some(u)))
            &&& (a.url matches Some(u) ==> (!web_link(u) ==> r.url is None))
            &&& (a.url is None ==> r.url is None)
            &&& r.progress == a.progress
            &&& r.expires_at == a.expires_at
            &&& r.updated_at == updated_at
        },
{
}

fn clip_chars(text: &[char]) -> (r: Vec<char>)
    ensures
        r@ == clipped(text@),
{
    let t = trim_exec(text);
    let f = flatten_exec(t.as_slice());
    take_chars_exec(f.as_slice(), MAX_FIELD)
}

/// Trims, flattens and cuts one field.
pub fn clip(text: &str) -> (r: String)
    ensures
        r@ == clipped(text@),
{
    let c = chars_of(text);
    let k = clip_chars(c.as_slice());
    string_of(k.as_slice())
}

fn clip_opt(text: &Option<String>) -> (r: Option<String>)
    ensures
        opt_view(r) == clipped_opt(opt_view(*text)),
{
    match text {
        Some(t) => {
            let k = clip_chars(chars_of(t.as_str()).as_slice());
            if k.len() > 0 {
                Some(string_of(k.as_slice()))
            } else {
                None
            }
        },
        None => None,
    }
}

/// Whether a link may be opened: http or https, in any letter case.
pub fn is_web_link(url: &str) -> (r: bool)
    ensures
        r == web_link(url@),
{
    let lower = ascii_lower_exec(chars_of(url).as_slice());
    let http: [char; 7] = ['h', 't', 't', 'p', ':', '/', '/'];
    let https: [char; 8] = ['h', 't', 't', 'p', 's', ':', '/', '/'];
    assert(http@ =~= http_prefix());
    assert(https@ =~= https_prefix());
    starts_with_exec(lower.as_slice(), http.as_slice()) || starts_with_exec(
        lower.as_slice(),
        https.as_slice(),
    )
}

impl Activity {
    /// The same row.
    pub fn copy(&self) -> (r: Activity)
        ensures
            r@ == self@,
    {
        Activity {
            id: self.id.clone(),
            title: self.title.clone(),
            subtitle: clone_opt(&self.subtitle),
            icon: clone_opt(&self.icon),
            progress: self.progress,
            url: clone_opt(&self.url),
            expires_at: self.expires_at,
            updated_at: self.updated_at,
        }
    }

    /// Treats a row as a suggestion: clips every field, falls back to
    /// `fallback_id` for a missing id, drops links that are not web pages and
    /// stamps the row with `updated_at`. A row without id or title is refused.
    pub fn sanitize(self, fallback_id: String, updated_at: u64) -> (r: Option<Activity>)
        ensures
            opt_activity_view(r) == sanitized(self@, fallback_id@, updated_at),
    {
        let own = chars_of(self.id.as_str());
        let id = if own.len() == 0 {
            clip_chars(chars_of(fallback_id.as_str()).as_slice())
        } else {
            clip_chars(own.as_slice())
        };
        let title = clip_chars(chars_of(self.title.as_str()).as_slice());
        if id.len() == 0 || title.len() == 0 {
            return None;
        }
        let url = match &self.url {
            Some(u) => if is_web_link(u.as_str()) {
                Some(u.clone())
            } else {
                None
            },
            None => None,
        };
        Some(
            Activity {
                id: string_of(id.as_slice()),
                title: string_of(title.as_slice()),
                subtitle: clip_opt(&self.subtitle),
                icon: clip_opt(&self.icon),
                progress: self.progress,
                url,
                expires_at: self.expires_at,
                updated_at,
            },
        )
    }

    /// Whether the row's deadline has come.
    pub fn expired(&self, now: u64) -> (r: bool)
        ensures
            r == (self.expires_at matches Some(d) && d <= now),
    {
        match self.expires_at {
            Some(d) => d <= now,
            None => false,
        }
    }
}

// ---------------------------------------------------------------------------
// The list on the notch.

/// Newest first; rows written in the same second go by id.
pub open spec fn activity_order() -> spec_fn(ActivityModel, ActivityModel) -> bool {
    |a: ActivityModel, b: ActivityModel|
        a.updated_at > b.updated_at || (a.updated_at == b.updated_at && lex_le(a.id, b.id))
}

impl SortKey for Activity {
    open spec fn stays_before(&self, other: &Self) -> bool {
        self.updated_at > other.updated_at || (self.updated_at == other.updated_at && lex_le(
            self.id@,
            other.id@,
        ))
    }

    fn le(&self, other: &Self) -> (r: bool) {
        if self.updated_at != other.updated_at {
            self.updated_at > other.updated_at
        } else {
            lex_le_exec(chars_of(self.id.as_str()).as_slice(), chars_of(other.id.as_str()).as_slice())
        }
    }
}

/// The rows shown: sorted newest first, at most `MAX_ACTIVITIES` of them.
pub open spec fn arranged(v: Seq<ActivityModel>) -> Seq<ActivityModel> {
    let s = sort_by(v, activity_order());
    if s.len() <= MAX_ACTIVITIES {
        s
    } else {
        s.subrange(0, MAX_ACTIVITIES as int)
    }
}

/// Sorts the rows newest first (by id within a second) and keeps the first
/// `MAX_ACTIVITIES`.
pub fn arrange(list: Vec<Activity>) -> (r: Vec<Activity>)
    ensures
        activities_view(r@) == arranged(activities_view(list@)),
{
    let ghost input = list@;
    let mut sorted = stable_sort_exec(list);
    proof {
        let f = |a: Activity| a@;
        lemma_sort_map(input, f, key_order::<Activity>(), activity_order());
        assert(activities_view(input) =~= input.map_values(f));
        assert(activities_view(sorted@) =~= sorted@.map_values(f));
    }
    let ghost full = sorted@;
    sorted.truncate(MAX_ACTIVITIES);
    proof {
        if full.len() > MAX_ACTIVITIES {
            assert(activities_view(sorted@) =~= activities_view(full).subrange(
                0,
                MAX_ACTIVITIES as int,
            ));
        }
    }
    sorted
}

proof fn lemma_activity_order_total()
    ensures
        total_preorder(activity_order()),
{
    assert forall|a: ActivityModel, b: ActivityModel|
        #[trigger] activity_order()(a, b) || activity_order()(b, a) by {
        lemma_lex_total(a.id, b.id);
    }
    assert forall|a: ActivityModel, b: ActivityModel, c: ActivityModel|
        #[trigger] activity_order()(a, b) && #[trigger] activity_order()(b, c) implies activity_order()(
        a,
        c,
    ) by {
        if a.updated_at == b.updated_at && b.updated_at == c.updated_at {
            lemma_lex_trans(a.id, b.id, c.id);
        }
    }
}

/// The rows on the notch are never more than `MAX_ACTIVITIES`, come newest
/// first (rows of the same second by id), and are rows that were read: as
/// many as were read, up to the limit.
pub proof fn lemma_arranged_newest_first(v: Seq<ActivityModel>)
    ensures
        arranged(v).len() == if v.len() <= MAX_ACTIVITIES {
            v.len()
        } else {
            MAX_ACTIVITIES as nat
        },
        is_sorted_by(arranged(v), activity_order()),
        forall|i: int, j: int|
            0 <= i < j < arranged(v).len() ==> #[trigger] arranged(v)[i].updated_at
                >= #[trigger] arranged(v)[j].updated_at,
        forall|i: int| 0 <= i < arranged(v).len() ==> v.contains(#[trigger] arranged(v)[i]),
{
    broadcast use vstd::seq_lib::group_seq_properties;

    lemma_activity_order_total();
    lemma_sort_by_sorted(v, activity_order());
    let s = sort_by(v, activity_order());
    assert(s.len() == s.to_multiset().len());
    let r = arranged(v);
    assert forall|i: int, j: int| 0 <= i < j < r.len() implies activity_order()(r[i], r[j]) by {
        assert(r[i] == s[i] && r[j] == s[j]);
    }
    assert forall|i: int| 0 <= i < r.len() implies v.contains(#[trigger] r[i]) by {
        assert(r[i] == s[i]);
        assert(s.to_multiset().count(s[i]) > 0);
        assert(v.to_multiset().count(s[i]) > 0);
    }
}

/// What becomes of one file in the directory.
pub enum FileStep {
    /// Not a row: no id, no title, or an id that is not a safe name.
    Skip,
    /// The row has expired; its file goes too.
    Remove,
    /// The row is shown.
    Keep(Activity),
}

/// Decides on a parsed file, named `stem`, written at `updated_at`. An
/// expired row takes its file along, whatever its id. A row that is shown
/// carries its id as checked: the file name unless the row gives one,
/// trimmed, and held to the same rule as an id posted to the API (1 to 64
/// ASCII letters, digits, `-` and `_`); a row whose id breaks it is skipped.
pub fn file_step(parsed: Activity, stem: String, updated_at: u64, now: u64) -> (r: FileStep)
    ensures
        match sanitized(parsed@, stem@, updated_at) {
            None => r is Skip,
            Some(a) => if a.expires_at matches Some(d) && d <= now {
                r is Remove
            } else {
                match crate::activities::api::safe_name_spec(a.id) {
                    None => r is Skip,
                    Some(f) => r matches FileStep::Keep(k) && k@ == (ActivityModel { id: f, ..a }),
                }
            },
        },
{
    match parsed.sanitize(stem, updated_at) {
        None => FileStep::Skip,
        Some(a) => if a.expired(now) {
            FileStep::Remove
        } else {
            match crate::activities::api::safe_name(a.id.as_str()) {
                None => FileStep::Skip,
                Some(f) => {
                    let mut k = a;
                    k.id = f;
                    FileStep::Keep(k)
                },
            }
        },
    }
}

/// A row read from a file is shown only under an id the docs allow: 1 to
/// 64 ASCII letters, digits, `-` and `_`.
pub proof fn lemma_file_row_ids(a: ActivityModel, stem: Seq<char>, updated_at: u64)
    ensures
        sanitized(a, stem, updated_at) matches Some(r) ==> (
        crate::activities::api::safe_name_spec(r.id) matches Some(f) ==> {
            &&& 0 < f.len() <= crate::activities::api::MAX_ID
            &&& forall|i: int| 0 <= i < f.len() ==> #[trigger] crate::activities::api::id_char(f[i])
        }),
{
}

fn same_opt(a: &Option<String>, b: &Option<String>) -> (r: bool)
    ensures
        r == (opt_view(*a) == opt_view(*b)),
{
    match (a, b) {
        (Some(x), Some(y)) => crate::text::chars_eq(
            chars_of(x.as_str()).as_slice(),
            chars_of(y.as_str()).as_slice(),
        ),
        (None, None) => true,
        _ => false,
    }
}

/// Whether two rows are the same.
pub fn same_activity(a: &Activity, b: &Activity) -> (r: bool)
    ensures
        r == (a@ == b@),
{
    crate::text::chars_eq(chars_of(a.id.as_str()).as_slice(), chars_of(b.id.as_str()).as_slice())
        && crate::text::chars_eq(
        chars_of(a.title.as_str()).as_slice(),
        chars_of(b.title.as_str()).as_slice(),
    ) && same_opt(&a.subtitle, &b.subtitle) && same_opt(&a.icon, &b.icon) && a.progress
        == b.progress && same_opt(&a.url, &b.url) && a.expires_at == b.expires_at && a.updated_at
        == b.updated_at
}

/// Whether two lists hold the same rows in the same order.
pub fn same_list(a: &Vec<Activity>, b: &Vec<Activity>) -> (r: bool)
    ensures
        r == (activities_view(a@) == activities_view(b@)),
{
    if a.len() != b.len() {
        assert(activities_view(a@).len() != activities_view(b@).len());
        return false;
    }
    let mut i: usize = 0;
    while i < a.len()
        invariant
            a.len() == b.len(),
            i <= a.len(),
            forall|k: int| 0 <= k < i ==> a@[k]@ == b@[k]@,
        decreases a.len() - i,
    {
        if !same_activity(&a[i], &b[i]) {
            assert(activities_view(a@)[i as int] != activities_view(b@)[i as int]);
            return false;
        }
        i = i + 1;
    }
    assert(activities_view(a@) =~= activities_view(b@));
    true
}

fn copy_list(v: &Vec<Activity>) -> (r: Vec<Activity>)
    ensures
        activities_view(r@) == activities_view(v@),
{
    let mut out: Vec<Activity> = Vec::new();
    let mut i: usize = 0;
    while i < v.len()
        invariant
            i <= v.len(),
            out@.len() == i,
            forall|k: int| 0 <= k < i ==> out@[k]@ == v@[k]@,
        decreases v.len() - i,
    {
        out.push(v[i].copy());
        i = i + 1;
    }
    assert(activities_view(out@) =~= activities_view(v@));
    out
}

/// The first row with this id, if any.
pub open spec fn first_with_id(v: Seq<ActivityModel>, id: Seq<char>) -> Option<int>
    decreases v.len(),
{
    if v.len() == 0 {
        None
    } else if v[0].id == id {
        Some(0)
    } else {
        match first_with_id(v.drop_first(), id) {
            Some(i) => Some(i + 1),
            None => None,
        }
    }
}

/// The link of the first row with this id.
pub open spec fn link_of(v: Seq<ActivityModel>, id: Seq<char>) -> Option<Seq<char>> {
    match first_with_id(v, id) {
        Some(i) => v[i].url,
        None => None,
    }
}

pub open spec fn no_link_message(id: Seq<char>) -> Seq<char> {
    seq!['n', 'o', ' ', 'l', 'i', 'n', 'k', ' ', 'o', 'n', ' '] + id
}

/// The rows last handed to the webview.
pub struct ActivityHub {
    rows: Vec<Activity>,
}

impl View for ActivityHub {
    type V = Seq<ActivityModel>;

    closed spec fn view(&self) -> Seq<ActivityModel> {
        activities_view(self.rows@)
    }
}

impl ActivityHub {
    /// No rows yet.
    pub fn new() -> (r: Self)
        ensures
            r@ == Seq::<ActivityModel>::empty(),
    {
        let r = ActivityHub { rows: Vec::new() };
        assert(r@ =~= Seq::<ActivityModel>::empty());
        r
    }

    /// The rows last published.
    pub fn current(&self) -> (r: Vec<Activity>)
        ensures
            activities_view(r@) == self@,
    {
        copy_list(&self.rows)
    }

    /// Keeps `next` and says whether it differs from what was shown, so the
    /// poll loop only speaks up when something changed.
    pub fn publish(&mut self, next: Vec<Activity>) -> (changed: bool)
        ensures
            final(self)@ == activities_view(next@),
            changed == (old(self)@ != activities_view(next@)),
    {
        let same = same_list(&self.rows, &next);
        self.rows = next;
        !same
    }

    /// The link on the row with this id, looked up here rather than taken
    /// from the webview. The first row with the id decides.
    pub fn link_for(&self, id: &str) -> (r: Result<String, String>)
        ensures
            match link_of(self@, id@) {
                Some(u) => r matches Ok(x) && x@ == u,
                None => r matches Err(e) && e@ == no_link_message(id@),
            },
    {
        let want = chars_of(id);
        let mut i: usize = 0;
        assert(self@.subrange(0, self@.len() as int) =~= self@);
        while i < self.rows.len()
            invariant
                i <= self.rows.len(),
                want@ == id@,
                first_with_id(self@, id@) == match first_with_id(
                    self@.subrange(i as int, self@.len() as int),
                    id@,
                ) {
                    Some(k) => Some(k + i),
                    None => None::<int>,
                },
            decreases self.rows.len() - i,
        {
            let row = &self.rows[i];
            let ghost rest = self@.subrange(i as int, self@.len() as int);
            assert(rest[0] == row@);
            if crate::text::chars_eq(chars_of(row.id.as_str()).as_slice(), want.as_slice()) {
                return match &row.url {
                    Some(u) => Ok(u.clone()),
                    None => Err(no_link(id)),
                };
            }
            assert(rest.drop_first() =~= self@.subrange(i + 1, self@.len() as int));
            i = i + 1;
        }
        Err(no_link(id))
    }
}

fn no_link(id: &str) -> (r: String)
    ensures
        r@ == no_link_message(id@),
{
    let head: [char; 11] = ['n', 'o', ' ', 'l', 'i', 'n', 'k', ' ', 'o', 'n', ' '];
    let c = crate::text::concat(head.as_slice(), chars_of(id).as_slice());
    proof {
        assert(head@ =~= seq!['n', 'o', ' ', 'l', 'i', 'n', 'k', ' ', 'o', 'n', ' ']);
    }
    string_of(c.as_slice())
}

} // verus!
