//! Whether a newer release is out: version comparison, the tray label that
//! reports it, and the remembered answer of the last check.

use vstd::prelude::*;

use crate::numbers::{parse_u32, parse_u32_spec};
use crate::text::{
    chars_of, concat, split_on, split_on_exec, string_of, trim_start_matches,
    trim_start_matches_exec,
};

verus! {

/// The characters that separate the parts of a version.
pub open spec fn version_seps() -> Seq<char> {
    seq!['.', '-', '+']
}

/// The first three parts of a version, each read as a `u32` (0 when it is
/// not a number).
pub open spec fn version_parts(v: Seq<char>) -> Seq<u32> {
    let pieces = split_on(v, version_seps());
    let first = if pieces.len() > 3 {
        pieces.take(3)
    } else {
        pieces
    };
    first.map_values(
        |p: Seq<char>|
            match parse_u32_spec(p) {
                Some(n) => n,
                None => 0u32,
            },
    )
}

pub open spec fn part_at(parts: Seq<u32>, i: int) -> Option<u32> {
    if 0 <= i < parts.len() {
        Some(parts[i])
    } else {
        None
    }
}

pub open spec fn part_or_zero(parts: Seq<u32>, i: int) -> u32 {
    match part_at(parts, i) {
        Some(n) => n,
        None => 0,
    }
}

/// The comparison from part `i` on: the first part that differs (a missing
/// part differs from any present one) decides, reading a missing part as 0.
pub open spec fn newer_from(a: Seq<u32>, b: Seq<u32>, i: int) -> bool
    decreases 3 - i,
{
    if i >= 3 {
        false
    } else if part_at(a, i) != part_at(b, i) {
        part_or_zero(a, i) > part_or_zero(b, i)
    } else {
        newer_from(a, b, i + 1)
    }
}

pub open spec fn is_newer_spec(candidate: Seq<char>, current: Seq<char>) -> bool {
    newer_from(version_parts(candidate), version_parts(current), 0)
}

fn version_parts_exec(v: &[char]) -> (r: Vec<u32>)
    ensures
        r@ == version_parts(v@),
{
    let seps = ['.', '-', '+'];
    let pieces = split_on_exec(v, &seps);
    assert(seps@ =~= version_seps());
    let ghost model = pieces@.map_values(|p: Vec<char>| p@);
    let n = if pieces.len() > 3 {
        3
    } else {
        pieces.len()
    };
    let mut parts: Vec<u32> = Vec::new();
    let mut i: usize = 0;
    while i < n
        invariant
            n <= pieces.len(),
            n == (if pieces.len() > 3 {
                3
            } else {
                pieces.len()
            }),
            model == split_on(v@, version_seps()),
            model == pieces@.map_values(|p: Vec<char>| p@),
            i <= n,
            parts@.len() == i,
            forall|k: int|
                0 <= k < i ==> parts@[k] == match parse_u32_spec(#[trigger] model[k]) {
                    Some(m) => m,
                    None => 0u32,
                },
        decreases n - i,
    {
        let value = match parse_u32(pieces[i].as_slice()) {
            Some(m) => m,
            None => 0,
        };
        assert(model[i as int] == pieces@[i as int]@);
        parts.push(value);
        i = i + 1;
    }
    let ghost first = if model.len() > 3 {
        model.take(3)
    } else {
        model
    };
    assert(parts@ =~= first.map_values(
        |p: Seq<char>|
            match parse_u32_spec(p) {
                Some(m) => m,
                None => 0u32,
            },
    ));
    parts
}

proof fn lemma_newer_from_strict(a: Seq<u32>, b: Seq<u32>, i: int)
    ensures
        !newer_from(a, a, i),
        newer_from(a, b, i) ==> !newer_from(b, a, i),
    decreases 3 - i,
{
    if i < 3 {
        lemma_newer_from_strict(a, b, i + 1);
    }
}

/// "Newer" is a strict order on versions: no version is newer than itself,
/// and of two versions at most one is newer than the other.
pub proof fn lemma_newer_is_strict(a: Seq<char>, b: Seq<char>)
    ensures
        !is_newer_spec(a, a),
        is_newer_spec(a, b) ==> !is_newer_spec(b, a),
{
    lemma_newer_from_strict(version_parts(a), version_parts(b), 0);
}

/// Compares dotted versions numerically, so 0.10.0 beats 0.9.0.
pub fn is_newer(candidate: &str, current: &str) -> (r: bool)
    ensures
        r == is_newer_spec(candidate@, current@),
{
    let a = version_parts_exec(chars_of(candidate).as_slice());
    let b = version_parts_exec(chars_of(current).as_slice());
    let mut i: usize = 0;
    while i < 3
        invariant
            i <= 3,
            a@ == version_parts(candidate@),
            b@ == version_parts(current@),
            newer_from(a@, b@, 0) == newer_from(a@, b@, i as int),
        decreases 3 - i,
    {
        let left: Option<u32> = if i < a.len() {
            Some(a[i])
        } else {
            None
        };
        let right: Option<u32> = if i < b.len() {
            Some(b[i])
        } else {
            None
        };
        let differ = match (left, right) {
            (Some(x), Some(y)) => x != y,
            (None, None) => false,
            _ => true,
        };
        if differ {
            let x = match left {
                Some(x) => x,
                None => 0,
            };
            let y = match right {
                Some(y) => y,
                None => 0,
            };
            return x > y;
        }
        i = i + 1;
    }
    false
}

/// The tray entry for the version: a newer release to download, this build
/// being the newest, or only this build's version when no check has answered.
pub open spec fn menu_label_spec(latest: Option<Seq<char>>, version: Seq<char>) -> Seq<char> {
    match latest {
        Some(l) => if is_newer_spec(l, version) {
            "有新版本 v"@ + l + " — 去下载"@
        } else {
            "已是最新 v"@ + version
        },
        None => "版本 v"@ + version,
    }
}

pub fn menu_label(latest: Option<&str>, version: &str) -> (r: String)
    ensures
        r@ == menu_label_spec(
            match latest {
                Some(l) => Some(l@),
                None => None,
            },
            version@,
        ),
{
    match latest {
        Some(l) => {
            if is_newer(l, version) {
                let head = concat(chars_of("有新版本 v").as_slice(), chars_of(l).as_slice());
                let all = concat(head.as_slice(), chars_of(" — 去下载").as_slice());
                string_of(all.as_slice())
            } else {
                let all = concat(chars_of("已是最新 v").as_slice(), chars_of(version).as_slice());
                string_of(all.as_slice())
            }
        },
        None => {
            let all = concat(chars_of("版本 v").as_slice(), chars_of(version).as_slice());
            string_of(all.as_slice())
        },
    }
}

/// The version a release tag names: the tag without its leading `v`s.
pub fn release_version(tag: &str) -> (r: String)
    ensures
        r@ == trim_start_matches(tag@, 'v'),
{
    let v = trim_start_matches_exec(chars_of(tag).as_slice(), 'v');
    string_of(v.as_slice())
}

/// The version in GitHub's answer about the latest release: its
/// `tag_name` without leading `v`s; nothing when the answer has no tag.
pub fn release_from_json(body: &str) -> (r: Option<String>)
    ensures
        match crate::dev::workspaces::json_text_at(body@, seq!["tag_name"@]) {
            Some(tag) => r matches Some(v) && v@ == trim_start_matches(tag, 'v'),
            None => r is None,
        },
{
    let keys: [&str; 1] = ["tag_name"];
    assert(crate::dev::workspaces::keys_view(keys@) =~= seq!["tag_name"@]);
    match crate::dev::workspaces::json_text(body, keys.as_slice()) {
        Some(tag) => Some(release_version(tag.as_str())),
        None => None,
    }
}

/// The newest released version, once a check has answered.
pub struct UpdateState {
    latest: Option<String>,
}

impl UpdateState {
    pub closed spec fn latest_spec(&self) -> Option<Seq<char>> {
        match self.latest {
            Some(l) => Some(l@),
            None => None,
        }
    }

    pub fn new() -> (r: Self)
        ensures
            r.latest_spec() is None,
    {
        UpdateState { latest: None }
    }

    pub fn latest(&self) -> (r: Option<String>)
        ensures
            match r {
                Some(l) => self.latest_spec() == Some(l@),
                None => self.latest_spec() is None,
            },
    {
        match &self.latest {
            Some(l) => Some(l.clone()),
            None => None,
        }
    }

    /// Remembers this answer.
    pub fn set(&mut self, latest: Option<String>)
        ensures
            final(self).latest_spec() == match latest {
                Some(l) => Some(l@),
                None => None,
            },
    {
        self.latest = latest;
    }

    /// Takes the answer of a check. A failed check (`None`) changes nothing;
    /// otherwise the answer is kept. Returns whether the remembered version
    /// changed, which is when the tray needs rebuilding.
    pub fn record(&mut self, fetched: Option<String>) -> (changed: bool)
        ensures
            match fetched {
                None => final(self).latest_spec() == old(self).latest_spec() && !changed,
                Some(f) => final(self).latest_spec() == Some(f@) && changed == (old(
                    self,
                ).latest_spec() != Some(f@)),
            },
    {
        match fetched {
            None => false,
            Some(f) => {
                let same = match &self.latest {
                    Some(l) => crate::text::chars_eq(
                        chars_of(l.as_str()).as_slice(),
                        chars_of(f.as_str()).as_slice(),
                    ),
                    None => false,
                };
                self.set(Some(f));
                !same
            },
        }
    }
}

} // verus!
