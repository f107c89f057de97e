//! Bangs speaks Chinese or English. It follows the system by default; the tray
//! menu can pin it to one language.
//!
//! Call sites pass both texts rather than a key, so the words stay where they
//! are read: `t(&language, "退出", "Quit")`.

use vstd::prelude::*;

use crate::text::{chars_of, lowercase, starts_with, starts_with_exec, to_lowercase};

verus! {

/// The language in use. A new state speaks Chinese until `apply` decides.
pub struct LanguageState {
    chinese: bool,
}

impl LanguageState {
    pub closed spec fn is_chinese(&self) -> bool {
        self.chinese
    }

    pub fn new() -> (r: Self)
        ensures
            r.is_chinese(),
    {
        LanguageState { chinese: true }
    }
}

/// The text for the language in use.
pub fn t(state: &LanguageState, zh: &'static str, en: &'static str) -> (r: &'static str)
    ensures
        r == (if state.is_chinese() {
            zh
        } else {
            en
        }),
{
    if chinese(state) {
        zh
    } else {
        en
    }
}

pub fn chinese(state: &LanguageState) -> (r: bool)
    ensures
        r == state.is_chinese(),
{
    state.chinese
}

/// The language actually in use, for the webview: `zh` or `en`.
pub fn code(state: &LanguageState) -> (r: &'static str)
    ensures
        r == (if state.is_chinese() {
            "zh"
        } else {
            "en"
        }),
{
    t(state, "zh", "en")
}

/// Whether a preference selects Chinese: `Some("zh")` does, `Some("en")` does
/// not, and anything else follows the system language, which selects Chinese
/// when its lowercase form starts with `zh`.
pub open spec fn choose_chinese(preference: Option<Seq<char>>, system_language: Seq<char>) -> bool {
    match preference {
        Some(p) => if p == "zh"@ {
            true
        } else if p == "en"@ {
            false
        } else {
            starts_with(lowercase(system_language), "zh"@)
        },
        None => starts_with(lowercase(system_language), "zh"@),
    }
}

/// How the language is chosen: `zh` pins Chinese and `en` pins English
/// whatever the system says; any other preference, or none, follows the
/// system, so that a system language whose lowercase form starts with `zh`
/// gives Chinese and one that starts with `en` gives English.
pub proof fn lemma_language_choice(preference: Option<Seq<char>>, system_language: Seq<char>)
    ensures
        choose_chinese(Some("zh"@), system_language),
        !choose_chinese(Some("en"@), system_language),
        preference matches Some(p) ==> (p != "zh"@ && p != "en"@ ==> choose_chinese(
            preference,
            system_language,
        ) == choose_chinese(None, system_language)),
        starts_with(lowercase(system_language), "zh"@) ==> choose_chinese(None, system_language),
        starts_with(lowercase(system_language), "en"@) ==> !choose_chinese(None, system_language),
{
    reveal_strlit("zh");
    reveal_strlit("en");
    assert("en"@[0] != "zh"@[0]);
    let low = lowercase(system_language);
    if starts_with(low, "en"@) && starts_with(low, "zh"@) {
        assert(low[0] == "en"@[0]);
        assert(low[0] == "zh"@[0]);
    }
}

/// `Some("zh")`, `Some("en")`, or anything else to follow the system, whose
/// language tag (such as "zh-CN") the caller reads.
pub fn apply(state: &mut LanguageState, preference: Option<&str>, system_language: &str)
    ensures
        final(state).is_chinese() == choose_chinese(
            match preference {
                Some(p) => Some(p@),
                None => None,
            },
            system_language@,
        ),
{
    let follow = match preference {
        Some(p) => {
            let chars = chars_of(p);
            if crate::text::chars_eq(chars.as_slice(), chars_of("zh").as_slice()) {
                Some(true)
            } else if crate::text::chars_eq(chars.as_slice(), chars_of("en").as_slice()) {
                Some(false)
            } else {
                None
            }
        },
        None => None,
    };
    state.chinese = match follow {
        Some(choice) => choice,
        None => chinese_tag(to_lowercase(system_language).as_str()),
    };
}

/// Whether a lowercased language tag names Chinese: it starts with `zh`.
pub fn chinese_tag(lowered: &str) -> (r: bool)
    ensures
        r == starts_with(lowered@, "zh"@),
{
    starts_with_exec(chars_of(lowered).as_slice(), chars_of("zh").as_slice())
}

} // verus!
