//! The languages of the user interface, and the lookup of its texts.

use vstd::prelude::*;
use crate::jsheet::entry_of;
use crate::model::Model;
use crate::strmap::{lemma_pairs_map, StrMap};
use crate::text::same_text;

verus! {

#[derive(Clone, Copy, Debug, PartialEq, Eq, Structural)]
pub enum Language {
    En,
    ZhHant,
}

/// The texts of the user interface by key, one catalog per language.
#[derive(Debug, PartialEq)]
pub struct Catalogs {
    pub en: StrMap<String>,
    pub zh_hant: StrMap<String>,
}

pub open spec fn code_of(language: Language) -> Seq<char> {
    match language {
        Language::En => "en"@,
        Language::ZhHant => "zh-Hant"@,
    }
}

pub open spec fn label_key_of(language: Language) -> Seq<char> {
    match language {
        Language::En => "language.option.en"@,
        Language::ZhHant => "language.option.zh_hant"@,
    }
}

/// The language that a code names.
pub open spec fn language_of(code: Seq<char>) -> Option<Language> {
    if code == "en"@ {
        Some(Language::En)
    } else if code == "zh-Hant"@ {
        Some(Language::ZhHant)
    } else {
        None
    }
}

/// The text of `key` in a language: what the catalog of the language holds,
/// else what the English catalog holds, else the key itself.
pub open spec fn text_in_language(
    en: Seq<(Seq<char>, Seq<char>)>,
    zh_hant: Seq<(Seq<char>, Seq<char>)>,
    language: Language,
    key: Seq<char>,
) -> Seq<char> {
    let own = match language {
        Language::En => en,
        Language::ZhHant => zh_hant,
    };
    match entry_of(own, key) {
        Some(text) => text,
        None => match entry_of(en, key) {
            Some(text) => text,
            None => key,
        },
    }
}

impl Default for Language {
    fn default() -> (r: Self)
        ensures
            r == Language::En,
    {
        Language::En
    }
}

impl Language {
    /// The languages on offer.
    pub fn all() -> (r: Vec<Language>)
        ensures
            r@ == seq![Language::En, Language::ZhHant],
    {
        let mut out: Vec<Language> = Vec::new();
        out.push(Language::En);
        out.push(Language::ZhHant);
        assert(out@ =~= seq![Language::En, Language::ZhHant]);
        out
    }

    pub fn code(self) -> (r: &'static str)
        ensures
            r@ == code_of(self),
    {
        match self {
            Language::En => "en",
            Language::ZhHant => "zh-Hant",
        }
    }

    pub fn from_code(code: &str) -> (r: Option<Language>)
        ensures
            r == language_of(code@),
    {
        if same_text(code, "en") {
            Some(Language::En)
        } else if same_text(code, "zh-Hant") {
            Some(Language::ZhHant)
        } else {
            None
        }
    }

    pub fn label_key(self) -> (r: &'static str)
        ensures
            r@ == label_key_of(self),
    {
        match self {
            Language::En => "language.option.en",
            Language::ZhHant => "language.option.zh_hant",
        }
    }
}

/// The code of a language names that language.
pub proof fn lemma_code_round_trip(language: Language)
    ensures
        language_of(code_of(language)) == Some(language),
{
    reveal_strlit("en");
    reveal_strlit("zh-Hant");
    if language == Language::ZhHant {
        assert("zh-Hant"@.len() != "en"@.len());
    }
}

/// The catalog of a language.
pub fn catalog(catalogs: &Catalogs, language: Language) -> (r: &StrMap<String>)
    ensures
        r.model() == match language {
            Language::En => catalogs.en.model(),
            Language::ZhHant => catalogs.zh_hant.model(),
        },
{
    match language {
        Language::En => &catalogs.en,
        Language::ZhHant => &catalogs.zh_hant,
    }
}

/// The text of `key` in a language.
pub fn tr(catalogs: &Catalogs, language: Language, key: &str) -> (r: String)
    ensures
        r@ == text_in_language(catalogs.en.model(), catalogs.zh_hant.model(), language, key@),
{
    let own = catalog(catalogs, language);
    let n = own.len();
    let m = catalogs.en.len();
    proof {
        lemma_pairs_map(own.pairs());
        lemma_pairs_map(catalogs.en.pairs());
    }
    match own.get(key) {
        Some(text) => text.clone(),
        None => match catalogs.en.get(key) {
            Some(text) => text.clone(),
            None => key.to_owned(),
        },
    }
}

} // verus!

verus! {

/// The catalog that a JSON text stands for: an object of texts by key; none
/// where the text is no such object.
pub open spec fn catalog_of_text(text: Seq<char>) -> Option<Seq<(Seq<char>, Seq<char>)>> {
    if crate::json_io::json_valid(text) {
        match crate::json_io::decoded(text, crate::json_io::MAX_DEPTH as nat) {
            Some(v) => <StrMap<String> as crate::codec::Json>::of_json(v),
            None => None,
        }
    } else {
        None
    }
}

/// Reads a catalog from its JSON text.
pub fn parse_catalog(text: &str) -> (r: Option<StrMap<String>>)
    ensures
        r.model() == catalog_of_text(text@),
{
    match crate::json_io::value_from_text(text) {
        Some(v) => <StrMap<String> as crate::codec::Json>::from_json(&v),
        None => None,
    }
}

} // verus!
