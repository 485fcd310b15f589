//! Languages of the interface: which languages are offered, which one a
//! request gets, and how a key is translated.
//!
//! Language packs arrive flattened: each is a list of keys with the text that
//! the key stands for in one language.  Reading the packs from disk is the
//! caller's task.

use vstd::prelude::*;
use crate::cache::{
    cached_value, fresh_items, items_with, CacheItemModel, TranslationCache, TranslationCacheModel,
};
use crate::text::{from_chars, matches_at, same_text, texts, to_chars, trim_chars, trimmed};

verus! {

/// What is known of one language.
#[derive(Debug, Clone, PartialEq, Eq)]
pub struct LanguageInfo {
    pub code: String,
    pub name: String,
    pub native_name: String,
    /// Whether the language is written from right to left.
    pub is_rtl: bool,
}

/// The model of what is known of a language.
pub struct LanguageInfoModel {
    pub code: Seq<char>,
    pub name: Seq<char>,
    pub native_name: Seq<char>,
    pub is_rtl: bool,
}

impl View for LanguageInfo {
    type V = LanguageInfoModel;

    open spec fn view(&self) -> LanguageInfoModel {
        LanguageInfoModel {
            code: self.code@,
            name: self.name@,
            native_name: self.native_name@,
            is_rtl: self.is_rtl,
        }
    }
}

/// The models of a list of languages.
pub open spec fn info_models(v: Seq<LanguageInfo>) -> Seq<LanguageInfoModel> {
    v.map_values(|i: LanguageInfo| i@)
}

/// A copy of what is known of a language.
pub fn copy_info(info: &LanguageInfo) -> (r: LanguageInfo)
    ensures
        r@ == info@,
{
    LanguageInfo {
        code: info.code.clone(),
        name: info.name.clone(),
        native_name: info.native_name.clone(),
        is_rtl: info.is_rtl,
    }
}

/// One entry of a language pack: a key and the text that it stands for, or
/// no text where the pack has a value for the key that is no text.
#[derive(Debug, Clone, PartialEq, Eq)]
pub struct PackEntry {
    pub key: String,
    pub text: Option<String>,
}

/// The texts of one language.
#[derive(Debug, Clone, PartialEq, Eq)]
pub struct LanguagePack {
    pub language: String,
    pub entries: Vec<PackEntry>,
}

/// The model of a pack entry.
pub struct PackEntryModel {
    pub key: Seq<char>,
    pub text: Option<Seq<char>>,
}

/// The model of a language pack.
pub struct PackModel {
    pub language: Seq<char>,
    pub entries: Seq<PackEntryModel>,
}

impl View for PackEntry {
    type V = PackEntryModel;

    open spec fn view(&self) -> PackEntryModel {
        PackEntryModel {
            key: self.key@,
            text: match self.text {
                Some(t) => Some(t@),
                None => None,
            },
        }
    }
}

impl View for LanguagePack {
    type V = PackModel;

    open spec fn view(&self) -> PackModel {
        PackModel {
            language: self.language@,
            entries: self.entries@.map_values(|e: PackEntry| e@),
        }
    }
}

/// The models of a list of packs.
pub open spec fn pack_models(v: Seq<LanguagePack>) -> Seq<PackModel> {
    v.map_values(|p: LanguagePack| p@)
}

/// One value of a language file that is no object, with the keys of the
/// objects that lead to it, outermost first, and its text where it is one.
#[derive(Debug, Clone, PartialEq, Eq)]
pub struct PackLeaf {
    pub path: Vec<String>,
    pub text: Option<String>,
}

/// The key of a value in a flattened pack: the keys that lead to it, joined
/// by points; a path that is empty so far adds no point.
pub open spec fn dotted(path: Seq<Seq<char>>) -> Seq<char>
    decreases path.len(),
{
    if path.len() == 0 {
        Seq::empty()
    } else {
        let prefix = dotted(path.drop_last());
        if prefix.len() == 0 {
            path.last()
        } else {
            prefix + seq!['.'] + path.last()
        }
    }
}

/// The entry of a flattened pack for a leaf.
pub open spec fn entry_of(leaf: PackLeaf) -> PackEntryModel {
    PackEntryModel {
        key: dotted(texts(leaf.path@)),
        text: match leaf.text {
            Some(t) => Some(t@),
            None => None,
        },
    }
}

/// The flattened key of a path.
pub fn dotted_key(path: &Vec<String>) -> (key: String)
    ensures
        key@ == dotted(texts(path@)),
{
    let ghost all = texts(path@);
    let mut key: String = String::new();
    let mut i: usize = 0;
    assert(all.take(0) =~= Seq::<Seq<char>>::empty());
    while i < path.len()
        invariant
            i <= path.len(),
            all == texts(path@),
            key@ == dotted(all.take(i as int)),
        decreases path.len() - i,
    {
        let ghost prefix = key@;
        proof {
            let part = all.take(i as int + 1);
            assert(part.drop_last() =~= all.take(i as int));
            assert(part.last() == path@[i as int]@);
        }
        if !key.as_str().is_empty() {
            key.push('.');
        }
        key.append(path[i].as_str());
        proof {
            if prefix.len() == 0 {
                assert(prefix + path@[i as int]@ =~= path@[i as int]@);
            } else {
                assert(prefix.push('.') + path@[i as int]@ =~= prefix + seq!['.'] + path@[i as int]@);
            }
        }
        i = i + 1;
    }
    assert(all.take(path.len() as int) =~= all);
    key
}

/// Flattens the values of a language file: one entry for each leaf, in order.
pub fn flatten_json(leaves: &Vec<PackLeaf>) -> (entries: Vec<PackEntry>)
    ensures
        entries@.map_values(|e: PackEntry| e@) == leaves@.map_values(|l: PackLeaf| entry_of(l)),
{
    let mut entries: Vec<PackEntry> = Vec::new();
    let mut i: usize = 0;
    while i < leaves.len()
        invariant
            i <= leaves.len(),
            entries@.len() == i,
            forall|k: int| 0 <= k < i ==> (#[trigger] entries@[k])@ == entry_of(leaves@[k]),
        decreases leaves.len() - i,
    {
        let text: Option<String> = match &leaves[i].text {
            Some(t) => Some(t.clone()),
            None => None,
        };
        entries.push(PackEntry { key: dotted_key(&leaves[i].path), text });
        i = i + 1;
    }
    assert(entries@.map_values(|e: PackEntry| e@) =~= leaves@.map_values(
        |l: PackLeaf| entry_of(l),
    ));
    entries
}

/// The settings of the language interface.
#[derive(Debug, Clone, PartialEq, Eq)]
pub struct I18nConfig {
    pub default_language: String,
    pub supported_languages: Vec<String>,
    pub auto_detect: bool,
    pub cache_enabled: bool,
    pub cache_expire_minutes: u64,
    pub multilingual_enabled: bool,
}

/// The model of the language interface.
pub struct I18nModel {
    pub default_language: Seq<char>,
    pub supported_languages: Seq<Seq<char>>,
    pub auto_detect: bool,
    pub cache_enabled: bool,
    pub cache_expire_minutes: u64,
    pub multilingual_enabled: bool,
    pub translations: Seq<PackModel>,
    pub language_info: Seq<LanguageInfoModel>,
    /// The translations that were looked up of late.
    pub cache: TranslationCacheModel,
}

/// The key under which the translation of `key` into `lang` is cached.
pub open spec fn cache_key(lang: Seq<char>, key: Seq<char>) -> Seq<char> {
    lang + seq![':'] + key
}

/// The text of `key` among `entries`: that of the last entry with this key,
/// where that entry has a text.
pub open spec fn entry_text(entries: Seq<PackEntryModel>, key: Seq<char>) -> Option<Seq<char>>
    decreases entries.len(),
{
    if entries.len() == 0 {
        None
    } else if entries.last().key == key {
        entries.last().text
    } else {
        entry_text(entries.drop_last(), key)
    }
}

/// The text of `key` in the language `lang`: that of the last pack of this
/// language.
pub open spec fn pack_text(packs: Seq<PackModel>, lang: Seq<char>, key: Seq<char>) -> Option<
    Seq<char>,
>
    decreases packs.len(),
{
    if packs.len() == 0 {
        None
    } else if packs.last().language == lang {
        entry_text(packs.last().entries, key)
    } else {
        pack_text(packs.drop_last(), lang, key)
    }
}

/// What is known of the language `code`: the last entry for it.
pub open spec fn info_of(infos: Seq<LanguageInfoModel>, code: Seq<char>) -> Option<
    LanguageInfoModel,
>
    decreases infos.len(),
{
    if infos.len() == 0 {
        None
    } else if infos.last().code == code {
        Some(infos.last())
    } else {
        info_of(infos.drop_last(), code)
    }
}

/// For each code of `codes` of which something is known, what is known, in
/// the order of `codes`.
pub open spec fn infos_for(infos: Seq<LanguageInfoModel>, codes: Seq<Seq<char>>) -> Seq<
    LanguageInfoModel,
>
    decreases codes.len(),
{
    if codes.len() == 0 {
        Seq::empty()
    } else {
        let before = infos_for(infos, codes.drop_last());
        match info_of(infos, codes.last()) {
            Some(i) => before.push(i),
            None => before,
        }
    }
}

/// The number of entries of all packs.
pub open spec fn total_entries(packs: Seq<PackModel>) -> int
    decreases packs.len(),
{
    if packs.len() == 0 {
        0
    } else {
        total_entries(packs.drop_last()) + packs.last().entries.len()
    }
}

/// `s` begins with `pattern`.
pub open spec fn begins_with(s: Seq<char>, pattern: Seq<char>) -> bool {
    pattern.len() <= s.len() && s.subrange(0, pattern.len() as int) == pattern
}

/// `s` with every occurrence of `pattern` replaced by `with`, from left to
/// right, no occurrence overlapping one before it.  An empty pattern
/// replaces nothing.
pub open spec fn replaced(s: Seq<char>, pattern: Seq<char>, with: Seq<char>) -> Seq<char>
    decreases s.len(),
{
    if pattern.len() == 0 || s.len() < pattern.len() {
        s
    } else if begins_with(s, pattern) {
        with + replaced(s.skip(pattern.len() as int), pattern, with)
    } else {
        seq![s.first()] + replaced(s.skip(1), pattern, with)
    }
}

/// The placeholder for the parameter `name`: the name in braces.
pub open spec fn placeholder(name: Seq<char>) -> Seq<char> {
    seq!['{'] + name + seq!['}']
}

/// `text` with the placeholders of `params` filled in, one parameter after
/// the other, in the order given.
pub open spec fn with_params(text: Seq<char>, params: Seq<(Seq<char>, Seq<char>)>) -> Seq<char>
    decreases params.len(),
{
    if params.len() == 0 {
        text
    } else {
        replaced(
            with_params(text, params.drop_last()),
            placeholder(params.last().0),
            params.last().1,
        )
    }
}

/// The models of a list of parameters.
pub open spec fn param_models(v: Seq<(String, String)>) -> Seq<(Seq<char>, Seq<char>)> {
    v.map_values(|p: (String, String)| (p.0@, p.1@))
}

/// Replaces every occurrence of `pattern` in `text` by `with`.
pub fn replace_all(text: &Vec<char>, pattern: &Vec<char>, with: &Vec<char>) -> (out: Vec<char>)
    ensures
        out@ == replaced(text@, pattern@, with@),
{
    let n: usize = text.len();
    let m: usize = pattern.len();
    let mut out: Vec<char> = Vec::new();
    let mut i: usize = 0;
    proof {
        assert(text@.skip(0) =~= text@);
        assert(out@ + replaced(text@, pattern@, with@) =~= replaced(text@, pattern@, with@));
    }
    while i < n
        invariant
            i <= n,
            n == text.len(),
            m == pattern.len(),
            out@ + replaced(text@.skip(i as int), pattern@, with@) == replaced(
                text@,
                pattern@,
                with@,
            ),
        decreases n - i,
    {
        let ghost rest = text@.skip(i as int);
        let ghost before = out@;
        if m > 0 && m <= n - i && matches_at(text, pattern, i) {
            let mut k: usize = 0;
            while k < with.len()
                invariant
                    k <= with.len(),
                    out@ == before + with@.take(k as int),
                decreases with.len() - k,
            {
                out.push(with[k]);
                k = k + 1;
                assert(before + with@.take(k as int) =~= (before + with@.take(k as int - 1)).push(
                    with@[k as int - 1],
                ));
            }
            proof {
                assert(with@.take(with.len() as int) =~= with@);
                assert(rest.subrange(0, m as int) =~= text@.subrange(i as int, i as int + m as int));
                assert(begins_with(rest, pattern@));
                assert(rest.skip(m as int) =~= text@.skip(i as int + m as int));
                assert((before + with@) + replaced(text@.skip(i as int + m as int), pattern@, with@)
                    =~= before + (with@ + replaced(rest.skip(m as int), pattern@, with@)));
            }
            i = i + m;
        } else {
            out.push(text[i]);
            proof {
                assert(rest.first() == text@[i as int]);
                assert(rest.skip(1) =~= text@.skip(i as int + 1));
                if m > 0 && m <= n - i {
                    assert(rest.subrange(0, m as int) =~= text@.subrange(
                        i as int,
                        i as int + m as int,
                    ));
                    assert(!begins_with(rest, pattern@));
                    assert(before.push(text@[i as int]) + replaced(rest.skip(1), pattern@, with@)
                        =~= before + (seq![rest.first()] + replaced(rest.skip(1), pattern@, with@)));
                } else {
                    if m > 0 {
                        lemma_replaced_short(rest, pattern@, with@);
                        lemma_replaced_short(rest.skip(1), pattern@, with@);
                    } else {
                        assert(replaced(rest, pattern@, with@) == rest);
                        assert(replaced(rest.skip(1), pattern@, with@) == rest.skip(1));
                    }
                    assert(before.push(text@[i as int]) + rest.skip(1) =~= before + rest);
                }
            }
            i = i + 1;
        }
    }
    proof {
        assert(text@.skip(n as int) =~= Seq::<char>::empty());
        assert(out@ + Seq::<char>::empty() =~= out@);
    }
    out
}

/// A text that is shorter than the pattern has nothing replaced.
proof fn lemma_replaced_short(s: Seq<char>, pattern: Seq<char>, with: Seq<char>)
    requires
        s.len() < pattern.len(),
    ensures
        replaced(s, pattern, with) == s,
{
}

/// Fills the placeholders of `params` into `text`.
pub fn replace_params(text: &str, params: Option<&Vec<(String, String)>>) -> (r: String)
    ensures
        r@ == match params {
            Some(p) => with_params(text@, param_models(p@)),
            None => text@,
        },
{
    let mut current: Vec<char> = to_chars(text);
    match params {
        None => {},
        Some(list) => {
            let ghost models = param_models(list@);
            let mut i: usize = 0;
            assert(models.take(0) =~= Seq::<(Seq<char>, Seq<char>)>::empty());
            while i < list.len()
                invariant
                    i <= list.len(),
                    models == param_models(list@),
                    current@ == with_params(text@, models.take(i as int)),
                decreases list.len() - i,
            {
                proof {
                    let part = models.take(i as int + 1);
                    assert(part.drop_last() =~= models.take(i as int));
                    assert(part.last() == (list@[i as int].0@, list@[i as int].1@));
                }
                let name: Vec<char> = to_chars(list[i].0.as_str());
                let mut pattern: Vec<char> = Vec::new();
                pattern.push('{');
                let mut k: usize = 0;
                while k < name.len()
                    invariant
                        k <= name.len(),
                        pattern@ == seq!['{'] + name@.take(k as int),
                    decreases name.len() - k,
                {
                    pattern.push(name[k]);
                    k = k + 1;
                    assert(seq!['{'] + name@.take(k as int) =~= (seq!['{'] + name@.take(
                        k as int - 1,
                    )).push(name@[k as int - 1]));
                }
                pattern.push('}');
                proof {
                    assert(name@.take(name.len() as int) =~= name@);
                    assert(pattern@ =~= placeholder(name@));
                }
                let with: Vec<char> = to_chars(list[i].1.as_str());
                current = replace_all(&current, &pattern, &with);
                i = i + 1;
            }
            assert(models.take(list.len() as int) =~= models);
        },
    }
    from_chars(&current)
}

/// The small letter of a capital ASCII letter; any other character itself.
pub open spec fn lower_char(c: char) -> char {
    if 0x41 <= c as u32 <= 0x5A {
        ((c as u32) + 32) as char
    } else {
        c
    }
}

/// `s` with its capital ASCII letters made small.
pub open spec fn ascii_lower(s: Seq<char>) -> Seq<char> {
    s.map_values(|c: char| lower_char(c))
}

/// The part of `s` before the first `c`; all of `s` where it holds no `c`.
pub open spec fn before_first(s: Seq<char>, c: char) -> Seq<char>
    decreases s.len(),
{
    if s.len() == 0 || s.first() == c {
        Seq::empty()
    } else {
        seq![s.first()] + before_first(s.drop_first(), c)
    }
}

/// The pieces that `s` falls into when it is cut at every `c`.
pub open spec fn split_at_char(s: Seq<char>, c: char) -> Seq<Seq<char>>
    decreases s.len(),
{
    if s.len() == 0 {
        seq![Seq::empty()]
    } else if s.last() == c {
        split_at_char(s.drop_last(), c).push(Seq::empty())
    } else {
        let before = split_at_char(s.drop_last(), c);
        before.drop_last().push(before.last().push(s.last()))
    }
}

/// The language code that a language range of an `Accept-Language` header
/// names: what stands before its parameters, trimmed, up to the first hyphen,
/// in small letters.
pub open spec fn language_code(range: Seq<char>) -> Seq<char> {
    ascii_lower(before_first(trimmed(before_first(range, ';')), '-'))
}

/// The first of the language ranges whose code is supported, as its code.
pub open spec fn first_supported(ranges: Seq<Seq<char>>, supported: Seq<Seq<char>>) -> Option<
    Seq<char>,
>
    decreases ranges.len(),
{
    if ranges.len() == 0 {
        None
    } else if supported.contains(language_code(ranges.first())) {
        Some(language_code(ranges.first()))
    } else {
        first_supported(ranges.drop_first(), supported)
    }
}

impl I18nModel {
    /// The text of `key` in `lang`, before parameters are filled in: the
    /// text that the pack of `lang` has for the key; else the one that the pack
    /// of the default language has; else the key itself.
    pub open spec fn translated(self, key: Seq<char>, lang: Seq<char>) -> Seq<char> {
        match pack_text(self.translations, lang, key) {
            Some(t) => t,
            None => if lang != self.default_language {
                match pack_text(self.translations, self.default_language, key) {
                    Some(t) => t,
                    None => key,
                }
            } else {
                key
            },
        }
    }

    /// What the cache gives for `key` in `lang` at `now`; nothing where
    /// caching is off.
    pub open spec fn cache_hit(self, key: Seq<char>, lang: Seq<char>, now: u64) -> Option<
        Seq<char>,
    > {
        if self.cache_enabled {
            cached_value(self.cache.items, cache_key(lang, key), now, self.cache.expire_minutes)
        } else {
            None
        }
    }

    /// The text that is served for `key` in `lang` at `now`, before
    /// parameters are filled in: the cached one where there is one that is
    /// still good, else the one that is looked up.
    pub open spec fn served(self, key: Seq<char>, lang: Seq<char>, now: u64) -> Seq<char> {
        match self.cache_hit(key, lang, now) {
            Some(t) => t,
            None => self.translated(key, lang),
        }
    }

    /// The interface after `key` was translated into `lang` at `now`: where
    /// caching is on and the cache had nothing good, the text that was looked
    /// up is cached.
    pub open spec fn after_translate(self, key: Seq<char>, lang: Seq<char>, now: u64) -> I18nModel {
        if self.cache_enabled && self.cache_hit(key, lang, now) is None {
            I18nModel {
                cache: TranslationCacheModel {
                    items: items_with(
                        self.cache.items,
                        cache_key(lang, key),
                        self.translated(key, lang),
                        now,
                    ),
                    ..self.cache
                },
                ..self
            }
        } else {
            self
        }
    }

    /// The interface after the packs were loaded anew: `packs` are loaded,
    /// and the cache is empty where caching is on.
    pub open spec fn after_reload(self, packs: Seq<PackModel>) -> I18nModel {
        I18nModel {
            translations: packs,
            cache: if self.cache_enabled {
                TranslationCacheModel { items: Seq::empty(), ..self.cache }
            } else {
                self.cache
            },
            ..self
        }
    }

    /// Whether `lang` is among the supported languages.
    pub open spec fn supports(self, lang: Seq<char>) -> bool {
        self.supported_languages.contains(lang)
    }

    /// The language that a request with the given `Accept-Language` header
    /// gets: the default language where detection is off or nothing that is
    /// supported is asked for, else the first supported language asked for.
    pub open spec fn detected(self, accept_language: Option<Seq<char>>) -> Seq<char> {
        if !self.auto_detect {
            self.default_language
        } else {
            match accept_language {
                None => self.default_language,
                Some(h) => match first_supported(split_at_char(h, ','), self.supported_languages) {
                    Some(code) => code,
                    None => self.default_language,
                },
            }
        }
    }

    /// The language that is used where `requested` is asked for.
    pub open spec fn effective(self, requested: Seq<char>) -> Seq<char> {
        if self.multilingual_enabled && self.supports(requested) {
            requested
        } else {
            self.default_language
        }
    }

    /// The languages that are offered.
    pub open spec fn offered(self) -> Seq<LanguageInfoModel> {
        infos_for(self.language_info, self.supported_languages)
    }

    /// The languages that are offered in effect: only the default language
    /// where the interface is held to one language.
    pub open spec fn offered_in_effect(self) -> Seq<LanguageInfoModel> {
        if self.multilingual_enabled {
            self.offered()
        } else {
            match info_of(self.language_info, self.default_language) {
                Some(i) => seq![i],
                None => Seq::empty(),
            }
        }
    }
}

/// The languages of which something is known from the outset: Chinese,
/// English, Arabic and Uyghur, the last two written from right to left.
pub open spec fn built_in_languages() -> Seq<LanguageInfoModel> {
    seq![
        LanguageInfoModel { code: "zh"@, name: "Chinese"@, native_name: "中文"@, is_rtl: false },
        LanguageInfoModel { code: "en"@, name: "English"@, native_name: "English"@, is_rtl: false },
        LanguageInfoModel { code: "ar"@, name: "Arabic"@, native_name: "العربية"@, is_rtl: true },
        LanguageInfoModel { code: "ug"@, name: "Uyghur"@, native_name: "ئۇيغۇرچە"@, is_rtl: true },
    ]
}

/// The languages of which something is known from the outset.
pub fn init_language_info() -> (infos: Vec<LanguageInfo>)
    ensures
        info_models(infos@) == built_in_languages(),
{
    let mut infos: Vec<LanguageInfo> = Vec::new();
    infos.push(
        LanguageInfo {
            code: "zh".to_owned(),
            name: "Chinese".to_owned(),
            native_name: "中文".to_owned(),
            is_rtl: false,
        },
    );
    infos.push(
        LanguageInfo {
            code: "en".to_owned(),
            name: "English".to_owned(),
            native_name: "English".to_owned(),
            is_rtl: false,
        },
    );
    infos.push(
        LanguageInfo {
            code: "ar".to_owned(),
            name: "Arabic".to_owned(),
            native_name: "العربية".to_owned(),
            is_rtl: true,
        },
    );
    infos.push(
        LanguageInfo {
            code: "ug".to_owned(),
            name: "Uyghur".to_owned(),
            native_name: "ئۇيغۇرچە".to_owned(),
            is_rtl: true,
        },
    );
    assert(info_models(infos@) =~= built_in_languages());
    infos
}

fn find_entry_text(entries: &Vec<PackEntry>, key: &str) -> (r: Option<String>)
    ensures
        match r {
            Some(t) => entry_text(entries@.map_values(|e: PackEntry| e@), key@) == Some(t@),
            None => entry_text(entries@.map_values(|e: PackEntry| e@), key@) is None,
        },
{
    let ghost models = entries@.map_values(|e: PackEntry| e@);
    let mut i: usize = entries.len();
    assert(models.take(i as int) =~= models);
    while i > 0
        invariant
            i <= entries.len(),
            models == entries@.map_values(|e: PackEntry| e@),
            entry_text(models, key@) == entry_text(models.take(i as int), key@),
        decreases i,
    {
        proof {
            let part = models.take(i as int);
            assert(part.drop_last() =~= models.take(i as int - 1));
            assert(part.last() == entries@[i as int - 1]@);
        }
        if same_text(entries[i - 1].key.as_str(), key) {
            return match &entries[i - 1].text {
                Some(t) => Some(t.clone()),
                None => None,
            };
        }
        i = i - 1;
    }
    None
}

fn find_pack_text(packs: &Vec<LanguagePack>, lang: &str, key: &str) -> (r: Option<String>)
    ensures
        match r {
            Some(t) => pack_text(pack_models(packs@), lang@, key@) == Some(t@),
            None => pack_text(pack_models(packs@), lang@, key@) is None,
        },
{
    let ghost models = pack_models(packs@);
    let mut i: usize = packs.len();
    assert(models.take(i as int) =~= models);
    while i > 0
        invariant
            i <= packs.len(),
            models == pack_models(packs@),
            pack_text(models, lang@, key@) == pack_text(models.take(i as int), lang@, key@),
        decreases i,
    {
        proof {
            let part = models.take(i as int);
            assert(part.drop_last() =~= models.take(i as int - 1));
            assert(part.last() == packs@[i as int - 1]@);
        }
        if same_text(packs[i - 1].language.as_str(), lang) {
            return find_entry_text(&packs[i - 1].entries, key);
        }
        i = i - 1;
    }
    None
}

fn find_info(infos: &Vec<LanguageInfo>, code: &str) -> (r: Option<usize>)
    ensures
        match r {
            Some(i) => i < infos@.len() && info_of(info_models(infos@), code@) == Some(infos@[i as int]@),
            None => info_of(info_models(infos@), code@) is None,
        },
{
    let ghost models = info_models(infos@);
    let mut i: usize = infos.len();
    assert(models.take(i as int) =~= models);
    while i > 0
        invariant
            i <= infos.len(),
            models == info_models(infos@),
            info_of(models, code@) == info_of(models.take(i as int), code@),
        decreases i,
    {
        proof {
            let part = models.take(i as int);
            assert(part.drop_last() =~= models.take(i as int - 1));
            assert(part.last() == infos@[i as int - 1]@);
        }
        if same_text(infos[i - 1].code.as_str(), code) {
            return Some(i - 1);
        }
        i = i - 1;
    }
    None
}

fn list_contains(list: &Vec<String>, item: &str) -> (b: bool)
    ensures
        b == texts(list@).contains(item@),
{
    crate::reader::names_contain(list, item)
}

fn lower_chars(v: &Vec<char>) -> (r: Vec<char>)
    ensures
        r@ == ascii_lower(v@),
{
    let mut r: Vec<char> = Vec::new();
    let mut i: usize = 0;
    while i < v.len()
        invariant
            i <= v.len(),
            r@.len() == i,
            forall|k: int| 0 <= k < i ==> #[trigger] r@[k] == lower_char(v@[k]),
        decreases v.len() - i,
    {
        let c: char = v[i];
        let u: u32 = c as u32;
        if 0x41 <= u && u <= 0x5A {
            let small: u8 = (u as u8) + 32;
            r.push(small as char);
        } else {
            r.push(c);
        }
        i = i + 1;
    }
    assert(r@ =~= ascii_lower(v@));
    r
}

fn chars_before_first(v: &Vec<char>, c: char) -> (r: Vec<char>)
    ensures
        r@ == before_first(v@, c),
{
    let mut r: Vec<char> = Vec::new();
    let mut i: usize = 0;
    proof {
        assert(v@.skip(0) =~= v@);
        assert(r@ + before_first(v@, c) =~= before_first(v@, c));
    }
    while i < v.len() && v[i] != c
        invariant
            i <= v.len(),
            r@ + before_first(v@.skip(i as int), c) == before_first(v@, c),
        decreases v.len() - i,
    {
        let ghost rest = v@.skip(i as int);
        let ghost before = r@;
        r.push(v[i]);
        proof {
            assert(rest.first() == v@[i as int]);
            assert(rest.drop_first() =~= v@.skip(i as int + 1));
            assert(before.push(v@[i as int]) + before_first(v@.skip(i as int + 1), c) =~= before
                + (seq![rest.first()] + before_first(rest.drop_first(), c)));
        }
        i = i + 1;
    }
    proof {
        let rest = v@.skip(i as int);
        if i < v.len() {
            assert(rest.first() == v@[i as int]);
        }
        assert(before_first(rest, c) =~= Seq::<char>::empty());
        assert(r@ + Seq::<char>::empty() =~= r@);
    }
    r
}

/// The language code that a language range names.
pub fn code_of_range(range: &Vec<char>) -> (code: Vec<char>)
    ensures
        code@ == language_code(range@),
{
    let head: Vec<char> = chars_before_first(range, ';');
    let core: Vec<char> = trim_chars(&head);
    let tag: Vec<char> = chars_before_first(&core, '-');
    lower_chars(&tag)
}

/// Cuts `s` at every `c`.
pub fn split_chars(s: &Vec<char>, c: char) -> (pieces: Vec<Vec<char>>)
    ensures
        pieces@.map_values(|p: Vec<char>| p@) == split_at_char(s@, c),
{
    let mut pieces: Vec<Vec<char>> = Vec::new();
    let mut current: Vec<char> = Vec::new();
    let mut i: usize = 0;
    proof {
        assert(s@.take(0) =~= Seq::<char>::empty());
        assert(pieces@.map_values(|p: Vec<char>| p@).push(current@) =~= split_at_char(s@.take(0), c));
    }
    while i < s.len()
        invariant
            i <= s.len(),
            pieces@.map_values(|p: Vec<char>| p@).push(current@) == split_at_char(
                s@.take(i as int),
                c,
            ),
        decreases s.len() - i,
    {
        let ghost done = pieces@.map_values(|p: Vec<char>| p@);
        let ghost cur = current@;
        proof {
            let part = s@.take(i as int + 1);
            assert(part.drop_last() =~= s@.take(i as int));
            assert(part.last() == s@[i as int]);
        }
        if s[i] == c {
            pieces.push(current);
            current = Vec::new();
            proof {
                assert(pieces@.map_values(|p: Vec<char>| p@) =~= done.push(cur));
                assert(current@ =~= Seq::<char>::empty());
            }
        } else {
            current.push(s[i]);
            proof {
                let before = split_at_char(s@.take(i as int), c);
                assert(before.drop_last() =~= done);
                assert(before.last() == cur);
            }
        }
        i = i + 1;
    }
    assert(s@.take(s.len() as int) =~= s@);
    pieces.push(current);
    pieces
}

/// The language interface.
#[derive(Debug)]
pub struct I18nManager {
    default_language: String,
    supported_languages: Vec<String>,
    auto_detect: bool,
    cache_enabled: bool,
    cache_expire_minutes: u64,
    multilingual_enabled: bool,
    translations: Vec<LanguagePack>,
    language_info: Vec<LanguageInfo>,
    cache: TranslationCache,
}

impl View for I18nManager {
    type V = I18nModel;

    closed spec fn view(&self) -> I18nModel {
        I18nModel {
            default_language: self.default_language@,
            supported_languages: texts(self.supported_languages@),
            auto_detect: self.auto_detect,
            cache_enabled: self.cache_enabled,
            cache_expire_minutes: self.cache_expire_minutes,
            multilingual_enabled: self.multilingual_enabled,
            translations: pack_models(self.translations@),
            language_info: info_models(self.language_info@),
            cache: self.cache@,
        }
    }
}

impl I18nManager {
    /// An interface with the given settings, without language packs and with
    /// an empty cache, that knows the languages named in `built_in_languages`.
    pub fn new(config: I18nConfig) -> (manager: I18nManager)
        ensures
            manager@.default_language == config.default_language@,
            manager@.supported_languages == texts(config.supported_languages@),
            manager@.auto_detect == config.auto_detect,
            manager@.cache_enabled == config.cache_enabled,
            manager@.cache_expire_minutes == config.cache_expire_minutes,
            manager@.multilingual_enabled == config.multilingual_enabled,
            manager@.translations == Seq::<PackModel>::empty(),
            manager@.language_info == built_in_languages(),
            manager@.cache == (TranslationCacheModel {
                items: Seq::empty(),
                expire_minutes: config.cache_expire_minutes,
            }),
    {
        let manager = I18nManager {
            default_language: config.default_language,
            supported_languages: config.supported_languages,
            auto_detect: config.auto_detect,
            cache_enabled: config.cache_enabled,
            cache_expire_minutes: config.cache_expire_minutes,
            multilingual_enabled: config.multilingual_enabled,
            translations: Vec::new(),
            language_info: init_language_info(),
            cache: TranslationCache::new(config.cache_expire_minutes),
        };
        assert(manager@.translations =~= Seq::<PackModel>::empty());
        manager
    }

    /// Puts `packs` in the place of the packs that are loaded.
    pub fn load_all_translations(&mut self, packs: Vec<LanguagePack>)
        ensures
            final(self)@ == (I18nModel { translations: pack_models(packs@), ..old(self)@ }),
    {
        self.translations = packs;
    }

    /// Loads the packs anew and, where caching is on, empties the cache.
    pub fn reload_translations(&mut self, packs: Vec<LanguagePack>)
        ensures
            final(self)@ == old(self)@.after_reload(pack_models(packs@)),
    {
        self.load_all_translations(packs);
        if self.cache_enabled {
            self.cache.clear();
        }
    }

    /// Drops the cached translations that are no longer good at `now`.
    pub fn cleanup_cache(&mut self, now: u64)
        ensures
            final(self)@ == (I18nModel {
                cache: TranslationCacheModel {
                    items: fresh_items(old(self)@.cache.items, now, old(self)@.cache.expire_minutes),
                    ..old(self)@.cache
                },
                ..old(self)@
            }),
    {
        self.cache.cleanup_cache(now);
    }

    /// Translates `key` into `lang` at the time `now`, in seconds, and fills
    /// in the parameters.
    pub fn translate(
        &mut self,
        key: &str,
        lang: &str,
        params: Option<&Vec<(String, String)>>,
        now: u64,
    ) -> (text: String)
        ensures
            text@ == match params {
                Some(p) => with_params(old(self)@.served(key@, lang@, now), param_models(p@)),
                None => old(self)@.served(key@, lang@, now),
            },
            final(self)@ == old(self)@.after_translate(key@, lang@, now),
    {
        let raw: String = if self.cache_enabled {
            let mut name: String = lang.to_owned();
            name.push(':');
            name.append(key);
            assert(name@ =~= cache_key(lang@, key@));
            match self.cache.get_from_cache(name.as_str(), now) {
                Some(t) => t,
                None => {
                    let t: String = self.look_up(key, lang);
                    self.cache.set_cache(name.as_str(), t.as_str(), now);
                    t
                },
            }
        } else {
            self.look_up(key, lang)
        };
        replace_params(raw.as_str(), params)
    }

    /// The text of `key` in `lang`, past the cache and before parameters are
    /// filled in.
    pub fn look_up(&self, key: &str, lang: &str) -> (text: String)
        ensures
            text@ == self@.translated(key@, lang@),
    {
        let found: Option<String> = find_pack_text(&self.translations, lang, key);
        match found {
            Some(t) => t,
            None => {
                if !same_text(lang, self.default_language.as_str()) {
                    match find_pack_text(&self.translations, self.default_language.as_str(), key) {
                        Some(t) => t,
                        None => key.to_owned(),
                    }
                } else {
                    key.to_owned()
                }
            },
        }
    }

    /// The language for a request with the given `Accept-Language` header.
    pub fn detect_language_from_headers(&self, accept_language: Option<&str>) -> (lang: String)
        ensures
            lang@ == self@.detected(
                match accept_language {
                    Some(h) => Some(h@),
                    None => None,
                },
            ),
    {
        if !self.auto_detect {
            return self.default_language.clone();
        }
        match accept_language {
            None => self.default_language.clone(),
            Some(header) => {
                let chars: Vec<char> = to_chars(header);
                let ranges: Vec<Vec<char>> = split_chars(&chars, ',');
                let ghost all = split_at_char(header@, ',');
                let ghost supported = texts(self.supported_languages@);
                let mut i: usize = 0;
                proof {
                    assert(all.skip(0) =~= all);
                }
                while i < ranges.len()
                    invariant
                        i <= ranges.len(),
                        self.auto_detect,
                        accept_language == Some(header),
                        all == split_at_char(header@, ','),
                        all == ranges@.map_values(|p: Vec<char>| p@),
                        supported == texts(self.supported_languages@),
                        first_supported(all, supported) == first_supported(
                            all.skip(i as int),
                            supported,
                        ),
                    decreases ranges.len() - i,
                {
                    let code: Vec<char> = code_of_range(&ranges[i]);
                    let text: String = from_chars(&code);
                    proof {
                        let rest = all.skip(i as int);
                        assert(rest.first() == ranges@[i as int]@);
                        assert(rest.drop_first() =~= all.skip(i as int + 1));
                    }
                    if list_contains(&self.supported_languages, text.as_str()) {
                        return text;
                    }
                    i = i + 1;
                }
                proof {
                    assert(all.skip(ranges.len() as int) =~= Seq::<Seq<char>>::empty());
                }
                self.default_language.clone()
            },
        }
    }

    /// The languages that are offered, each with what is known of it.
    pub fn get_supported_languages(&self) -> (languages: Vec<LanguageInfo>)
        ensures
            info_models(languages@) == self@.offered(),
    {
        let ghost codes = texts(self.supported_languages@);
        let ghost infos = info_models(self.language_info@);
        let mut languages: Vec<LanguageInfo> = Vec::new();
        let mut i: usize = 0;
        proof {
            assert(codes.take(0) =~= Seq::<Seq<char>>::empty());
            assert(info_models(languages@) =~= infos_for(infos, codes.take(0)));
        }
        while i < self.supported_languages.len()
            invariant
                i <= self.supported_languages.len(),
                codes == texts(self.supported_languages@),
                infos == info_models(self.language_info@),
                info_models(languages@) == infos_for(infos, codes.take(i as int)),
            decreases self.supported_languages.len() - i,
        {
            proof {
                let part = codes.take(i as int + 1);
                assert(part.drop_last() =~= codes.take(i as int));
                assert(part.last() == self.supported_languages@[i as int]@);
            }
            match find_info(&self.language_info, self.supported_languages[i].as_str()) {
                Some(k) => {
                    let ghost before = info_models(languages@);
                    languages.push(copy_info(&self.language_info[k]));
                    assert(info_models(languages@) =~= before.push(self.language_info@[k as int]@));
                },
                None => {},
            }
            i = i + 1;
        }
        assert(codes.take(self.supported_languages.len() as int) =~= codes);
        languages
    }

    /// What is known of the language `lang`.
    pub fn get_language_info(&self, lang: &str) -> (info: Option<&LanguageInfo>)
        ensures
            match info {
                Some(i) => info_of(self@.language_info, lang@) == Some(i@),
                None => info_of(self@.language_info, lang@) is None,
            },
    {
        match find_info(&self.language_info, lang) {
            Some(k) => Some(&self.language_info[k]),
            None => None,
        }
    }

    /// The default language.
    pub fn get_default_language(&self) -> (lang: &str)
        ensures
            lang@ == self@.default_language,
    {
        self.default_language.as_str()
    }

    /// Whether `lang` is among the supported languages.
    pub fn is_language_supported(&self, lang: &str) -> (b: bool)
        ensures
            b == self@.supports(lang@),
    {
        list_contains(&self.supported_languages, lang)
    }

    /// The number of entries of all packs; the largest number that can be
    /// counted where there are more.
    pub fn get_total_translations(&self) -> (n: usize)
        ensures
            n == if total_entries(self@.translations) > usize::MAX {
                usize::MAX as int
            } else {
                total_entries(self@.translations)
            },
    {
        let ghost models = pack_models(self.translations@);
        let mut n: usize = 0;
        let mut full: bool = false;
        let mut i: usize = 0;
        assert(models.take(0) =~= Seq::<PackModel>::empty());
        while i < self.translations.len()
            invariant
                i <= self.translations.len(),
                models == pack_models(self.translations@),
                0 <= total_entries(models.take(i as int)),
                !full ==> n == total_entries(models.take(i as int)),
                full ==> n == usize::MAX && total_entries(models.take(i as int)) > usize::MAX,
            decreases self.translations.len() - i,
        {
            proof {
                let part = models.take(i as int + 1);
                assert(part.drop_last() =~= models.take(i as int));
                assert(part.last() == self.translations@[i as int]@);
            }
            let more: usize = self.translations[i].entries.len();
            if !full {
                if more > usize::MAX - n {
                    full = true;
                    n = usize::MAX;
                } else {
                    n = n + more;
                }
            }
            i = i + 1;
        }
        assert(models.take(self.translations.len() as int) =~= models);
        n
    }

    /// Whether more than one language is offered.
    pub fn is_multilingual_enabled(&self) -> (b: bool)
        ensures
            b == self@.multilingual_enabled,
    {
        self.multilingual_enabled
    }

    /// Whether translations may be cached.
    pub fn is_cache_enabled(&self) -> (b: bool)
        ensures
            b == self@.cache_enabled,
    {
        self.cache_enabled
    }

    /// For how many minutes a cached translation stays good.
    pub fn cache_expire_minutes(&self) -> (minutes: u64)
        ensures
            minutes == self@.cache_expire_minutes,
    {
        self.cache_expire_minutes
    }

    /// The language that is used where `requested_lang` is asked for.
    pub fn get_effective_language(&self, requested_lang: &str) -> (lang: String)
        ensures
            lang@ == self@.effective(requested_lang@),
    {
        if !self.multilingual_enabled {
            return self.default_language.clone();
        }
        if self.is_language_supported(requested_lang) {
            requested_lang.to_owned()
        } else {
            self.default_language.clone()
        }
    }

    /// The languages that are offered in effect.
    pub fn get_effective_supported_languages(&self) -> (languages: Vec<LanguageInfo>)
        ensures
            info_models(languages@) == self@.offered_in_effect(),
    {
        if !self.multilingual_enabled {
            let mut one: Vec<LanguageInfo> = Vec::new();
            match find_info(&self.language_info, self.default_language.as_str()) {
                Some(k) => {
                    one.push(copy_info(&self.language_info[k]));
                    assert(info_models(one@) =~= seq![self.language_info@[k as int]@]);
                },
                None => {
                    assert(info_models(one@) =~= Seq::<LanguageInfoModel>::empty());
                },
            }
            return one;
        }
        self.get_supported_languages()
    }
}

} // verus!
