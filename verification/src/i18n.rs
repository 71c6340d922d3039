//! Locales, translation lookup and relative-time wording.
//!
//! Each locale carries a key-value table; lookup falls back to English and
//! finally to the key itself, so a caller always gets a usable string.

use vstd::prelude::*;
use vstd::string::*;
use crate::text::{
    i64_to_string, replace_all, spec_decimal, spec_decimal_i64, spec_replace, str_eq,
    u64_to_string,
};

verus! {

/// Supported locales.
#[derive(Clone, Copy, PartialEq, Eq, Structural, Debug)]
pub enum Locale {
    En,
    Ja,
    ZhHans,
    ZhHant,
}

impl Default for Locale {
    /// English is the default locale.
    fn default() -> (r: Locale)
        ensures
            r == Locale::En,
    {
        Locale::En
    }
}

/// The IETF-style code of a locale.
pub open spec fn spec_locale_code(l: Locale) -> Seq<char> {
    match l {
        Locale::En => "en"@,
        Locale::Ja => "ja"@,
        Locale::ZhHans => "zh-Hans"@,
        Locale::ZhHant => "zh-Hant"@,
    }
}

/// The native name of a locale.
pub open spec fn spec_locale_display_name(l: Locale) -> Seq<char> {
    match l {
        Locale::En => "English"@,
        Locale::Ja => "日本語"@,
        Locale::ZhHans => "简体中文"@,
        Locale::ZhHant => "繁體中文"@,
    }
}

impl Locale {
    /// The locale's IETF-style code.
    pub fn code(&self) -> (r: &'static str)
        ensures
            r@ == spec_locale_code(*self),
    {
        match self {
            Locale::En => "en",
            Locale::Ja => "ja",
            Locale::ZhHans => "zh-Hans",
            Locale::ZhHant => "zh-Hant",
        }
    }

    /// The locale's name in its own language.
    pub fn display_name(&self) -> (r: &'static str)
        ensures
            r@ == spec_locale_display_name(*self),
    {
        match self {
            Locale::En => "English",
            Locale::Ja => "日本語",
            Locale::ZhHans => "简体中文",
            Locale::ZhHant => "繁體中文",
        }
    }

    /// Every supported locale, in presentation order.
    pub fn all() -> (r: Vec<Locale>)
        ensures
            r@ == seq![Locale::En, Locale::Ja, Locale::ZhHans, Locale::ZhHant],
    {
        let mut v: Vec<Locale> = Vec::new();
        v.push(Locale::En);
        v.push(Locale::Ja);
        v.push(Locale::ZhHans);
        v.push(Locale::ZhHant);
        proof {
            assert(v@ =~= seq![Locale::En, Locale::Ja, Locale::ZhHans, Locale::ZhHant]);
        }
        v
    }
}

/// The views of a translation table.
pub open spec fn table_views(s: Seq<(String, String)>) -> Seq<(Seq<char>, Seq<char>)> {
    s.map_values(|p: (String, String)| (p.0@, p.1@))
}

/// The English table.
pub open spec fn en_table() -> Seq<(Seq<char>, Seq<char>)> {
    seq![
        ("app.name"@, "Awabancha"@),
        ("app.welcome"@, "Welcome"@),
        ("menu.openRepository"@, "Open Repository"@),
        ("menu.settings"@, "Settings"@),
        ("menu.language"@, "Language"@),
        ("commit.message"@, "Commit message"@),
        ("commit.author"@, "Author"@),
        ("branch.current"@, "Current branch"@),
        ("time.today"@, "Today"@),
        ("time.yesterday"@, "Yesterday"@),
        ("time.daysAgo"@, "{days} days ago"@),
        ("time.weekAgo"@, "1 week ago"@),
        ("time.weeksAgo"@, "{weeks} weeks ago"@),
        ("time.monthAgo"@, "1 month ago"@),
        ("time.monthsAgo"@, "{months} months ago"@),
        ("time.yearAgo"@, "1 year ago"@),
        ("time.yearsAgo"@, "{years} years ago"@),
    ]
}

/// The Japanese table.
pub open spec fn ja_table() -> Seq<(Seq<char>, Seq<char>)> {
    seq![
        ("menu.settings"@, "設定"@),
        ("menu.language"@, "言語"@),
        ("time.today"@, "今日"@),
        ("time.yesterday"@, "昨日"@),
        ("time.daysAgo"@, "{days}日前"@),
        ("time.weekAgo"@, "1週間前"@),
        ("time.weeksAgo"@, "{weeks}週間前"@),
        ("time.monthAgo"@, "1ヶ月前"@),
        ("time.monthsAgo"@, "{months}ヶ月前"@),
        ("time.yearAgo"@, "1年前"@),
        ("time.yearsAgo"@, "{years}年前"@),
    ]
}

/// The simplified Chinese table.
pub open spec fn zh_hans_table() -> Seq<(Seq<char>, Seq<char>)> {
    seq![
        ("menu.settings"@, "设置"@),
        ("menu.language"@, "语言"@),
        ("time.today"@, "今天"@),
        ("time.yesterday"@, "昨天"@),
        ("time.daysAgo"@, "{days}天前"@),
        ("time.weekAgo"@, "1周前"@),
        ("time.weeksAgo"@, "{weeks}周前"@),
        ("time.monthAgo"@, "1个月前"@),
        ("time.monthsAgo"@, "{months}个月前"@),
        ("time.yearAgo"@, "1年前"@),
        ("time.yearsAgo"@, "{years}年前"@),
    ]
}

/// The traditional Chinese table.
pub open spec fn zh_hant_table() -> Seq<(Seq<char>, Seq<char>)> {
    seq![
        ("menu.settings"@, "設定"@),
        ("menu.language"@, "語言"@),
        ("time.today"@, "今天"@),
        ("time.yesterday"@, "昨天"@),
        ("time.daysAgo"@, "{days}天前"@),
        ("time.weekAgo"@, "1週前"@),
        ("time.weeksAgo"@, "{weeks}週前"@),
        ("time.monthAgo"@, "1個月前"@),
        ("time.monthsAgo"@, "{months}個月前"@),
        ("time.yearAgo"@, "1年前"@),
        ("time.yearsAgo"@, "{years}年前"@),
    ]
}

/// The table of a locale.
pub open spec fn spec_table(l: Locale) -> Seq<(Seq<char>, Seq<char>)> {
    match l {
        Locale::En => en_table(),
        Locale::Ja => ja_table(),
        Locale::ZhHans => zh_hans_table(),
        Locale::ZhHant => zh_hant_table(),
    }
}

fn pair(k: &str, v: &str) -> (r: (String, String))
    ensures
        r.0@ == k@,
        r.1@ == v@,
{
    (String::from_str(k), String::from_str(v))
}

/// The translation table of a locale, as key-value pairs.
pub fn get_translations(locale: Locale) -> (r: Vec<(String, String)>)
    ensures
        table_views(r@) == spec_table(locale),
{
    let mut v: Vec<(String, String)> = Vec::new();
    match locale {
        Locale::En => {
            v.push(pair("app.name", "Awabancha"));
            v.push(pair("app.welcome", "Welcome"));
            v.push(pair("menu.openRepository", "Open Repository"));
            v.push(pair("menu.settings", "Settings"));
            v.push(pair("menu.language", "Language"));
            v.push(pair("commit.message", "Commit message"));
            v.push(pair("commit.author", "Author"));
            v.push(pair("branch.current", "Current branch"));
            v.push(pair("time.today", "Today"));
            v.push(pair("time.yesterday", "Yesterday"));
            v.push(pair("time.daysAgo", "{days} days ago"));
            v.push(pair("time.weekAgo", "1 week ago"));
            v.push(pair("time.weeksAgo", "{weeks} weeks ago"));
            v.push(pair("time.monthAgo", "1 month ago"));
            v.push(pair("time.monthsAgo", "{months} months ago"));
            v.push(pair("time.yearAgo", "1 year ago"));
            v.push(pair("time.yearsAgo", "{years} years ago"));
        },
        Locale::Ja => {
            v.push(pair("menu.settings", "設定"));
            v.push(pair("menu.language", "言語"));
            v.push(pair("time.today", "今日"));
            v.push(pair("time.yesterday", "昨日"));
            v.push(pair("time.daysAgo", "{days}日前"));
            v.push(pair("time.weekAgo", "1週間前"));
            v.push(pair("time.weeksAgo", "{weeks}週間前"));
            v.push(pair("time.monthAgo", "1ヶ月前"));
            v.push(pair("time.monthsAgo", "{months}ヶ月前"));
            v.push(pair("time.yearAgo", "1年前"));
            v.push(pair("time.yearsAgo", "{years}年前"));
        },
        Locale::ZhHans => {
            v.push(pair("menu.settings", "设置"));
            v.push(pair("menu.language", "语言"));
            v.push(pair("time.today", "今天"));
            v.push(pair("time.yesterday", "昨天"));
            v.push(pair("time.daysAgo", "{days}天前"));
            v.push(pair("time.weekAgo", "1周前"));
            v.push(pair("time.weeksAgo", "{weeks}周前"));
            v.push(pair("time.monthAgo", "1个月前"));
            v.push(pair("time.monthsAgo", "{months}个月前"));
            v.push(pair("time.yearAgo", "1年前"));
            v.push(pair("time.yearsAgo", "{years}年前"));
        },
        Locale::ZhHant => {
            v.push(pair("menu.settings", "設定"));
            v.push(pair("menu.language", "語言"));
            v.push(pair("time.today", "今天"));
            v.push(pair("time.yesterday", "昨天"));
            v.push(pair("time.daysAgo", "{days}天前"));
            v.push(pair("time.weekAgo", "1週前"));
            v.push(pair("time.weeksAgo", "{weeks}週前"));
            v.push(pair("time.monthAgo", "1個月前"));
            v.push(pair("time.monthsAgo", "{months}個月前"));
            v.push(pair("time.yearAgo", "1年前"));
            v.push(pair("time.yearsAgo", "{years}年前"));
        },
    }
    proof {
        assert(table_views(v@) =~= spec_table(locale));
    }
    v
}

/// The value bound to `key` in a table; the first binding wins.
pub open spec fn spec_lookup(pairs: Seq<(Seq<char>, Seq<char>)>, key: Seq<char>) -> Option<
    Seq<char>,
>
    decreases pairs.len(),
{
    if pairs.len() == 0 {
        None
    } else if pairs[0].0 == key {
        Some(pairs[0].1)
    } else {
        spec_lookup(pairs.drop_first(), key)
    }
}

fn lookup_in(table: &Vec<(String, String)>, key: &str) -> (r: Option<String>)
    ensures
        match r {
            Some(v) => spec_lookup(table_views(table@), key@) == Some(v@),
            None => spec_lookup(table_views(table@), key@) is None,
        },
{
    let ghost full = table_views(table@);
    let mut i: usize = 0;
    proof {
        assert(full.subrange(0, full.len() as int) =~= full);
    }
    while i < table.len()
        invariant
            i <= table@.len(),
            full == table_views(table@),
            spec_lookup(full, key@) == spec_lookup(
                full.subrange(i as int, full.len() as int),
                key@,
            ),
        decreases table@.len() - i,
    {
        proof {
            let sub = full.subrange(i as int, full.len() as int);
            assert(sub[0] == full[i as int]);
            assert(sub.drop_first() =~= full.subrange(i + 1, full.len() as int));
        }
        if str_eq(table[i].0.as_str(), key) {
            return Some(table[i].1.clone());
        }
        i = i + 1;
    }
    None
}

/// What a lookup of `key` yields under `locale`: the locale's own binding,
/// else the English one, else the key itself.
pub open spec fn spec_translation(locale: Locale, key: Seq<char>) -> Seq<char> {
    match spec_lookup(spec_table(locale), key) {
        Some(v) => v,
        None => if locale != Locale::En {
            match spec_lookup(spec_table(Locale::En), key) {
                Some(v) => v,
                None => key,
            }
        } else {
            key
        },
    }
}

/// Gets the translation of `key`, falling back to English and then to the
/// key itself.
pub fn get_translation(locale: Locale, key: &str) -> (r: String)
    ensures
        r@ == spec_translation(locale, key@),
{
    let table = get_translations(locale);
    match lookup_in(&table, key) {
        Some(v) => v,
        None => {
            if !matches!(locale, Locale::En) {
                let en = get_translations(Locale::En);
                match lookup_in(&en, key) {
                    Some(v) => v,
                    None => String::from_str(key),
                }
            } else {
                String::from_str(key)
            }
        },
    }
}

/// Gets a translation for the given key.
pub fn t(locale: Locale, key: &str) -> (r: String)
    ensures
        r@ == spec_translation(locale, key@),
{
    get_translation(locale, key)
}

/// The braced placeholder of a variable name.
pub open spec fn spec_placeholder(name: Seq<char>) -> Seq<char> {
    "{"@ + name + "}"@
}

/// The translation after substituting the variables from `i` on, in order.
pub open spec fn spec_subst(
    s: Seq<char>,
    vars: Seq<(Seq<char>, Seq<char>)>,
    i: int,
) -> Seq<char>
    decreases vars.len() - i,
{
    if i < 0 || i >= vars.len() {
        s
    } else {
        spec_subst(spec_replace(s, spec_placeholder(vars[i].0), vars[i].1), vars, i + 1)
    }
}

/// The views of a variable list.
pub open spec fn var_views(s: Seq<(&str, &str)>) -> Seq<(Seq<char>, Seq<char>)> {
    s.map_values(|p: (&str, &str)| (p.0@, p.1@))
}

/// Gets a translation and substitutes each `{name}` placeholder with its
/// value.
pub fn t_with_vars(locale: Locale, key: &str, vars: &[(&str, &str)]) -> (r: String)
    ensures
        r@ == spec_subst(spec_translation(locale, key@), var_views(vars@), 0),
{
    let mut result = get_translation(locale, key);
    let mut i: usize = 0;
    while i < vars.len()
        invariant
            i <= vars@.len(),
            spec_subst(spec_translation(locale, key@), var_views(vars@), 0) == spec_subst(
                result@,
                var_views(vars@),
                i as int,
            ),
        decreases vars@.len() - i,
    {
        let entry = *vstd::slice::slice_index_get(vars, i);
        let mut pat = String::from_str("{");
        pat.append(entry.0);
        pat.append("}");
        proof {
            assert(pat@ == spec_placeholder(var_views(vars@)[i as int].0));
        }
        result = replace_all(result.as_str(), pat.as_str(), entry.1);
        i = i + 1;
    }
    result
}

/// Gets a translation and substitutes one `{name}` placeholder.
fn t_with_one_var(locale: Locale, key: &str, name: &str, value: &str) -> (r: String)
    ensures
        r@ == spec_subst(spec_translation(locale, key@), seq![(name@, value@)], 0),
{
    let tr = get_translation(locale, key);
    let mut pat = String::from_str("{");
    pat.append(name);
    pat.append("}");
    proof {
        assert(pat@ == spec_placeholder(name@));
    }
    let r = replace_all(tr.as_str(), pat.as_str(), value);
    proof {
        let vs: Seq<(Seq<char>, Seq<char>)> = seq![(name@, value@)];
        assert(spec_subst(tr@, vs, 0) == spec_subst(spec_replace(tr@, spec_placeholder(vs[0].0), vs[0].1), vs, 1));
    }
    r
}

/// The wording of `days` days of age under `locale`.
pub open spec fn spec_format_relative(locale: Locale, days: int) -> Seq<char> {
    if days == 0 {
        spec_translation(locale, "time.today"@)
    } else if days == 1 {
        spec_translation(locale, "time.yesterday"@)
    } else if days < 7 {
        spec_subst(
            spec_translation(locale, "time.daysAgo"@),
            seq![("days"@, spec_decimal_i64(days))],
            0,
        )
    } else if days < 30 {
        if days / 7 == 1 {
            spec_translation(locale, "time.weekAgo"@)
        } else {
            spec_subst(
                spec_translation(locale, "time.weeksAgo"@),
                seq![("weeks"@, spec_decimal((days / 7) as nat))],
                0,
            )
        }
    } else if days < 365 {
        if days / 30 == 1 {
            spec_translation(locale, "time.monthAgo"@)
        } else {
            spec_subst(
                spec_translation(locale, "time.monthsAgo"@),
                seq![("months"@, spec_decimal((days / 30) as nat))],
                0,
            )
        }
    } else {
        if days / 365 == 1 {
            spec_translation(locale, "time.yearAgo"@)
        } else {
            spec_subst(
                spec_translation(locale, "time.yearsAgo"@),
                seq![("years"@, spec_decimal((days / 365) as nat))],
                0,
            )
        }
    }
}

/// Formats a relative time of `days` days under `locale`.
pub fn format_relative_time(locale: Locale, days: i64) -> (r: String)
    ensures
        r@ == spec_format_relative(locale, days as int),
{
    if days == 0 {
        t(locale, "time.today")
    } else if days == 1 {
        t(locale, "time.yesterday")
    } else if days < 7 {
        let num = i64_to_string(days);
        let r = t_with_one_var(locale, "time.daysAgo", "days", num.as_str());
        proof {
            assert(seq![("days"@, num@)] =~= seq![("days"@, spec_decimal_i64(days as int))]);
        }
        r
    } else if days < 30 {
        let weeks = (days as u64) / 7;
        if weeks == 1 {
            t(locale, "time.weekAgo")
        } else {
            let num = u64_to_string(weeks);
            let r = t_with_one_var(locale, "time.weeksAgo", "weeks", num.as_str());
            proof {
                assert(seq![("weeks"@, num@)] =~= seq![("weeks"@, spec_decimal((days / 7) as nat))]);
            }
            r
        }
    } else if days < 365 {
        let months = (days as u64) / 30;
        if months == 1 {
            t(locale, "time.monthAgo")
        } else {
            let num = u64_to_string(months);
            let r = t_with_one_var(locale, "time.monthsAgo", "months", num.as_str());
            proof {
                assert(seq![("months"@, num@)] =~= seq![("months"@, spec_decimal((days / 30) as nat))]);
            }
            r
        }
    } else {
        let years = (days as u64) / 365;
        if years == 1 {
            t(locale, "time.yearAgo")
        } else {
            let num = u64_to_string(years);
            let r = t_with_one_var(locale, "time.yearsAgo", "years", num.as_str());
            proof {
                assert(seq![("years"@, num@)] =~= seq![("years"@, spec_decimal((days / 365) as nat))]);
            }
            r
        }
    }
}

} // verus!
