//! The layout catalog: the description of one keyboard layout, the static
//! table mapping language identifiers to display metadata, the catalog sort
//! (English layouts first, then alphabetical by display name), lookup of
//! layouts by country code, and strict validation of country codes.
//!
//! Enumerating the layouts that the operating system has loaded is the front
//! end's business; every function here works on a catalog it is handed.

use vstd::prelude::*;
use crate::text::{hex2_lower, hex2_lower_string, hex4_upper, hex4_upper_string, str_eq};

verus! {

/// One keyboard layout known to the process.
///
/// `hkl` is the operating system's opaque per-process handle, carried as a
/// plain integer; its low sixteen bits are the language identifier.
/// `short_code` is unique among the language ids of the static table; for
/// unrecognized ids it is synthesized from the low byte of the language id
/// and is not guaranteed unique.
#[derive(Debug)]
pub struct LayoutInfo {
    pub hkl: usize,
    pub lang_id: u32,
    pub name: String,
    pub short_code: String,
    pub is_english: bool,
}

impl Clone for LayoutInfo {
    fn clone(&self) -> (r: Self)
        ensures
            r == *self,
    {
        LayoutInfo {
            hkl: self.hkl,
            lang_id: self.lang_id,
            name: self.name.clone(),
            short_code: self.short_code.clone(),
            is_english: self.is_english,
        }
    }
}

/// The language identifier carried in a layout handle: its low sixteen bits.
pub open spec fn lang_id_of(hkl: usize) -> u32 {
    (hkl % 0x10000) as u32
}

/// The display metadata of the static language table: display name, short
/// country code, and whether the language is an English variant.  Ids not in
/// the table get a placeholder name holding the hexadecimal id, a code made
/// of the low byte of the id, and the English heuristic on the primary
/// language (the id's low ten bits).
pub open spec fn layout_details_spec(lang_id: u32) -> (Seq<char>, Seq<char>, bool) {
    if lang_id == 0x0409 { ("English (United States)"@, "us"@, true) }
    else if lang_id == 0x0809 { ("English (United Kingdom)"@, "gb"@, true) }
    else if lang_id == 0x0c09 { ("English (Australia)"@, "au"@, true) }
    else if lang_id == 0x1009 { ("English (Canada)"@, "ca"@, true) }
    else if lang_id == 0x1409 { ("English (New Zealand)"@, "nz"@, true) }
    else if lang_id == 0x1809 { ("English (Ireland)"@, "ie"@, true) }
    else if lang_id == 0x1c09 { ("English (South Africa)"@, "za"@, true) }
    else if lang_id == 0x0419 { ("Russian"@, "ru"@, false) }
    else if lang_id == 0x0422 { ("Ukrainian"@, "ua"@, false) }
    else if lang_id == 0x0423 { ("Belarusian"@, "by"@, false) }
    else if lang_id == 0x0402 { ("Bulgarian"@, "bg"@, false) }
    else if lang_id == 0x041a { ("Croatian"@, "hr"@, false) }
    else if lang_id == 0x0405 { ("Czech"@, "cz"@, false) }
    else if lang_id == 0x081a { ("Serbian (Latin)"@, "rs"@, false) }
    else if lang_id == 0x0c1a { ("Serbian (Cyrillic)"@, "sr"@, false) }
    else if lang_id == 0x041f { ("Turkish"@, "tr"@, false) }
    else if lang_id == 0x0407 { ("German"@, "de"@, false) }
    else if lang_id == 0x040c { ("French"@, "fr"@, false) }
    else if lang_id == 0x0410 { ("Italian"@, "it"@, false) }
    else if lang_id == 0x040a { ("Spanish"@, "es"@, false) }
    else if lang_id == 0x0413 { ("Dutch"@, "nl"@, false) }
    else if lang_id == 0x0414 { ("Norwegian"@, "no"@, false) }
    else if lang_id == 0x041d { ("Swedish"@, "se"@, false) }
    else if lang_id == 0x0406 { ("Danish"@, "dk"@, false) }
    else if lang_id == 0x040b { ("Finnish"@, "fi"@, false) }
    else if lang_id == 0x0816 { ("Portuguese"@, "pt"@, false) }
    else if lang_id == 0x0416 { ("Portuguese (Brazil)"@, "br"@, false) }
    else if lang_id == 0x0415 { ("Polish"@, "pl"@, false) }
    else if lang_id == 0x040e { ("Hungarian"@, "hu"@, false) }
    else if lang_id == 0x0418 { ("Romanian"@, "ro"@, false) }
    else if lang_id == 0x041b { ("Slovak"@, "sk"@, false) }
    else if lang_id == 0x0424 { ("Slovenian"@, "si"@, false) }
    else if lang_id == 0x0425 { ("Estonian"@, "ee"@, false) }
    else if lang_id == 0x0426 { ("Latvian"@, "lv"@, false) }
    else if lang_id == 0x0427 { ("Lithuanian"@, "lt"@, false) }
    else if lang_id == 0x0411 { ("Japanese"@, "jp"@, false) }
    else if lang_id == 0x0412 { ("Korean"@, "kr"@, false) }
    else if lang_id == 0x0404 { ("Chinese (Traditional)"@, "tw"@, false) }
    else if lang_id == 0x0804 { ("Chinese (Simplified)"@, "cn"@, false) }
    else if lang_id == 0x041e { ("Thai"@, "th"@, false) }
    else if lang_id == 0x042a { ("Vietnamese"@, "vn"@, false) }
    else if lang_id == 0x040d { ("Hebrew"@, "he"@, false) }
    else if lang_id == 0x0401 { ("Arabic"@, "ar"@, false) }
    else if lang_id == 0x0429 { ("Farsi"@, "fa"@, false) }
    else if lang_id == 0x040f { ("Icelandic"@, "is"@, false) }
    else if lang_id == 0x0408 { ("Greek"@, "gr"@, false) }
    else if lang_id == 0x041c { ("Albanian"@, "al"@, false) }
    else if lang_id == 0x042f { ("Macedonian"@, "mk"@, false) }
    else {
        (
            "Unknown Language (0x"@ + hex4_upper(lang_id as int) + ")"@,
            hex2_lower(lang_id as int % 0x100),
            lang_id % 0x400 == 0x09,
        )
    }
}

/// Maps a language identifier to its display name, short country code, and
/// whether it is an English variant, per the static language table.
pub fn get_layout_details(lang_id: u32) -> (r: (String, String, bool))
    requires
        lang_id <= 0xFFFF,
    ensures
        r.0@ == layout_details_spec(lang_id).0,
        r.1@ == layout_details_spec(lang_id).1,
        r.2 == layout_details_spec(lang_id).2,
{
    match lang_id {
        0x0409 => (String::from_str("English (United States)"), String::from_str("us"), true),
        0x0809 => (String::from_str("English (United Kingdom)"), String::from_str("gb"), true),
        0x0c09 => (String::from_str("English (Australia)"), String::from_str("au"), true),
        0x1009 => (String::from_str("English (Canada)"), String::from_str("ca"), true),
        0x1409 => (String::from_str("English (New Zealand)"), String::from_str("nz"), true),
        0x1809 => (String::from_str("English (Ireland)"), String::from_str("ie"), true),
        0x1c09 => (String::from_str("English (South Africa)"), String::from_str("za"), true),
        0x0419 => (String::from_str("Russian"), String::from_str("ru"), false),
        0x0422 => (String::from_str("Ukrainian"), String::from_str("ua"), false),
        0x0423 => (String::from_str("Belarusian"), String::from_str("by"), false),
        0x0402 => (String::from_str("Bulgarian"), String::from_str("bg"), false),
        0x041a => (String::from_str("Croatian"), String::from_str("hr"), false),
        0x0405 => (String::from_str("Czech"), String::from_str("cz"), false),
        0x081a => (String::from_str("Serbian (Latin)"), String::from_str("rs"), false),
        0x0c1a => (String::from_str("Serbian (Cyrillic)"), String::from_str("sr"), false),
        0x041f => (String::from_str("Turkish"), String::from_str("tr"), false),
        0x0407 => (String::from_str("German"), String::from_str("de"), false),
        0x040c => (String::from_str("French"), String::from_str("fr"), false),
        0x0410 => (String::from_str("Italian"), String::from_str("it"), false),
        0x040a => (String::from_str("Spanish"), String::from_str("es"), false),
        0x0413 => (String::from_str("Dutch"), String::from_str("nl"), false),
        0x0414 => (String::from_str("Norwegian"), String::from_str("no"), false),
        0x041d => (String::from_str("Swedish"), String::from_str("se"), false),
        0x0406 => (String::from_str("Danish"), String::from_str("dk"), false),
        0x040b => (String::from_str("Finnish"), String::from_str("fi"), false),
        0x0816 => (String::from_str("Portuguese"), String::from_str("pt"), false),
        0x0416 => (String::from_str("Portuguese (Brazil)"), String::from_str("br"), false),
        0x0415 => (String::from_str("Polish"), String::from_str("pl"), false),
        0x040e => (String::from_str("Hungarian"), String::from_str("hu"), false),
        0x0418 => (String::from_str("Romanian"), String::from_str("ro"), false),
        0x041b => (String::from_str("Slovak"), String::from_str("sk"), false),
        0x0424 => (String::from_str("Slovenian"), String::from_str("si"), false),
        0x0425 => (String::from_str("Estonian"), String::from_str("ee"), false),
        0x0426 => (String::from_str("Latvian"), String::from_str("lv"), false),
        0x0427 => (String::from_str("Lithuanian"), String::from_str("lt"), false),
        0x0411 => (String::from_str("Japanese"), String::from_str("jp"), false),
        0x0412 => (String::from_str("Korean"), String::from_str("kr"), false),
        0x0404 => (String::from_str("Chinese (Traditional)"), String::from_str("tw"), false),
        0x0804 => (String::from_str("Chinese (Simplified)"), String::from_str("cn"), false),
        0x041e => (String::from_str("Thai"), String::from_str("th"), false),
        0x042a => (String::from_str("Vietnamese"), String::from_str("vn"), false),
        0x040d => (String::from_str("Hebrew"), String::from_str("he"), false),
        0x0401 => (String::from_str("Arabic"), String::from_str("ar"), false),
        0x0429 => (String::from_str("Farsi"), String::from_str("fa"), false),
        0x040f => (String::from_str("Icelandic"), String::from_str("is"), false),
        0x0408 => (String::from_str("Greek"), String::from_str("gr"), false),
        0x041c => (String::from_str("Albanian"), String::from_str("al"), false),
        0x042f => (String::from_str("Macedonian"), String::from_str("mk"), false),
        _ => {
            let primary_lang = lang_id % 0x400;
            let is_english = primary_lang == 0x09;
            let mut name = String::from_str("Unknown Language (0x");
            let hex = hex4_upper_string(lang_id);
            name.append(hex.as_str());
            name.append(")");
            let code = hex2_lower_string((lang_id % 0x100) as u8);
            proof {
                assert(name@ =~= "Unknown Language (0x"@ + hex4_upper(lang_id as int) + ")"@);
            }
            (name, code, is_english)
        },
    }
}

impl LayoutInfo {
    /// Builds the record for a layout handle: the language id is the low
    /// sixteen bits of the handle, the metadata comes from the static table.
    pub fn new(hkl: usize) -> (r: LayoutInfo)
        ensures
            r.hkl == hkl,
            r.lang_id == lang_id_of(hkl),
            r.name@ == layout_details_spec(lang_id_of(hkl)).0,
            r.short_code@ == layout_details_spec(lang_id_of(hkl)).1,
            r.is_english == layout_details_spec(lang_id_of(hkl)).2,
    {
        let lang_id = (hkl % 0x10000) as u32;
        let (name, short_code, is_english) = get_layout_details(lang_id);
        LayoutInfo { hkl, lang_id, name, short_code, is_english }
    }

    /// The layout handle this record was built from.
    pub fn get_hkl(&self) -> (r: usize)
        ensures
            r == self.hkl,
    {
        self.hkl
    }
}

/// The first catalog entry whose short code is `code`, if any.
pub open spec fn first_match(catalog: Seq<LayoutInfo>, code: Seq<char>) -> Option<LayoutInfo>
    decreases catalog.len(),
{
    if catalog.len() == 0 {
        None
    } else if catalog[0].short_code@ == code {
        Some(catalog[0])
    } else {
        first_match(catalog.skip(1), code)
    }
}

/// Whether some catalog entry carries the short code `code`.
pub open spec fn has_code(catalog: Seq<LayoutInfo>, code: Seq<char>) -> bool {
    exists|i: int| 0 <= i < catalog.len() && catalog[i].short_code@ == code
}

/// While no entry below `j` matches, the first match is found at or past `j`.
proof fn lemma_first_match_from(catalog: Seq<LayoutInfo>, code: Seq<char>, j: int)
    requires
        0 <= j <= catalog.len(),
        forall|k: int| 0 <= k < j ==> catalog[k].short_code@ != code,
    ensures
        first_match(catalog, code) == first_match(catalog.skip(j), code),
    decreases j,
{
    if j > 0 {
        lemma_first_match_from(catalog.skip(1), code, j - 1);
        assert(catalog.skip(1).skip(j - 1) =~= catalog.skip(j));
    } else {
        assert(catalog.skip(0) =~= catalog);
    }
}

/// The index of the first catalog entry whose short code is `code`.
fn find_first_by_code(catalog: &Vec<LayoutInfo>, code: &str) -> (r: Option<usize>)
    ensures
        match r {
            Some(j) => {
                &&& j < catalog@.len()
                &&& catalog@[j as int].short_code@ == code@
                &&& forall|k: int| 0 <= k < j ==> catalog@[k].short_code@ != code@
                &&& first_match(catalog@, code@) == Some(catalog@[j as int])
                &&& has_code(catalog@, code@)
            },
            None => {
                &&& first_match(catalog@, code@) is None
                &&& !has_code(catalog@, code@)
                &&& forall|k: int| 0 <= k < catalog@.len() ==> catalog@[k].short_code@ != code@
            },
        },
{
    let n = catalog.len();
    let mut j: usize = 0;
    while j < n
        invariant
            n == catalog@.len(),
            0 <= j <= n,
            forall|k: int| 0 <= k < j ==> catalog@[k].short_code@ != code@,
        decreases n - j,
    {
        if str_eq(catalog[j].short_code.as_str(), code) {
            proof {
                lemma_first_match_from(catalog@, code@, j as int);
                assert(catalog@.skip(j as int)[0] == catalog@[j as int]);
            }
            return Some(j);
        }
        j = j + 1;
    }
    proof {
        lemma_first_match_from(catalog@, code@, n as int);
        assert(catalog@.skip(n as int).len() == 0);
    }
    None
}

/// The layouts selected by a sequence of country codes: one entry per code,
/// in code order, each the first catalog entry matching that code; codes
/// without a match contribute nothing.
pub open spec fn find_by_codes_spec(catalog: Seq<LayoutInfo>, codes: Seq<Seq<char>>) -> Seq<
    LayoutInfo,
>
    decreases codes.len(),
{
    if codes.len() == 0 {
        Seq::empty()
    } else {
        let rest = find_by_codes_spec(catalog, codes.skip(1));
        match first_match(catalog, codes[0]) {
            Some(l) => seq![l] + rest,
            None => rest,
        }
    }
}

/// Appending one code appends its match, if any, to the selection.
proof fn lemma_find_by_codes_push(catalog: Seq<LayoutInfo>, codes: Seq<Seq<char>>, c: Seq<char>)
    ensures
        find_by_codes_spec(catalog, codes.push(c)) == find_by_codes_spec(catalog, codes) + (
        match first_match(catalog, c) {
            Some(l) => seq![l],
            None => Seq::<LayoutInfo>::empty(),
        }),
    decreases codes.len(),
{
    let tail = match first_match(catalog, c) {
        Some(l) => seq![l],
        None => Seq::<LayoutInfo>::empty(),
    };
    if codes.len() == 0 {
        assert(codes =~= Seq::<Seq<char>>::empty());
        assert(codes.push(c).skip(1) =~= Seq::<Seq<char>>::empty());
        assert(codes.push(c)[0] == c);
        assert(find_by_codes_spec(catalog, codes) =~= Seq::<LayoutInfo>::empty());
        assert(find_by_codes_spec(catalog, codes.push(c).skip(1)) == find_by_codes_spec(
            catalog,
            codes,
        ));
        match first_match(catalog, c) {
            Some(l) => {
                assert(find_by_codes_spec(catalog, codes.push(c)) =~= seq![l]);
                assert(find_by_codes_spec(catalog, codes) + tail =~= seq![l]);
            },
            None => {
                assert(find_by_codes_spec(catalog, codes.push(c)) =~= Seq::<LayoutInfo>::empty());
                assert(find_by_codes_spec(catalog, codes) + tail =~= Seq::<LayoutInfo>::empty());
            },
        }
    } else {
        lemma_find_by_codes_push(catalog, codes.skip(1), c);
        assert(codes.push(c).skip(1) =~= codes.skip(1).push(c));
        assert(codes.push(c)[0] == codes[0]);
        match first_match(catalog, codes[0]) {
            Some(l) => {
                assert(seq![l] + (find_by_codes_spec(catalog, codes.skip(1)) + tail) =~= (seq![l]
                    + find_by_codes_spec(catalog, codes.skip(1))) + tail);
            },
            None => {},
        }
    }
}

/// Selects layouts for the given country codes, in input order: for each
/// code the first catalog entry whose short code matches; codes with no
/// match are silently dropped, repeated codes yield repeated entries.
pub fn find_layouts_by_codes(all_layouts: &Vec<LayoutInfo>, codes: &Vec<String>) -> (r: Vec<
    LayoutInfo,
>)
    ensures
        r@ == find_by_codes_spec(all_layouts@, codes.deep_view()),
{
    let n = codes.len();
    let mut selected: Vec<LayoutInfo> = Vec::new();
    let mut i: usize = 0;
    while i < n
        invariant
            n == codes@.len(),
            0 <= i <= n,
            selected@ == find_by_codes_spec(all_layouts@, codes.deep_view().take(i as int)),
        decreases n - i,
    {
        let found = find_first_by_code(all_layouts, codes[i].as_str());
        proof {
            lemma_find_by_codes_push(
                all_layouts@,
                codes.deep_view().take(i as int),
                codes.deep_view()[i as int],
            );
            assert(codes.deep_view().take(i + 1) =~= codes.deep_view().take(i as int).push(
                codes.deep_view()[i as int],
            ));
        }
        match found {
            Some(j) => {
                let l = (&all_layouts[j]).clone();
                selected.push(l);
                proof {
                    assert(selected@ =~= find_by_codes_spec(
                        all_layouts@,
                        codes.deep_view().take(i as int),
                    ) + seq![all_layouts@[j as int]]);
                }
            },
            None => {},
        }
        i = i + 1;
    }
    proof {
        assert(codes.deep_view().take(n as int) =~= codes.deep_view());
    }
    selected
}

/// A code has a match exactly when some entry carries it.
proof fn lemma_first_match_has(catalog: Seq<LayoutInfo>, code: Seq<char>)
    ensures
        (first_match(catalog, code) is Some) == has_code(catalog, code),
    decreases catalog.len(),
{
    if catalog.len() == 0 {
    } else if catalog[0].short_code@ == code {
    } else {
        lemma_first_match_has(catalog.skip(1), code);
        let s1 = catalog.skip(1);
        if has_code(catalog, code) {
            let i = choose|i: int| 0 <= i < catalog.len() && catalog[i].short_code@ == code;
            assert(i >= 1);
            assert(s1[i - 1].short_code@ == code);
            assert(has_code(s1, code));
        }
        if has_code(s1, code) {
            let i = choose|i: int| 0 <= i < s1.len() && s1[i].short_code@ == code;
            assert(catalog[i + 1].short_code@ == code);
            assert(has_code(catalog, code));
        }
    }
}

/// Order and multiplicity of a selection: the selection holds exactly one
/// entry per input code that matches the catalog, in input order — dropping
/// the codes without a match, the `t`-th selected entry is the first catalog
/// match of the `t`-th remaining code.  Repeated codes repeat their entry.
pub proof fn lemma_find_by_codes_structure(catalog: Seq<LayoutInfo>, codes: Seq<Seq<char>>)
    ensures
        find_by_codes_spec(catalog, codes).len() == codes.filter(
            |c: Seq<char>| has_code(catalog, c),
        ).len(),
        forall|t: int|
            0 <= t < codes.filter(|c: Seq<char>| has_code(catalog, c)).len() ==> Some(
                find_by_codes_spec(catalog, codes)[t],
            ) == first_match(catalog, codes.filter(|c: Seq<char>| has_code(catalog, c))[t]),
    decreases codes.len(),
{
    let pred = |c: Seq<char>| has_code(catalog, c);
    if codes.len() == 0 {
        reveal(Seq::filter);
        assert(codes.filter(pred) =~= Seq::<Seq<char>>::empty());
    } else {
        let init = codes.drop_last();
        let last = codes.last();
        lemma_find_by_codes_structure(catalog, init);
        lemma_find_by_codes_push(catalog, init, last);
        lemma_first_match_has(catalog, last);
        init.lemma_filter_push(last, pred);
        assert(init.push(last) =~= codes);
        let sel = find_by_codes_spec(catalog, codes);
        let sel_init = find_by_codes_spec(catalog, init);
        let kept = codes.filter(pred);
        let kept_init = init.filter(pred);
        if pred(last) {
            let l = first_match(catalog, last)->Some_0;
            assert(sel =~= sel_init + seq![l]);
            assert(kept =~= kept_init.push(last));
            assert forall|t: int| 0 <= t < kept.len() implies Some(sel[t]) == first_match(
                catalog,
                kept[t],
            ) by {
                if t < kept_init.len() {
                    assert(sel[t] == sel_init[t]);
                    assert(kept[t] == kept_init[t]);
                } else {
                    assert(sel[t] == l);
                    assert(kept[t] == last);
                }
            }
        } else {
            assert(sel =~= sel_init);
            assert(kept =~= kept_init);
        }
    }
}

/// The first English entry of a catalog, if any.
pub open spec fn first_english(catalog: Seq<LayoutInfo>) -> Option<LayoutInfo>
    decreases catalog.len(),
{
    if catalog.len() == 0 {
        None
    } else if catalog[0].is_english {
        Some(catalog[0])
    } else {
        first_english(catalog.skip(1))
    }
}

/// While no entry below `j` is English, the first English entry is at or
/// past `j`.
proof fn lemma_first_english_from(catalog: Seq<LayoutInfo>, j: int)
    requires
        0 <= j <= catalog.len(),
        forall|k: int| 0 <= k < j ==> !catalog[k].is_english,
    ensures
        first_english(catalog) == first_english(catalog.skip(j)),
    decreases j,
{
    if j > 0 {
        lemma_first_english_from(catalog.skip(1), j - 1);
        assert(catalog.skip(1).skip(j - 1) =~= catalog.skip(j));
    } else {
        assert(catalog.skip(0) =~= catalog);
    }
}

/// The first English layout of the catalog, or `None` if no English layout
/// is installed.
pub fn get_english_layout(all_layouts: &Vec<LayoutInfo>) -> (r: Option<LayoutInfo>)
    ensures
        r == first_english(all_layouts@),
{
    let n = all_layouts.len();
    let mut j: usize = 0;
    while j < n
        invariant
            n == all_layouts@.len(),
            0 <= j <= n,
            forall|k: int| 0 <= k < j ==> !all_layouts@[k].is_english,
        decreases n - j,
    {
        if all_layouts[j].is_english {
            proof {
                lemma_first_english_from(all_layouts@, j as int);
                assert(all_layouts@.skip(j as int)[0] == all_layouts@[j as int]);
            }
            return Some((&all_layouts[j]).clone());
        }
        j = j + 1;
    }
    proof {
        lemma_first_english_from(all_layouts@, n as int);
        assert(all_layouts@.skip(n as int).len() == 0);
    }
    None
}

/// The codes of `codes` that match no catalog entry, in input order.
pub open spec fn unknown_codes(catalog: Seq<LayoutInfo>, codes: Seq<Seq<char>>) -> Seq<Seq<char>> {
    codes.filter(|c: Seq<char>| !has_code(catalog, c))
}

/// The parts joined with a comma and a space between neighbours.
pub open spec fn join_comma(parts: Seq<Seq<char>>) -> Seq<char>
    decreases parts.len(),
{
    if parts.len() == 0 {
        Seq::empty()
    } else if parts.len() == 1 {
        parts[0]
    } else {
        parts[0] + ", "@ + join_comma(parts.skip(1))
    }
}

/// Appending a part appends it after a separator, unless it is the first.
proof fn lemma_join_comma_push(parts: Seq<Seq<char>>, p: Seq<char>)
    ensures
        join_comma(parts.push(p)) == if parts.len() == 0 {
            p
        } else {
            join_comma(parts) + ", "@ + p
        },
    decreases parts.len(),
{
    if parts.len() == 0 {
        assert(parts.push(p)[0] == p);
        assert(join_comma(parts.push(p)) == p);
    } else {
        lemma_join_comma_push(parts.skip(1), p);
        assert(parts.push(p).skip(1) =~= parts.skip(1).push(p));
        assert(parts.push(p)[0] == parts[0]);
        if parts.len() == 1 {
            assert(parts.skip(1) =~= Seq::<Seq<char>>::empty());
            assert(join_comma(parts.push(p)) =~= parts[0] + ", "@ + p);
            assert(join_comma(parts) + ", "@ + p =~= parts[0] + ", "@ + p);
        } else {
            assert(join_comma(parts.push(p)) =~= (parts[0] + ", "@ + join_comma(parts.skip(1)))
                + ", "@ + p);
            assert(join_comma(parts) + ", "@ + p =~= (parts[0] + ", "@ + join_comma(
                parts.skip(1),
            )) + ", "@ + p);
        }
    }
}

/// Joins the parts with `", "` between neighbours.
fn join_with_comma(parts: &Vec<String>) -> (r: String)
    ensures
        r@ == join_comma(parts.deep_view()),
{
    let n = parts.len();
    let mut out = String::new();
    let mut i: usize = 0;
    while i < n
        invariant
            n == parts@.len(),
            0 <= i <= n,
            out@ == join_comma(parts.deep_view().take(i as int)),
        decreases n - i,
    {
        proof {
            lemma_join_comma_push(parts.deep_view().take(i as int), parts.deep_view()[i as int]);
            assert(parts.deep_view().take(i + 1) =~= parts.deep_view().take(i as int).push(
                parts.deep_view()[i as int],
            ));
        }
        if i > 0 {
            out.append(", ");
        }
        out.append(parts[i].as_str());
        i = i + 1;
    }
    proof {
        assert(parts.deep_view().take(n as int) =~= parts.deep_view());
    }
    out
}

/// The error text naming every unrecognized code.
pub open spec fn unknown_codes_message(invalid: Seq<Seq<char>>) -> Seq<char> {
    "Unknown country codes: "@ + join_comma(invalid)
        + ". Use 'ccaps -status' to see available codes."@
}

/// The error text for a validation request with no usable code.
pub open spec fn no_valid_codes_message() -> Seq<char> {
    "No valid country codes provided."@
}

/// Checks every requested country code against the catalog.  Returns the
/// codes unchanged when the list is non-empty and each code matches some
/// catalog entry; otherwise an error that names every unrecognized code, or
/// reports that no valid code was provided when the list is empty.
pub fn validate_country_codes(all_layouts: &Vec<LayoutInfo>, codes: &Vec<String>) -> (r: Result<
    Vec<String>,
    String,
>)
    ensures
        ({
            let invalid = unknown_codes(all_layouts@, codes.deep_view());
            &&& invalid.len() > 0 ==> (r matches Err(m) && m@ == unknown_codes_message(invalid))
            &&& (invalid.len() == 0 && codes@.len() == 0) ==> (r matches Err(m) && m@
                == no_valid_codes_message())
            &&& (invalid.len() == 0 && codes@.len() > 0) ==> (r matches Ok(v) && v.deep_view()
                == codes.deep_view())
        }),
{
    let ghost pred = |c: Seq<char>| !has_code(all_layouts@, c);
    let n = codes.len();
    let mut valid: Vec<String> = Vec::new();
    let mut invalid: Vec<String> = Vec::new();
    let mut i: usize = 0;
    while i < n
        invariant
            n == codes@.len(),
            0 <= i <= n,
            pred == (|c: Seq<char>| !has_code(all_layouts@, c)),
            invalid.deep_view() == codes.deep_view().take(i as int).filter(pred),
            invalid@.len() == 0 ==> valid.deep_view() == codes.deep_view().take(i as int),
        decreases n - i,
    {
        proof {
            assert(codes.deep_view().take(i + 1) =~= codes.deep_view().take(i as int).push(
                codes.deep_view()[i as int],
            ));
            codes.deep_view().take(i as int).lemma_filter_push(codes.deep_view()[i as int], pred);
        }
        let code = &codes[i];
        if find_first_by_code(all_layouts, code.as_str()).is_some() {
            if invalid.len() == 0 {
                valid.push(code.clone());
                proof {
                    assert(valid.deep_view() =~= codes.deep_view().take(i + 1));
                }
            }
            proof {
                assert(!pred(codes.deep_view()[i as int]));
            }
        } else {
            invalid.push(code.clone());
            proof {
                assert(pred(codes.deep_view()[i as int]));
                assert(invalid.deep_view() =~= codes.deep_view().take(i as int).filter(pred).push(
                    codes.deep_view()[i as int],
                ));
            }
        }
        i = i + 1;
    }
    proof {
        assert(codes.deep_view().take(n as int) =~= codes.deep_view());
    }
    if invalid.len() > 0 {
        let mut message = String::from_str("Unknown country codes: ");
        let joined = join_with_comma(&invalid);
        message.append(joined.as_str());
        message.append(". Use 'ccaps -status' to see available codes.");
        proof {
            assert(message@ =~= unknown_codes_message(unknown_codes(all_layouts@,
                codes.deep_view())));
        }
        return Err(message);
    }
    if valid.len() == 0 {
        return Err(String::from_str("No valid country codes provided."));
    }
    Ok(valid)
}

/// The catalog order: English layouts before all others, and within the same
/// English class alphabetical by display name.
pub open spec fn layout_le(a: LayoutInfo, b: LayoutInfo) -> bool {
    if a.is_english == b.is_english {
        crate::text::lex_le(a.name@, b.name@)
    } else {
        a.is_english
    }
}

/// Any two layouts are ordered one way or the other.
pub proof fn lemma_layout_le_total(a: LayoutInfo, b: LayoutInfo)
    ensures
        layout_le(a, b) || layout_le(b, a),
{
    crate::text::lemma_lex_le_total(a.name@, b.name@);
}

/// The catalog order is transitive.
pub proof fn lemma_layout_le_trans(a: LayoutInfo, b: LayoutInfo, c: LayoutInfo)
    requires
        layout_le(a, b),
        layout_le(b, c),
    ensures
        layout_le(a, c),
{
    if a.is_english == b.is_english && b.is_english == c.is_english {
        crate::text::lemma_lex_le_trans(a.name@, b.name@, c.name@);
    }
}

/// Decides `layout_le` on two layout records.
fn layout_le_exec(a: &LayoutInfo, b: &LayoutInfo) -> (r: bool)
    ensures
        r == layout_le(*a, *b),
{
    if a.is_english == b.is_english {
        crate::text::str_le(a.name.as_str(), b.name.as_str())
    } else {
        a.is_english
    }
}

/// A catalog arranged in the catalog order.
pub open spec fn sorted_layouts(s: Seq<LayoutInfo>) -> bool {
    forall|i: int, j: int| 0 <= i < j < s.len() ==> layout_le(#[trigger] s[i], #[trigger] s[j])
}

/// What the catalog order means entry by entry: in a sorted catalog, two
/// layouts of the same English class stand in lexicographic order of their
/// display names, and an English layout never stands after a non-English
/// one, whatever the names.
pub proof fn lemma_sorted_catalog_order(s: Seq<LayoutInfo>, i: int, j: int)
    requires
        sorted_layouts(s),
        0 <= i < j < s.len(),
    ensures
        s[i].is_english == s[j].is_english ==> crate::text::lex_le(s[i].name@, s[j].name@),
        !s[i].is_english ==> !s[j].is_english,
{
    assert(layout_le(s[i], s[j]));
}

/// Sorts a catalog: English layouts first, then alphabetical by display
/// name.  The result holds exactly the records of the input.
pub fn sort_layouts(layouts: &Vec<LayoutInfo>) -> (r: Vec<LayoutInfo>)
    ensures
        sorted_layouts(r@),
        r@.to_multiset() == layouts@.to_multiset(),
        r@.len() == layouts@.len(),
{
    broadcast use vstd::seq_lib::group_to_multiset_ensures;
    broadcast use vstd::seq_lib::to_multiset_insert;

    let n = layouts.len();
    let mut out: Vec<LayoutInfo> = Vec::new();
    let mut k: usize = 0;
    while k < n
        invariant
            n == layouts@.len(),
            0 <= k <= n,
            sorted_layouts(out@),
            out@.to_multiset() == layouts@.take(k as int).to_multiset(),
            out@.len() == k,
        decreases n - k,
    {
        let x = (&layouts[k]).clone();
        let m = out.len();
        let mut pos: usize = 0;
        while pos < m && layout_le_exec(&out[pos], &x)
            invariant
                m == out@.len(),
                0 <= pos <= m,
                forall|p: int| 0 <= p < pos ==> layout_le(#[trigger] out@[p], x),
            decreases m - pos,
        {
            pos = pos + 1;
        }
        proof {
            if pos < out@.len() {
                lemma_layout_le_total(out@[pos as int], x);
                assert forall|j: int| pos <= j < out@.len() implies layout_le(
                    x,
                    #[trigger] out@[j],
                ) by {
                    if j > pos {
                        lemma_layout_le_trans(x, out@[pos as int], out@[j]);
                    }
                }
            }
            out@.insert_ensures(pos as int, x);
            let s = out@.insert(pos as int, x);
            assert forall|i: int, j: int| 0 <= i < j < s.len() implies layout_le(
                #[trigger] s[i],
                #[trigger] s[j],
            ) by {
                if j < pos {
                } else if i < pos && j == pos {
                    assert(s[i] == out@[i] && s[j] == x);
                } else if i < pos && j > pos {
                    assert(s[i] == out@[i] && s[j] == out@[j - 1]);
                } else if i == pos {
                    assert(s[i] == x && s[j] == out@[j - 1]);
                } else {
                    assert(s[i] == out@[i - 1] && s[j] == out@[j - 1]);
                }
            }
            assert(layouts@.take(k + 1) =~= layouts@.take(k as int).push(layouts@[k as int]));
            vstd::seq_lib::to_multiset_insert(out@, pos as int, x);
            layouts@.take(k as int).to_multiset_ensures();
            assert(layouts@.take(k as int).push(layouts@[k as int]).to_multiset()
                =~= layouts@.take(k as int).to_multiset().insert(layouts@[k as int]));
        }
        out.insert(pos, x);
        k = k + 1;
    }
    proof {
        assert(layouts@.take(n as int) =~= layouts@);
    }
    out
}

} // verus!
