//! Case conversions of texts, done by `heck` and by `std`.
use vstd::prelude::*;
use heck::{
    ToKebabCase, ToLowerCamelCase, ToPascalCase, ToShoutyKebabCase, ToShoutySnakeCase, ToSnakeCase,
    ToTitleCase, ToTrainCase,
};

verus! {

/// Whether every character of a text is ASCII.
pub open spec fn is_ascii_text(s: Seq<char>) -> bool {
    forall|i: int| 0 <= i < s.len() ==> (#[trigger] s[i] as u32) < 128
}

/// The ASCII lowercase of a character: `A` to `Z` become `a` to `z`, others stay.
pub open spec fn ascii_lower(c: char) -> char {
    if 65 <= (c as u32) <= 90 {
        ((c as u32) + 32) as char
    } else {
        c
    }
}

/// The ASCII uppercase of a character: `a` to `z` become `A` to `Z`, others stay.
pub open spec fn ascii_upper(c: char) -> char {
    if 97 <= (c as u32) <= 122 {
        ((c as u32) - 32) as char
    } else {
        c
    }
}

/// Whether every character of a text lies in the Latin-1 range (below `U+0100`), ASCII
/// included.
pub open spec fn is_latin1_text(s: Seq<char>) -> bool {
    forall|i: int| 0 <= i < s.len() ==> (#[trigger] s[i] as u32) < 256
}

/// The Unicode lowercase of a Latin-1 character: `A` to `Z` and `À` to `Þ` (but `×`) become
/// the letter 32 code points on; every other Latin-1 character is its own lowercase.
pub open spec fn latin1_lower(c: char) -> char {
    let n = c as u32;
    if 65 <= n <= 90 || (192 <= n <= 222 && n != 215) {
        (n + 32) as char
    } else {
        c
    }
}

/// Whether a text is Latin-1 without `ß`, the one Latin-1 character whose uppercase is two
/// characters (`SS`).
pub open spec fn is_latin1_upper_text(s: Seq<char>) -> bool {
    forall|i: int| 0 <= i < s.len() ==> (#[trigger] s[i] as u32) < 256 && s[i] as u32 != 223
}

/// The Unicode uppercase of a Latin-1 character other than `ß`: `a` to `z` and `à` to `þ` (but
/// `÷`) become the letter 32 code points back, `ÿ` becomes `Ÿ` (`U+0178`) and `µ` becomes the
/// Greek capital mu (`U+039C`); every other one is its own uppercase.
pub open spec fn latin1_upper(c: char) -> char {
    let n = c as u32;
    if 97 <= n <= 122 || (224 <= n <= 254 && n != 247) {
        (n - 32) as char
    } else if n == 255 {
        0x178u32 as char
    } else if n == 181 {
        0x39Cu32 as char
    } else {
        c
    }
}

/// The lowercase of a text as `str::to_lowercase` gives it: for a Latin-1 text, each
/// character by [`latin1_lower`]; for another, what [`lowercase_of`] names.
pub open spec fn lowered(s: Seq<char>) -> Seq<char> {
    if is_latin1_text(s) {
        s.map_values(|c: char| latin1_lower(c))
    } else {
        lowercase_of(s)
    }
}

/// The uppercase of a text as `str::to_uppercase` gives it: for a Latin-1 text without `ß`,
/// each character by [`latin1_upper`]; for another, what [`uppercase_of`] names.
pub open spec fn raised(s: Seq<char>) -> Seq<char> {
    if is_latin1_upper_text(s) {
        s.map_values(|c: char| latin1_upper(c))
    } else {
        uppercase_of(s)
    }
}

/// What `str::to_lowercase` of std gives for a text: every character by its Unicode lowercase
/// mapping. It depends on the text alone; the Unicode tables are left to std.
pub uninterp spec fn lowercase_of(s: Seq<char>) -> Seq<char>;

/// Converts a text with `str::to_lowercase` of std; the contract claims that the result is the
/// one that [`lowercase_of`] names for the argument, and, as std documents for ASCII, that an
/// ASCII text has each letter `A` to `Z` made lowercase and its other characters kept. std
/// documents the mapping as Unicode's, character by character (`Σ` at the end of a word being
/// the one character it treats by context); for the Latin-1 characters Unicode's lowercase
/// mapping is [`latin1_lower`], which the contract states too.
#[verifier::external_body]
pub(crate) fn lowercase_text(t: &Vec<char>) -> (r: Vec<char>)
    ensures
        r@ == lowercase_of(t@),
        is_ascii_text(t@) ==> r@ == t@.map_values(|c: char| ascii_lower(c)),
        is_latin1_text(t@) ==> r@ == t@.map_values(|c: char| latin1_lower(c)),
{
    let s: String = t.iter().collect();
    s.to_lowercase().chars().collect()
}

/// What `str::to_uppercase` of std gives for a text: every character by its Unicode uppercase
/// mapping. It depends on the text alone; the Unicode tables are left to std.
pub uninterp spec fn uppercase_of(s: Seq<char>) -> Seq<char>;

/// Converts a text with `str::to_uppercase` of std; the contract claims that the result is the
/// one that [`uppercase_of`] names for the argument, and, as std documents for ASCII, that an
/// ASCII text has each letter `a` to `z` made uppercase and its other characters kept. std
/// documents the mapping as Unicode's, character by character, a character's uppercase being
/// one or more characters; for the Latin-1 characters other than `ß` (whose uppercase is `SS`)
/// Unicode's uppercase mapping is [`latin1_upper`], which the contract states too.
#[verifier::external_body]
pub(crate) fn uppercase_text(t: &Vec<char>) -> (r: Vec<char>)
    ensures
        r@ == uppercase_of(t@),
        is_ascii_text(t@) ==> r@ == t@.map_values(|c: char| ascii_upper(c)),
        is_latin1_upper_text(t@) ==> r@ == t@.map_values(|c: char| latin1_upper(c)),
{
    let s: String = t.iter().collect();
    s.to_uppercase().chars().collect()
}

/// What `heck::ToPascalCase::to_pascal_case` gives for a text: the words of the text, each
/// capitalised, run together. It depends on the text alone; how words are found and cased is left
/// to that function.
pub uninterp spec fn pascal_case_of(s: Seq<char>) -> Seq<char>;

/// Converts a text with `heck::ToPascalCase::to_pascal_case`; the contract claims only that the
/// result is the one that [`pascal_case_of`] names for the argument.
#[verifier::external_body]
pub(crate) fn pascal_case_text(t: &Vec<char>) -> (r: Vec<char>)
    ensures
        r@ == pascal_case_of(t@),
{
    let s: String = t.iter().collect();
    s.to_pascal_case().chars().collect()
}

/// What `heck::ToLowerCamelCase::to_lower_camel_case` gives for a text: the words run together, the
/// first in lower case and the others capitalised. It depends on the text alone; how words are
/// found and cased is left to that function.
pub uninterp spec fn lower_camel_case_of(s: Seq<char>) -> Seq<char>;

/// Converts a text with `heck::ToLowerCamelCase::to_lower_camel_case`; the contract claims only
/// that the result is the one that [`lower_camel_case_of`] names for the argument.
#[verifier::external_body]
pub(crate) fn lower_camel_case_text(t: &Vec<char>) -> (r: Vec<char>)
    ensures
        r@ == lower_camel_case_of(t@),
{
    let s: String = t.iter().collect();
    s.to_lower_camel_case().chars().collect()
}

/// What `heck::ToSnakeCase::to_snake_case` gives for a text: the words in lower case, joined by
/// `_`. It depends on the text alone; how words are found and cased is left to that function.
pub uninterp spec fn snake_case_of(s: Seq<char>) -> Seq<char>;

/// Converts a text with `heck::ToSnakeCase::to_snake_case`; the contract claims only that the
/// result is the one that [`snake_case_of`] names for the argument.
#[verifier::external_body]
pub(crate) fn snake_case_text(t: &Vec<char>) -> (r: Vec<char>)
    ensures
        r@ == snake_case_of(t@),
{
    let s: String = t.iter().collect();
    s.to_snake_case().chars().collect()
}

/// What `heck::ToKebabCase::to_kebab_case` gives for a text: the words in lower case, joined by
/// `-`. It depends on the text alone; how words are found and cased is left to that function.
pub uninterp spec fn kebab_case_of(s: Seq<char>) -> Seq<char>;

/// Converts a text with `heck::ToKebabCase::to_kebab_case`; the contract claims only that the
/// result is the one that [`kebab_case_of`] names for the argument.
#[verifier::external_body]
pub(crate) fn kebab_case_text(t: &Vec<char>) -> (r: Vec<char>)
    ensures
        r@ == kebab_case_of(t@),
{
    let s: String = t.iter().collect();
    s.to_kebab_case().chars().collect()
}

/// What `heck::ToShoutySnakeCase::to_shouty_snake_case` gives for a text: the words in upper case,
/// joined by `_`. It depends on the text alone; how words are found and cased is left to that
/// function.
pub uninterp spec fn shouty_snake_case_of(s: Seq<char>) -> Seq<char>;

/// Converts a text with `heck::ToShoutySnakeCase::to_shouty_snake_case`; the contract claims only
/// that the result is the one that [`shouty_snake_case_of`] names for the argument.
#[verifier::external_body]
pub(crate) fn shouty_snake_case_text(t: &Vec<char>) -> (r: Vec<char>)
    ensures
        r@ == shouty_snake_case_of(t@),
{
    let s: String = t.iter().collect();
    s.to_shouty_snake_case().chars().collect()
}

/// What `heck::ToTitleCase::to_title_case` gives for a text: the words, each capitalised, joined by
/// spaces. It depends on the text alone; how words are found and cased is left to that function.
pub uninterp spec fn title_case_of(s: Seq<char>) -> Seq<char>;

/// Converts a text with `heck::ToTitleCase::to_title_case`; the contract claims only that the
/// result is the one that [`title_case_of`] names for the argument.
#[verifier::external_body]
pub(crate) fn title_case_text(t: &Vec<char>) -> (r: Vec<char>)
    ensures
        r@ == title_case_of(t@),
{
    let s: String = t.iter().collect();
    s.to_title_case().chars().collect()
}

/// What `heck::ToShoutyKebabCase::to_shouty_kebab_case` gives for a text: the words in upper case,
/// joined by `-`. It depends on the text alone; how words are found and cased is left to that
/// function.
pub uninterp spec fn shouty_kebab_case_of(s: Seq<char>) -> Seq<char>;

/// Converts a text with `heck::ToShoutyKebabCase::to_shouty_kebab_case`; the contract claims only
/// that the result is the one that [`shouty_kebab_case_of`] names for the argument.
#[verifier::external_body]
pub(crate) fn shouty_kebab_case_text(t: &Vec<char>) -> (r: Vec<char>)
    ensures
        r@ == shouty_kebab_case_of(t@),
{
    let s: String = t.iter().collect();
    s.to_shouty_kebab_case().chars().collect()
}

/// What `heck::ToTrainCase::to_train_case` gives for a text: the words, each capitalised, joined by
/// `-`. It depends on the text alone; how words are found and cased is left to that function.
pub uninterp spec fn train_case_of(s: Seq<char>) -> Seq<char>;

/// Converts a text with `heck::ToTrainCase::to_train_case`; the contract claims only that the
/// result is the one that [`train_case_of`] names for the argument.
#[verifier::external_body]
pub(crate) fn train_case_text(t: &Vec<char>) -> (r: Vec<char>)
    ensures
        r@ == train_case_of(t@),
{
    let s: String = t.iter().collect();
    s.to_train_case().chars().collect()
}

} // verus!
