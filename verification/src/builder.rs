//! Building the text of parsed pieces: concatenation and modifier chains.
use vstd::prelude::*;

use crate::casing::{
    kebab_case_of, lower_camel_case_of, lowered, pascal_case_of, raised, shouty_kebab_case_of,
    shouty_snake_case_of, snake_case_of, title_case_of, train_case_of,
};
use crate::models::{ModifierV, Output, PartV};
use crate::casing::{
    kebab_case_text, lower_camel_case_text, lowercase_text, pascal_case_text,
    shouty_kebab_case_text, shouty_snake_case_text, snake_case_text, title_case_text,
    train_case_text, uppercase_text,
};
use crate::models::{Modifier, TokenPart, lemma_parts_view, modifiers_view, parts_view};
use crate::text::{chars_of, string_of};
use crate::text::{cycle_take, ends_with_s, join, repeat, replace_all, split_pieces, texts};
use crate::text::{join_texts, split_text};
use crate::text::{
    byte_len, char_at_byte, char_index_at_byte, lemma_char_at_byte_bounds, text_byte_len,
};
use crate::text::{
    append_text, copy_text, cycle_take_text, repeat_text, replace_text, reverse_text, sub_text,
    text_ends_with_s,
};

verus! {

/// The index that `val` names in something of length `len` (an `i32`, as the position
/// arithmetic is done in `i32`): a negative `val` counts from the end, and the sum is then
/// taken as a `usize` as it stands, so that one before the beginning wraps round to a huge
/// index; a non-negative `val` is capped at `len`. `None` where the `i32` sum overflows.
pub open spec fn position(len: i32, val: i32) -> Option<usize> {
    if val < 0 {
        let t = len as int + val as int;
        if t < i32::MIN {
            None
        } else {
            Some((t as i32) as usize)
        }
    } else {
        Some((if val < len { val } else { len }) as usize)
    }
}

/// The length of a text or a list as the position arithmetic sees it.
pub open spec fn len32(n: nat) -> i32 {
    n as i32
}

/// The padding of `v` to `width` characters with `pat` written again and again, in front of `v`
/// (`at_start`) or behind it. `None` where it cannot be computed: the width overflows
/// `i32`, or the pattern is empty while padding is needed.
pub open spec fn pad(v: Seq<char>, total: usize, pat: Seq<char>, at_start: bool) -> Option<Seq<char>> {
    let width = (total as i32) as int - len32(v.len()) as int;
    if width < i32::MIN || width > i32::MAX {
        None
    } else if width <= 0 {
        Some(v)
    } else if pat.len() == 0 {
        None
    } else if at_start {
        Some(cycle_take(pat, width as nat) + v)
    } else {
        Some(v + cycle_take(pat, width as nat))
    }
}

/// What a splice gives on one text or one list: `start..end` replaced by `rep`, or what stood
/// there; empty where `start` lies beyond `end`; `None` where `end` lies beyond the end.
pub open spec fn splice_of<A>(s: Seq<A>, start: usize, end: usize, rep: Seq<A>, out: Output) -> Option<Seq<A>> {
    if start > end {
        Some(seq![])
    } else if end > s.len() {
        None
    } else if out == Output::Removed {
        Some(s.subrange(start as int, end as int))
    } else {
        Some(s.take(start as int) + rep + s.skip(end as int))
    }
}

/// What a slice gives on one text or one list: `start..end`, or empty where that range is empty
/// or runs beyond the end.
pub open spec fn slice_of<A>(s: Seq<A>, start: usize, end: usize) -> Seq<A> {
    if start >= end {
        seq![]
    } else if end <= s.len() {
        s.subrange(start as int, end as int)
    } else {
        seq![]
    }
}

/// A slice of a text by byte positions (`str::get(start..end)`, empty where that gives
/// nothing): the characters between the boundaries at `start` and `end`; empty where `start` is
/// not before `end` or either is no character boundary.
pub open spec fn text_slice(v: Seq<char>, start: usize, end: usize) -> Seq<char> {
    if start >= end {
        seq![]
    } else {
        match (char_at_byte(v, start as int), char_at_byte(v, end as int)) {
            (Some(i), Some(j)) => if i <= j {
                v.subrange(i, j)
            } else {
                seq![]
            },
            _ => seq![],
        }
    }
}

/// A splice of a text by byte positions (`String::replace_range`): the range between the
/// boundaries at `start` and `end` replaced by `rep`, or what stood there; empty where `start`
/// lies beyond `end`; `None` where either is no character boundary.
pub open spec fn text_splice(v: Seq<char>, start: usize, end: usize, rep: Seq<char>, out: Output) -> Option<
    Seq<char>,
> {
    if start > end {
        Some(seq![])
    } else {
        match (char_at_byte(v, start as int), char_at_byte(v, end as int)) {
            (Some(i), Some(j)) => if i > j {
                None
            } else if out == Output::Removed {
                Some(v.subrange(i, j))
            } else {
                Some(v.take(i) + rep + v.skip(j))
            },
            _ => None,
        }
    }
}

/// What a modifier does to one value where it acts on each value by itself; `None` where the
/// step is undefined (a position out of range, an empty padding pattern) or overflows.
#[verifier::opaque]
pub open spec fn each_value(v: Seq<char>, m: ModifierV) -> Option<Seq<char>> {
    match m {
        ModifierV::Singular => Some(if ends_with_s(v) { v.drop_last() } else { v }),
        ModifierV::Plural => Some(if ends_with_s(v) { v } else { v.push('s') }),
        ModifierV::Lowercase => Some(lowered(v)),
        ModifierV::Uppercase => Some(raised(v)),
        ModifierV::PascalCase => Some(pascal_case_of(v)),
        ModifierV::LowerCamelCase => Some(lower_camel_case_of(v)),
        ModifierV::SnakeCase => Some(snake_case_of(v)),
        ModifierV::KebabCase => Some(kebab_case_of(v)),
        ModifierV::ShoutySnakeCase => Some(shouty_snake_case_of(v)),
        ModifierV::TitleCase => Some(title_case_of(v)),
        ModifierV::ShoutyKebabCase => Some(shouty_kebab_case_of(v)),
        ModifierV::TrainCase => Some(train_case_of(v)),
        ModifierV::Replace(from, to) => Some(replace_all(v, from, to)),
        ModifierV::Substr(a, b) => if byte_len(v) > usize::MAX {
            None
        } else {
            let start: int = match a {
                Some(x) => x as int,
                None => 0,
            };
            let end: int = match b {
                Some(x) => x as int,
                None => byte_len(v) as int,
            };
            match (char_at_byte(v, start), char_at_byte(v, end)) {
                (Some(i), Some(j)) => if i <= j {
                    Some(v.subrange(i, j))
                } else {
                    None
                },
                _ => None,
            }
        },
        ModifierV::Reverse => Some(v.reverse()),
        ModifierV::Repeat(n) => if v.len() * n <= usize::MAX {
            Some(repeat(v, n as nat))
        } else {
            None
        },
        ModifierV::PadStart(total, pat) => pad(v, total, pat, true),
        ModifierV::PadEnd(total, pat) => pad(v, total, pat, false),
        ModifierV::Slice(a, b) => if byte_len(v) > usize::MAX {
            None
        } else {
            let len = len32(byte_len(v));
            match (position(len, a.unwrap_or(0)), position(len, b.unwrap_or(len))) {
                (Some(start), Some(end)) => Some(text_slice(v, start, end)),
                _ => None,
            }
        },
        ModifierV::Splice(out, a, b, r) => if byte_len(v) > usize::MAX {
            None
        } else {
            let len = len32(byte_len(v));
            match (position(len, a.unwrap_or(0)), position(len, b.unwrap_or(len))) {
                (Some(start), Some(end)) => text_splice(v, start, end, r.unwrap_or(seq![]), out),
                _ => None,
            }
        },
        _ => None,
    }
}

/// `each_value` on every value, or `None` where it is `None` on any of them.
pub open spec fn map_each(values: Seq<Seq<char>>, m: ModifierV) -> Option<Seq<Seq<char>>>
    decreases values.len(),
{
    if values.len() == 0 {
        Some(seq![])
    } else {
        match (map_each(values.drop_last(), m), each_value(values.last(), m)) {
            (Some(front), Some(v)) => Some(front.push(v)),
            _ => None,
        }
    }
}

/// The pieces of every value split at `pat`, in order.
pub open spec fn split_each(values: Seq<Seq<char>>, pat: Seq<char>) -> Seq<Seq<char>>
    decreases values.len(),
{
    if values.len() == 0 {
        seq![]
    } else {
        split_each(values.drop_last(), pat) + split_pieces(values.last(), pat)
    }
}

/// The two halves of a value at byte `mid` (`str::split_at`); with `clamp` a `mid` beyond the
/// value's end stands for its end, without it the value then stays whole. `None` where `mid` is
/// no character boundary.
pub open spec fn halves_at(v: Seq<char>, mid: usize, clamp: bool) -> Option<Seq<Seq<char>>> {
    if !clamp && mid > byte_len(v) {
        Some(seq![v])
    } else {
        let m: int = if mid > byte_len(v) { byte_len(v) as int } else { mid as int };
        match char_at_byte(v, m) {
            Some(k) => Some(seq![v.take(k), v.skip(k)]),
            None => None,
        }
    }
}

/// The halves of every value at byte `mid`, in order, as [`halves_at`] states; `None` where
/// that is `None` on any value.
pub open spec fn split_at_each(values: Seq<Seq<char>>, mid: usize, clamp: bool) -> Option<Seq<Seq<char>>>
    decreases values.len(),
{
    if values.len() == 0 {
        Some(seq![])
    } else {
        match (split_at_each(values.drop_last(), mid, clamp), halves_at(values.last(), mid, clamp)) {
            (Some(front), Some(h)) => Some(front + h),
            _ => None,
        }
    }
}

/// The values that are not empty, in order.
pub open spec fn non_empty(values: Seq<Seq<char>>) -> Seq<Seq<char>>
    decreases values.len(),
{
    if values.len() == 0 {
        seq![]
    } else if values.last().len() == 0 {
        non_empty(values.drop_last())
    } else {
        non_empty(values.drop_last()).push(values.last())
    }
}

/// One step of a modifier chain on the current values. With more than one value the structural
/// modifiers act on the list; otherwise every modifier acts on each value by itself.
#[verifier::opaque]
pub open spec fn apply_modifier(values: Seq<Seq<char>>, m: ModifierV) -> Option<Seq<Seq<char>>> {
    let list_mode = values.len() > 1;
    match m {
        ModifierV::Reverse => if list_mode {
            Some(values.reverse())
        } else {
            map_each(values, m)
        },
        ModifierV::Repeat(n) => if list_mode {
            if values.len() * n <= usize::MAX {
                Some(repeat(values, n as nat))
            } else {
                None
            }
        } else {
            map_each(values, m)
        },
        ModifierV::Split(pat) => if list_mode {
            Some(non_empty(split_each(values, pat)))
        } else {
            Some(split_each(values, pat))
        },
        ModifierV::SplitAt(mid) => if list_mode {
            match split_at_each(values, mid, true) {
                Some(pieces) => Some(non_empty(pieces)),
                None => None,
            }
        } else {
            split_at_each(values, mid, false)
        },
        ModifierV::Join(sep) => Some(seq![join(values, sep)]),
        ModifierV::Slice(a, b) => if list_mode {
            let len = len32(values.len());
            match (position(len, a.unwrap_or(0)), position(len, b.unwrap_or(len))) {
                (Some(start), Some(end)) => Some(slice_of(values, start, end)),
                _ => None,
            }
        } else {
            map_each(values, m)
        },
        ModifierV::Splice(out, a, b, r) => if list_mode {
            let len = len32(values.len());
            let rep: Seq<Seq<char>> = match r {
                Some(t) => seq![t],
                None => seq![],
            };
            match (position(len, a.unwrap_or(0)), position(len, b.unwrap_or(len))) {
                (Some(start), Some(end)) => splice_of(values, start, end, rep, out),
                _ => None,
            }
        } else {
            map_each(values, m)
        },
        _ => map_each(values, m),
    }
}

/// A whole modifier chain, one step after another.
pub open spec fn apply_all(values: Seq<Seq<char>>, ms: Seq<ModifierV>) -> Option<Seq<Seq<char>>>
    decreases ms.len(),
{
    if ms.len() == 0 {
        Some(values)
    } else {
        match apply_all(values, ms.drop_last()) {
            Some(w) => apply_modifier(w, ms.last()),
            None => None,
        }
    }
}

/// The text that a modifier chain gives for a list of values: the final values run together.
pub open spec fn modified(values: Seq<Seq<char>>, ms: Seq<ModifierV>) -> Option<Seq<char>> {
    match apply_all(values, ms) {
        Some(w) => Some(join(w, seq![])),
        None => None,
    }
}

/// The text of a parsed piece; `None` where building it would panic or overflow.
pub open spec fn built(p: PartV) -> Option<Seq<char>>
    decreases p,
{
    match p {
        PartV::Plain(v) => Some(v),
        PartV::ConcatGroup(ps) => match built_each(ps) {
            Some(list) => Some(join(list, seq![])),
            None => None,
        },
        PartV::ListGroup(ps) => match built_each(ps) {
            Some(list) => Some(join(list, seq![])),
            None => None,
        },
        PartV::Modified(t, ms) => match *t {
            PartV::Plain(v) => modified(seq![v], ms),
            PartV::ListGroup(items) => match built_each(items) {
                Some(list) => modified(list, ms),
                None => None,
            },
            PartV::ConcatGroup(ps) => match built_each(ps) {
                Some(list) => modified(seq![join(list, seq![])], ms),
                None => None,
            },
            PartV::Modified(inner, nested) => match built(*inner) {
                Some(v) => match modified(seq![v], nested) {
                    Some(w) => modified(seq![w], ms),
                    None => None,
                },
                None => None,
            },
        },
    }
}

/// The texts of a sequence of pieces, each by itself.
pub open spec fn built_each(ps: Seq<PartV>) -> Option<Seq<Seq<char>>>
    decreases ps,
{
    if ps.len() == 0 {
        Some(seq![])
    } else {
        match (built_each(ps.drop_last()), built(ps.last())) {
            (Some(front), Some(v)) => Some(front.push(v)),
            _ => None,
        }
    }
}

/// The texts of a sequence of pieces run together.
pub open spec fn built_concat(ps: Seq<PartV>) -> Option<Seq<char>> {
    match built_each(ps) {
        Some(list) => Some(join(list, seq![])),
        None => None,
    }
}

/// The raw-identifier prefix, which the built text loses wherever it occurs.
pub open spec fn raw_prefix() -> Seq<char> {
    seq!['r', '#']
}

/// The final text of a parsed input: the pieces run together, then every `r#` removed.
pub open spec fn built_string(ps: Seq<PartV>) -> Option<Seq<char>> {
    match built_concat(ps) {
        Some(t) => Some(replace_all(t, raw_prefix(), seq![])),
        None => None,
    }
}

/// The index that `val` names in something of length `len`, as [`position`] states.
pub fn parse_pos(len: i32, val: i32) -> (r: Option<usize>)
    ensures
        r == position(len, val),
{
    if val < 0 {
        let t: i64 = len as i64 + val as i64;
        if t < i32::MIN as i64 {
            None
        } else {
            Some((t as i32) as usize)
        }
    } else {
        Some((if val < len { val } else { len }) as usize)
    }
}

/// The length of a text or a list as the position arithmetic sees it, as [`len32`] states.
fn text_len32(n: usize) -> (r: i32)
    ensures
        r == len32(n as nat),
{
    n as i32
}

/// The padding of a text, as [`pad`] states.
fn pad_text(v: &Vec<char>, total: usize, pat: &String, at_start: bool) -> (r: Option<Vec<char>>)
    ensures
        match r {
            Some(t) => pad(v@, total, pat@, at_start) == Some(t@),
            None => pad(v@, total, pat@, at_start) is None,
        },
{
    let width: i64 = (total as i32) as i64 - text_len32(v.len()) as i64;
    if width < i32::MIN as i64 || width > i32::MAX as i64 {
        return None;
    }
    if width <= 0 {
        return Some(copy_text(v));
    }
    let p = chars_of(pat.as_str());
    if p.len() == 0 {
        return None;
    }
    let mut padding = cycle_take_text(&p, width as usize);
    if at_start {
        append_text(&mut padding, v);
        Some(padding)
    } else {
        let mut r = copy_text(v);
        append_text(&mut r, &padding);
        Some(r)
    }
}

/// The character indices of the boundaries at bytes `start` and `end` of a text, where both
/// are boundaries and `start` does not come after `end`.
pub open spec fn between(v: Seq<char>, start: usize, end: usize) -> Option<(int, int)> {
    match (char_at_byte(v, start as int), char_at_byte(v, end as int)) {
        (Some(i), Some(j)) => if i <= j {
            Some((i, j))
        } else {
            None
        },
        _ => None,
    }
}

/// The character indices of the boundaries at bytes `start` and `end`, as [`between`] states.
fn boundaries(v: &Vec<char>, start: usize, end: usize) -> (r: Option<(usize, usize)>)
    ensures
        match r {
            Some((i, j)) => between(v@, start, end) == Some((i as int, j as int)) && i <= j <= v.len(),
            None => between(v@, start, end) is None,
        },
{
    proof {
        lemma_char_at_byte_bounds(v@, start as int);
        lemma_char_at_byte_bounds(v@, end as int);
    }
    match (char_index_at_byte(v, start), char_index_at_byte(v, end)) {
        (Some(i), Some(j)) => if i <= j {
            Some((i, j))
        } else {
            None
        },
        _ => None,
    }
}

/// What modifier `m` does to the value `v` by itself, as [`each_value`] states; `None` where
/// the step is undefined or overflows.
pub fn modify_value(v: &Vec<char>, m: &Modifier) -> (r: Option<Vec<char>>)
    ensures
        match r {
            Some(t) => each_value(v@, m@) == Some(t@),
            None => each_value(v@, m@) is None,
        },
{
    reveal(each_value);
    match m {
        Modifier::Singular => {
            if text_ends_with_s(v) {
                Some(sub_text(v, 0, v.len() - 1))
            } else {
                Some(copy_text(v))
            }
        },
        Modifier::Plural => {
            let mut r = copy_text(v);
            if !text_ends_with_s(v) {
                r.push('s');
            }
            Some(r)
        },
        Modifier::Lowercase => Some(lowercase_text(v)),
        Modifier::Uppercase => Some(uppercase_text(v)),
        Modifier::PascalCase => Some(pascal_case_text(v)),
        Modifier::LowerCamelCase => Some(lower_camel_case_text(v)),
        Modifier::SnakeCase => Some(snake_case_text(v)),
        Modifier::KebabCase => Some(kebab_case_text(v)),
        Modifier::ShoutySnakeCase => Some(shouty_snake_case_text(v)),
        Modifier::TitleCase => Some(title_case_text(v)),
        Modifier::ShoutyKebabCase => Some(shouty_kebab_case_text(v)),
        Modifier::TrainCase => Some(train_case_text(v)),
        Modifier::Replace(from, to) => {
            let f = chars_of(from.as_str());
            let t = chars_of(to.as_str());
            Some(replace_text(v, &f, &t))
        },
        Modifier::Substr(a, b) => {
            let n = match text_byte_len(v) {
                Some(n) => n,
                None => return None,
            };
            let start: usize = match a {
                Some(x) => *x,
                None => 0,
            };
            let end: usize = match b {
                Some(x) => *x,
                None => n,
            };
            match boundaries(v, start, end) {
                Some((i, j)) => Some(sub_text(v, i, j)),
                None => None,
            }
        },
        Modifier::Reverse => Some(reverse_text(v)),
        Modifier::Repeat(n) => {
            match v.len().checked_mul(*n) {
                Some(_) => Some(repeat_text(v, *n)),
                None => None,
            }
        },
        Modifier::PadStart(total, pat) => pad_text(v, *total, pat, true),
        Modifier::PadEnd(total, pat) => pad_text(v, *total, pat, false),
        Modifier::Slice(a, b) => {
            let n = match text_byte_len(v) {
                Some(n) => n,
                None => return None,
            };
            let len = text_len32(n);
            let a0: i32 = match a {
                Some(x) => *x,
                None => 0,
            };
            let b0: i32 = match b {
                Some(x) => *x,
                None => len,
            };
            match (parse_pos(len, a0), parse_pos(len, b0)) {
                (Some(start), Some(end)) => if start >= end {
                    Some(Vec::new())
                } else {
                    match boundaries(v, start, end) {
                        Some((i, j)) => Some(sub_text(v, i, j)),
                        None => Some(Vec::new()),
                    }
                },
                _ => None,
            }
        },
        Modifier::Splice(out, a, b, r) => {
            let n = match text_byte_len(v) {
                Some(n) => n,
                None => return None,
            };
            let len = text_len32(n);
            let a0: i32 = match a {
                Some(x) => *x,
                None => 0,
            };
            let b0: i32 = match b {
                Some(x) => *x,
                None => len,
            };
            let rep: Vec<char> = match r {
                Some(t) => chars_of(t.as_str()),
                None => Vec::new(),
            };
            match (parse_pos(len, a0), parse_pos(len, b0)) {
                (Some(start), Some(end)) => if start > end {
                    Some(Vec::new())
                } else {
                    match boundaries(v, start, end) {
                        Some((i, j)) => if *out == Output::Removed {
                            Some(sub_text(v, i, j))
                        } else {
                            let mut t = sub_text(v, 0, i);
                            append_text(&mut t, &rep);
                            let tail = sub_text(v, j, v.len());
                            append_text(&mut t, &tail);
                            Some(t)
                        },
                        None => None,
                    }
                },
                _ => None,
            }
        },
        _ => None,
    }
}

/// Applies a modifier to every value by itself, as [`map_each`] states; `false` where the
/// step is undefined or overflows on some value, and the values are then left as they were.
pub fn each(values: &mut Vec<Vec<char>>, m: &Modifier) -> (ok: bool)
    ensures
        ok == (map_each(texts(old(values)@), m@) is Some),
        ok ==> map_each(texts(old(values)@), m@) == Some(texts(final(values)@)),
        !ok ==> final(values)@ == old(values)@,
{
    let mut out: Vec<Vec<char>> = Vec::new();
    let mut i: usize = 0;
    let ghost vs = texts(values@);
    while i < values.len()
        invariant
            i <= values.len(),
            vs == texts(values@),
            map_each(vs.take(i as int), m@) == Some(texts(out@)),
        decreases values.len() - i,
    {
        let r = modify_value(&values[i], m);
        assert(vs.take(i + 1).drop_last() =~= vs.take(i as int));
        match r {
            Some(t) => {
                out.push(t);
                i = i + 1;
                assert(texts(out@) =~= texts(out@).drop_last().push(texts(out@).last()));
            },
            None => {
                proof {
                    lemma_map_each_prefix_none(vs, m@, i + 1);
                }
                return false;
            },
        }
    }
    assert(vs.take(i as int) =~= vs);
    *values = out;
    true
}

/// Where `map_each` fails on a prefix it fails on the whole.
pub proof fn lemma_map_each_prefix_none(vs: Seq<Seq<char>>, m: ModifierV, k: int)
    requires
        0 <= k <= vs.len(),
        map_each(vs.take(k), m) is None,
    ensures
        map_each(vs, m) is None,
    decreases vs.len() - k,
{
    if k < vs.len() {
        assert(vs.take(k + 1).drop_last() =~= vs.take(k));
        lemma_map_each_prefix_none(vs, m, k + 1);
    } else {
        assert(vs.take(k) =~= vs);
    }
}

/// The values of a list from `start` up to `end`.
fn copy_list(values: &Vec<Vec<char>>, start: usize, end: usize) -> (r: Vec<Vec<char>>)
    requires
        start <= end <= values.len(),
    ensures
        texts(r@) == texts(values@).subrange(start as int, end as int),
{
    let mut r: Vec<Vec<char>> = Vec::new();
    let mut k: usize = start;
    while k < end
        invariant
            start <= k <= end <= values.len(),
            texts(r@) == texts(values@).subrange(start as int, k as int),
        decreases end - k,
    {
        let ghost before = r@;
        let t = copy_text(&values[k]);
        r.push(t);
        assert(r@ == before.push(t));
        assert(texts(r@) =~= texts(before).push(values@[k as int]@));
        k = k + 1;
        assert(texts(r@) =~= texts(values@).subrange(start as int, k as int));
    }
    r
}

/// Appends copies of the values of a list to `out`.
fn append_list(out: &mut Vec<Vec<char>>, values: &Vec<Vec<char>>)
    ensures
        texts(final(out)@) == texts(old(out)@) + texts(values@),
{
    let mut k: usize = 0;
    while k < values.len()
        invariant
            k <= values.len(),
            texts(out@) == texts(old(out)@) + texts(values@).take(k as int),
        decreases values.len() - k,
    {
        let ghost before = out@;
        let t = copy_text(&values[k]);
        out.push(t);
        assert(texts(out@) =~= texts(before).push(values@[k as int]@));
        k = k + 1;
        assert(texts(out@) =~= texts(old(out)@) + texts(values@).take(k as int));
    }
    assert(texts(values@).take(k as int) =~= texts(values@));
}

/// Each value split at a pattern, the pieces in order, as [`split_each`] states.
fn split_all(values: &Vec<Vec<char>>, pat: &Vec<char>) -> (r: Vec<Vec<char>>)
    ensures
        texts(r@) == split_each(texts(values@), pat@),
{
    let mut r: Vec<Vec<char>> = Vec::new();
    let mut k: usize = 0;
    while k < values.len()
        invariant
            k <= values.len(),
            texts(r@) == split_each(texts(values@).take(k as int), pat@),
        decreases values.len() - k,
    {
        let pieces = split_text(&values[k], pat);
        append_list(&mut r, &pieces);
        k = k + 1;
        assert(texts(values@).take(k as int).drop_last() =~= texts(values@).take(k - 1));
    }
    assert(texts(values@).take(k as int) =~= texts(values@));
    r
}

/// Each value split at byte `mid`, as [`split_at_each`] states.
fn split_all_at(values: &Vec<Vec<char>>, mid: usize, clamp: bool) -> (r: Option<Vec<Vec<char>>>)
    ensures
        match r {
            Some(w) => split_at_each(texts(values@), mid, clamp) == Some(texts(w@)),
            None => split_at_each(texts(values@), mid, clamp) is None,
        },
{
    let mut r: Vec<Vec<char>> = Vec::new();
    let mut k: usize = 0;
    while k < values.len()
        invariant
            k <= values.len(),
            split_at_each(texts(values@).take(k as int), mid, clamp) == Some(texts(r@)),
        decreases values.len() - k,
    {
        let v = &values[k];
        let ghost before = texts(r@);
        assert(texts(values@).take(k + 1).drop_last() =~= texts(values@).take(k as int));
        assert(texts(values@).take(k + 1).last() == v@);
        let n = text_byte_len(v);
        let whole = !clamp && match n {
            Some(n) => mid > n,
            None => false,
        };
        if whole {
            r.push(copy_text(v));
            assert(texts(r@) =~= before + seq![v@]);
        } else {
            let m: usize = match n {
                Some(n) => if mid > n { n } else { mid },
                None => mid,
            };
            proof {
                lemma_char_at_byte_bounds(v@, m as int);
            }
            match char_index_at_byte(v, m) {
                Some(c) => {
                    r.push(sub_text(v, 0, c));
                    r.push(sub_text(v, c, v.len()));
                    assert(texts(r@) =~= before + seq![v@.take(c as int), v@.skip(c as int)]);
                },
                None => {
                    proof {
                        lemma_split_at_each_prefix_none(texts(values@), mid, clamp, k + 1);
                    }
                    return None;
                },
            }
        }
        k = k + 1;
    }
    assert(texts(values@).take(k as int) =~= texts(values@));
    Some(r)
}

/// Where splitting fails on a prefix of the values it fails on them all.
proof fn lemma_split_at_each_prefix_none(vs: Seq<Seq<char>>, mid: usize, clamp: bool, k: int)
    requires
        0 <= k <= vs.len(),
        split_at_each(vs.take(k), mid, clamp) is None,
    ensures
        split_at_each(vs, mid, clamp) is None,
    decreases vs.len() - k,
{
    if k < vs.len() {
        assert(vs.take(k + 1).drop_last() =~= vs.take(k));
        lemma_split_at_each_prefix_none(vs, mid, clamp, k + 1);
    } else {
        assert(vs.take(k) =~= vs);
    }
}

/// The values that are not empty, as [`non_empty`] states.
fn drop_empty(values: Vec<Vec<char>>) -> (r: Vec<Vec<char>>)
    ensures
        texts(r@) == non_empty(texts(values@)),
{
    let mut r: Vec<Vec<char>> = Vec::new();
    let mut k: usize = 0;
    while k < values.len()
        invariant
            k <= values.len(),
            texts(r@) == non_empty(texts(values@).take(k as int)),
        decreases values.len() - k,
    {
        if values[k].len() > 0 {
            r.push(copy_text(&values[k]));
        }
        k = k + 1;
        assert(texts(values@).take(k as int).drop_last() =~= texts(values@).take(k - 1));
        assert(texts(r@) =~= non_empty(texts(values@).take(k as int)));
    }
    assert(texts(values@).take(k as int) =~= texts(values@));
    r
}

/// The values of a list in reverse order.
fn reverse_list(values: &Vec<Vec<char>>) -> (r: Vec<Vec<char>>)
    ensures
        texts(r@) == texts(values@).reverse(),
{
    let mut r: Vec<Vec<char>> = Vec::new();
    let mut k: usize = values.len();
    while k > 0
        invariant
            k <= values.len(),
            r@.len() == values.len() - k,
            forall|j: int| 0 <= j < r@.len() ==> r@[j]@ == values@[values.len() - 1 - j]@,
        decreases k,
    {
        k = k - 1;
        r.push(copy_text(&values[k]));
    }
    assert(texts(r@) =~= texts(values@).reverse());
    r
}

/// A list written `n` times in a row, as [`repeat`] states.
fn repeat_list(values: &Vec<Vec<char>>, n: usize) -> (r: Vec<Vec<char>>)
    requires
        values.len() * n <= usize::MAX,
    ensures
        texts(r@) == repeat(texts(values@), n as nat),
{
    let mut r: Vec<Vec<char>> = Vec::new();
    let mut k: usize = 0;
    while k < n
        invariant
            k <= n,
            texts(r@) == repeat(texts(values@), k as nat),
        decreases n - k,
    {
        append_list(&mut r, values);
        k = k + 1;
    }
    r
}

/// One step of a modifier chain, as [`apply_modifier`] states; `None` where the step
/// is undefined or overflows.
fn modify_step(values: Vec<Vec<char>>, m: &Modifier) -> (r: Option<Vec<Vec<char>>>)
    ensures
        match r {
            Some(w) => apply_modifier(texts(values@), m@) == Some(texts(w@)),
            None => apply_modifier(texts(values@), m@) is None,
        },
{
    reveal(apply_modifier);
    let list_mode = values.len() > 1;
    match m {
        Modifier::Reverse => {
            if list_mode {
                return Some(reverse_list(&values));
            }
        },
        Modifier::Repeat(n) => {
            if list_mode {
                return match values.len().checked_mul(*n) {
                    Some(_) => Some(repeat_list(&values, *n)),
                    None => None,
                };
            }
        },
        Modifier::Split(pat) => {
            let p = chars_of(pat.as_str());
            let pieces = split_all(&values, &p);
            if list_mode {
                return Some(drop_empty(pieces));
            }
            return Some(pieces);
        },
        Modifier::SplitAt(mid) => {
            if list_mode {
                return match split_all_at(&values, *mid, true) {
                    Some(pieces) => Some(drop_empty(pieces)),
                    None => None,
                };
            }
            return split_all_at(&values, *mid, false);
        },
        Modifier::Join(sep) => {
            let s = chars_of(sep.as_str());
            let joined = join_texts(&values, &s);
            let mut r: Vec<Vec<char>> = Vec::new();
            r.push(joined);
            assert(texts(r@) =~= seq![join(texts(values@), sep@)]);
            return Some(r);
        },
        Modifier::Slice(a, b) => {
            if list_mode {
                let len = text_len32(values.len());
                let a0: i32 = match a {
                    Some(x) => *x,
                    None => 0,
                };
                let b0: i32 = match b {
                    Some(x) => *x,
                    None => len,
                };
                return match (parse_pos(len, a0), parse_pos(len, b0)) {
                    (Some(start), Some(end)) => {
                        if start >= end {
                            let r: Vec<Vec<char>> = Vec::new();
                            assert(texts(r@) =~= Seq::<Seq<char>>::empty());
                            Some(r)
                        } else if end <= values.len() {
                            Some(copy_list(&values, start, end))
                        } else {
                            let r: Vec<Vec<char>> = Vec::new();
                            assert(texts(r@) =~= Seq::<Seq<char>>::empty());
                            Some(r)
                        }
                    },
                    _ => None,
                };
            }
        },
        Modifier::Splice(out, a, b, rep) => {
            if list_mode {
                let len = text_len32(values.len());
                let a0: i32 = match a {
                    Some(x) => *x,
                    None => 0,
                };
                let b0: i32 = match b {
                    Some(x) => *x,
                    None => len,
                };
                let mut inserted: Vec<Vec<char>> = Vec::new();
                match rep {
                    Some(t) => inserted.push(chars_of(t.as_str())),
                    None => {},
                }
                let ghost rep_v: Seq<Seq<char>> = match rep {
                    Some(t) => seq![t@],
                    None => seq![],
                };
                assert(texts(inserted@) =~= rep_v);
                return match (parse_pos(len, a0), parse_pos(len, b0)) {
                    (Some(start), Some(end)) => {
                        if start > end {
                            let r: Vec<Vec<char>> = Vec::new();
                            assert(texts(r@) =~= Seq::<Seq<char>>::empty());
                            Some(r)
                        } else if end > values.len() {
                            None
                        } else if *out == Output::Removed {
                            Some(copy_list(&values, start, end))
                        } else {
                            let mut r = copy_list(&values, 0, start);
                            append_list(&mut r, &inserted);
                            let tail = copy_list(&values, end, values.len());
                            append_list(&mut r, &tail);
                            assert(texts(values@).take(start as int) =~= texts(values@).subrange(0, start as int));
                            assert(texts(values@).skip(end as int) =~= texts(values@).subrange(end as int, values.len() as int));
                            Some(r)
                        }
                    },
                    _ => None,
                };
            }
        },
        _ => {},
    }
    let mut vs = values;
    if each(&mut vs, m) {
        Some(vs)
    } else {
        None
    }
}

/// Runs a modifier chain on a list of values and joins the final values, as [`modified`]
/// states; `None` where some step is undefined or overflows.
pub fn modify_list(values: Vec<Vec<char>>, modifiers: &Vec<Modifier>) -> (r: Option<Vec<char>>)
    ensures
        match r {
            Some(t) => modified(texts(values@), modifiers_view(modifiers@)) == Some(t@),
            None => modified(texts(values@), modifiers_view(modifiers@)) is None,
        },
{
    let ghost vs0 = texts(values@);
    let ghost ms = modifiers_view(modifiers@);
    let mut current = values;
    let mut i: usize = 0;
    while i < modifiers.len()
        invariant
            i <= modifiers.len(),
            ms == modifiers_view(modifiers@),
            vs0 == texts(values@),
            apply_all(vs0, ms.take(i as int)) == Some(texts(current@)),
        decreases modifiers.len() - i,
    {
        assert(ms.take(i + 1).drop_last() =~= ms.take(i as int));
        assert(ms.take(i + 1).last() == modifiers@[i as int]@);
        let ghost cur = texts(current@);
        match modify_step(current, &modifiers[i]) {
            Some(w) => {
                current = w;
            },
            None => {
                proof {
                    assert(apply_modifier(cur, ms[i as int]) is None);
                    assert(apply_all(vs0, ms.take(i + 1)) is None);
                    lemma_apply_all_prefix_none(vs0, ms, i + 1);
                }
                return None;
            },
        }
        i = i + 1;
    }
    assert(ms.take(i as int) =~= ms);
    let empty: Vec<char> = Vec::new();
    Some(join_texts(&current, &empty))
}

/// Where a modifier chain fails on a prefix of the chain it fails on the whole chain.
pub proof fn lemma_apply_all_prefix_none(vs: Seq<Seq<char>>, ms: Seq<ModifierV>, k: int)
    requires
        0 <= k <= ms.len(),
        apply_all(vs, ms.take(k)) is None,
    ensures
        apply_all(vs, ms) is None,
    decreases ms.len() - k,
{
    if k < ms.len() {
        assert(ms.take(k + 1).drop_last() =~= ms.take(k));
        lemma_apply_all_prefix_none(vs, ms, k + 1);
    } else {
        assert(ms.take(k) =~= ms);
    }
}

/// Runs a modifier chain on a single value.
pub fn modify_single(value: Vec<char>, modifiers: &Vec<Modifier>) -> (r: Option<Vec<char>>)
    ensures
        match r {
            Some(t) => modified(seq![value@], modifiers_view(modifiers@)) == Some(t@),
            None => modified(seq![value@], modifiers_view(modifiers@)) is None,
        },
{
    let ghost v = value@;
    let mut values: Vec<Vec<char>> = Vec::new();
    values.push(value);
    assert(texts(values@) =~= seq![v]);
    modify_list(values, modifiers)
}

/// The texts of a list run together.
fn run_together(list: &Vec<Vec<char>>) -> (r: Vec<char>)
    ensures
        r@ == join(texts(list@), seq![]),
{
    let empty: Vec<char> = Vec::new();
    join_texts(list, &empty)
}

/// The text of one parsed piece, as [`built`] states; `None` where some step is undefined or
/// overflows.
pub fn build_from_token(part: &TokenPart) -> (r: Option<Vec<char>>)
    ensures
        match r {
            Some(t) => built(part@) == Some(t@),
            None => built(part@) is None,
        },
    decreases part,
{
    match part {
        TokenPart::Plain(v) => {
            assert(part@ == PartV::Plain(v@));
            Some(chars_of(v.as_str()))
        },
        TokenPart::ConcatGroup(ps) => match build_each(ps) {
            Some(list) => Some(run_together(&list)),
            None => None,
        },
        TokenPart::ListGroup(ps) => match build_each(ps) {
            Some(list) => Some(run_together(&list)),
            None => None,
        },
        TokenPart::Modified(target, modifiers) => {
            match &**target {
                TokenPart::Plain(v) => {
                    assert(target@ == PartV::Plain(v@));
                    assert(part@ == PartV::Modified(Box::new(PartV::Plain(v@)), modifiers_view(modifiers@)));
                    modify_single(chars_of(v.as_str()), modifiers)
                },
                TokenPart::ListGroup(items) => match build_each(items) {
                    Some(list) => modify_list(list, modifiers),
                    None => None,
                },
                TokenPart::ConcatGroup(ps) => match build_each(ps) {
                    Some(list) => modify_single(run_together(&list), modifiers),
                    None => None,
                },
                TokenPart::Modified(inner, nested) => match build_from_token(inner) {
                    Some(v) => match modify_single(v, nested) {
                        Some(w) => modify_single(w, modifiers),
                        None => None,
                    },
                    None => None,
                },
            }
        },
    }
}

/// The texts of a sequence of pieces, each by itself, as [`built_each`] states.
fn build_each(ps: &Vec<TokenPart>) -> (r: Option<Vec<Vec<char>>>)
    ensures
        match r {
            Some(l) => built_each(parts_view(ps@)) == Some(texts(l@)),
            None => built_each(parts_view(ps@)) is None,
        },
    decreases ps,
{
    let ghost pv = parts_view(ps@);
    proof {
        lemma_parts_view(ps@);
    }
    let mut out: Vec<Vec<char>> = Vec::new();
    let mut i: usize = 0;
    while i < ps.len()
        invariant
            i <= ps.len(),
            pv == parts_view(ps@),
            pv.len() == ps.len(),
            forall|j: int| 0 <= j < ps.len() ==> #[trigger] pv[j] == ps@[j]@,
            built_each(pv.take(i as int)) == Some(texts(out@)),
        decreases ps.len() - i,
    {
        assert(pv.take(i + 1).drop_last() =~= pv.take(i as int));
        assert(pv.take(i + 1).last() == ps@[i as int]@);
        match build_from_token(&ps[i]) {
            Some(t) => {
                let ghost before = out@;
                out.push(t);
                assert(texts(out@) =~= texts(before).push(t@));
            },
            None => {
                proof {
                    lemma_built_each_prefix_none(pv, i + 1);
                }
                return None;
            },
        }
        i = i + 1;
    }
    assert(pv.take(i as int) =~= pv);
    Some(out)
}

/// Where building fails on a prefix of a sequence of pieces it fails on the whole.
pub proof fn lemma_built_each_prefix_none(ps: Seq<PartV>, k: int)
    requires
        0 <= k <= ps.len(),
        built_each(ps.take(k)) is None,
    ensures
        built_each(ps) is None,
    decreases ps.len() - k,
{
    if k < ps.len() {
        assert(ps.take(k + 1).drop_last() =~= ps.take(k));
        lemma_built_each_prefix_none(ps, k + 1);
    } else {
        assert(ps.take(k) =~= ps);
    }
}

/// The texts of a sequence of pieces run together, as [`built_concat`] states.
fn build_concat(ps: &Vec<TokenPart>) -> (r: Option<Vec<char>>)
    ensures
        match r {
            Some(t) => built_concat(parts_view(ps@)) == Some(t@),
            None => built_concat(parts_view(ps@)) is None,
        },
{
    match build_each(ps) {
        Some(list) => {
            let empty: Vec<char> = Vec::new();
            Some(join_texts(&list, &empty))
        },
        None => None,
    }
}

/// The final text of parsed pieces, as [`built_string`] states: the pieces run together, then
/// every `r#` removed; `None` exactly where some step is undefined or overflows.
pub fn try_build_string(parts: &Vec<TokenPart>) -> (r: Option<String>)
    ensures
        match r {
            Some(t) => built_string(parts_view(parts@)) == Some(t@),
            None => built_string(parts_view(parts@)) is None,
        },
{
    match build_concat(parts) {
        Some(t) => {
            let mut raw: Vec<char> = Vec::new();
            raw.push('r');
            raw.push('#');
            assert(raw@ =~= raw_prefix());
            let empty: Vec<char> = Vec::new();
            let cleaned = replace_text(&t, &raw, &empty);
            Some(string_of(&cleaned))
        },
        None => None,
    }
}

/// The final text of parsed pieces: the pieces run together, then every `r#` removed.
pub fn build_string(parts: Vec<TokenPart>) -> (r: String)
    requires
        built_string(parts_view(parts@)) is Some,
    ensures
        built_string(parts_view(parts@)) == Some(r@),
{
    match try_build_string(&parts) {
        Some(t) => t,
        None => String::new(),
    }
}

} // verus!




