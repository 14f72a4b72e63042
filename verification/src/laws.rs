//! What holds of the modifier chains as a whole.
use vstd::prelude::*;

use crate::builder::{
    apply_all, apply_modifier, each_value, map_each, non_empty, position, split_at_each, split_each,
};
use crate::literals::{
    LexemeV, after_first, close_of, first_segment, ident_lexemes, interpolated, interpolates, lexed,
    lexes_words, plain_word, segment_of, segment_welds, segments_fit, spelled_by, text_welded,
    tok_from, toks_from, word_char,
};
use crate::parser::{DslError, DslV, root_loop, word_of};
use crate::tokens::{flat_tok, flattened, is_reserved};
use crate::models::{ModifierV, Output, PartV};
use crate::builder::{built, built_concat, built_each, built_string, modified, raw_prefix};
use crate::parser::parsed;
use crate::scanner::{
    Answer, ScannedV, WeldError, ascii_word, answer_ok, ident_answer, rendered_from, scanned, scans,
    weld_item, welds,
};
use crate::text::{
    byte_len, char_at_byte, cycle_take, ends_with_s, join, lemma_char_at_byte_bounds,
    lemma_char_at_byte_end, lemma_join_split, repeat, replace_all, split_pieces,
};
use crate::tokens::{LitV, TokV};
use crate::casing::{is_latin1_text, is_latin1_upper_text, latin1_lower, latin1_upper};

verus! {

/// Each modifier receives what the one before it gave: running the chain `a` followed by the
/// chain `b` is running `a`, then `b` on its result.
pub proof fn law_chain_composition(vs: Seq<Seq<char>>, a: Seq<ModifierV>, b: Seq<ModifierV>)
    ensures
        apply_all(vs, a + b) == match apply_all(vs, a) {
            Some(w) => apply_all(w, b),
            None => None,
        },
    decreases b.len(),
{
    if b.len() == 0 {
        assert(a + b =~= a);
    } else {
        law_chain_composition(vs, a, b.drop_last());
        assert((a + b).drop_last() =~= a + b.drop_last());
        assert((a + b).last() == b.last());
    }
}

/// A chain of two modifiers is the one step after the other.
pub proof fn lemma_apply_two(vs: Seq<Seq<char>>, m1: ModifierV, m2: ModifierV)
    ensures
        apply_all(vs, seq![m1, m2]) == match apply_modifier(vs, m1) {
            Some(w) => apply_modifier(w, m2),
            None => None,
        },
{
    let ms = seq![m1, m2];
    assert(ms.drop_last() =~= seq![m1]);
    assert(seq![m1].drop_last() =~= Seq::<ModifierV>::empty());
    assert(apply_all(vs, Seq::<ModifierV>::empty()) == Some(vs));
    assert(apply_all(vs, seq![m1]) == apply_modifier(vs, m1));
}

/// `map_each` succeeds exactly where the modifier succeeds on every value, and then gives the
/// value of each by itself.
pub proof fn lemma_map_each(vs: Seq<Seq<char>>, m: ModifierV)
    ensures
        map_each(vs, m) is Some <==> forall|i: int| 0 <= i < vs.len() ==> #[trigger] each_value(vs[i], m) is Some,
        map_each(vs, m) is Some ==> map_each(vs, m).unwrap().len() == vs.len() && forall|i: int|
            0 <= i < vs.len() ==> #[trigger] map_each(vs, m).unwrap()[i] == each_value(vs[i], m).unwrap(),
    decreases vs.len(),
{
    if vs.len() > 0 {
        let front = vs.drop_last();
        lemma_map_each(front, m);
        if map_each(vs, m) is Some {
            assert forall|i: int| 0 <= i < vs.len() implies #[trigger] each_value(vs[i], m) is Some by {
                if i < vs.len() - 1 {
                    assert(front[i] == vs[i]);
                }
            }
        }
        if forall|i: int| 0 <= i < vs.len() ==> #[trigger] each_value(vs[i], m) is Some {
            assert forall|i: int| 0 <= i < front.len() implies #[trigger] each_value(front[i], m) is Some by {
                assert(front[i] == vs[i]);
                assert(each_value(vs[i], m) is Some);
            }
            assert(each_value(vs[vs.len() - 1], m) is Some);
        }
    }
}

/// The modifiers that work on single values (casings, singular and plural, replace, substr,
/// the paddings) act on each item of a list independently.
pub proof fn law_item_wise(vs: Seq<Seq<char>>, m: ModifierV)
    requires
        match m {
            ModifierV::Reverse | ModifierV::Repeat(_) | ModifierV::Split(_) | ModifierV::SplitAt(_)
            | ModifierV::Join(_) | ModifierV::Slice(_, _) | ModifierV::Splice(_, _, _, _) => false,
            _ => true,
        },
    ensures
        apply_modifier(vs, m) is Some <==> forall|i: int| 0 <= i < vs.len() ==> #[trigger] each_value(vs[i], m) is Some,
        apply_modifier(vs, m) is Some ==> apply_modifier(vs, m).unwrap().len() == vs.len() && forall|i: int|
            0 <= i < vs.len() ==> #[trigger] apply_modifier(vs, m).unwrap()[i] == each_value(vs[i], m).unwrap(),
{
    reveal(apply_modifier);
    lemma_map_each(vs, m);
}

/// Reversing twice gives back what there was, on a single value (its characters) as on a list
/// (its order).
pub proof fn law_reverse_twice(vs: Seq<Seq<char>>)
    ensures
        apply_all(vs, seq![ModifierV::Reverse, ModifierV::Reverse]) == Some(vs),
{
    reveal(apply_modifier);
    reveal(each_value);
    lemma_apply_two(vs, ModifierV::Reverse, ModifierV::Reverse);
    if vs.len() > 1 {
        assert(vs.reverse().reverse() =~= vs);
    } else if vs.len() == 1 {
        let v = vs[0];
        assert(vs.drop_last() =~= Seq::<Seq<char>>::empty());
        assert(vs.last() == v);
        assert(map_each(vs.drop_last(), ModifierV::Reverse) == Some(Seq::<Seq<char>>::empty()));
        assert(Seq::<Seq<char>>::empty().push(v.reverse()) =~= seq![v.reverse()]);
        assert(map_each(vs, ModifierV::Reverse) == Some(seq![v.reverse()]));
        let w = seq![v.reverse()];
        assert(w.drop_last() =~= Seq::<Seq<char>>::empty());
        assert(w.last() == v.reverse());
        assert(map_each(w.drop_last(), ModifierV::Reverse) == Some(Seq::<Seq<char>>::empty()));
        assert(v.reverse().reverse() =~= v);
        assert(Seq::<Seq<char>>::empty().push(v) =~= seq![v]);
        assert(map_each(w, ModifierV::Reverse) == Some(seq![v]));
        assert(seq![v] =~= vs);
    } else {
        assert(map_each(vs, ModifierV::Reverse) == Some(vs));
    }
}

/// Splitting a single value at a pattern and joining it with the same pattern gives back the
/// value.
pub proof fn law_split_join(s: Seq<char>, pat: Seq<char>)
    ensures
        apply_all(seq![s], seq![ModifierV::Split(pat), ModifierV::Join(pat)]) == Some(seq![s]),
{
    reveal(apply_modifier);
    lemma_apply_two(seq![s], ModifierV::Split(pat), ModifierV::Join(pat));
    let vs = seq![s];
    assert(vs.drop_last() =~= Seq::<Seq<char>>::empty());
    assert(vs.last() == s);
    assert(split_each(vs.drop_last(), pat) == Seq::<Seq<char>>::empty());
    assert(split_each(vs, pat) =~= split_pieces(s, pat));
    lemma_join_split(s, pat);
}

/// Joining a single value passes it through unchanged.
pub proof fn law_join_single(v: Seq<char>, sep: Seq<char>)
    ensures
        apply_modifier(seq![v], ModifierV::Join(sep)) == Some(seq![v]),
{
    reveal(apply_modifier);
    assert(join(seq![v], sep) == v);
}

/// `singular` undoes `plural` on a value that does not end with `s`, and `plural` undoes
/// `singular` on one that ends with a single `s`.
pub proof fn law_singular_plural(v: Seq<char>)
    ensures
        !ends_with_s(v) ==> each_value(each_value(v, ModifierV::Plural).unwrap(), ModifierV::Singular) == Some(v),
        ends_with_s(v) && !ends_with_s(v.drop_last()) ==> each_value(each_value(v, ModifierV::Singular).unwrap(), ModifierV::Plural) == Some(v),
{
    reveal(each_value);
    if !ends_with_s(v) {
        assert(v.push('s').drop_last() =~= v);
    } else {
        assert(v.drop_last().push('s') =~= v);
    }
}

/// Padding at the start to a width that the value does not yet reach gives a value of exactly
/// that width: the pattern, written as often as needed and cut, followed by the value. A value
/// that already reaches the width is returned unchanged.
pub proof fn law_pad_start(v: Seq<char>, total: usize, pat: Seq<char>)
    requires
        total <= i32::MAX,
        v.len() <= i32::MAX,
        pat.len() > 0,
    ensures
        v.len() < total ==> each_value(v, ModifierV::PadStart(total, pat)) == Some(
            cycle_take(pat, (total - v.len()) as nat) + v,
        ),
        v.len() < total ==> each_value(v, ModifierV::PadStart(total, pat)).unwrap().len() == total,
        total <= v.len() ==> each_value(v, ModifierV::PadStart(total, pat)) == Some(v),
{
    reveal(each_value);
}

/// Padding at the end, as at the start but behind the value.
pub proof fn law_pad_end(v: Seq<char>, total: usize, pat: Seq<char>)
    requires
        total <= i32::MAX,
        v.len() <= i32::MAX,
        pat.len() > 0,
    ensures
        v.len() < total ==> each_value(v, ModifierV::PadEnd(total, pat)) == Some(
            v + cycle_take(pat, (total - v.len()) as nat),
        ),
        v.len() < total ==> each_value(v, ModifierV::PadEnd(total, pat)).unwrap().len() == total,
        total <= v.len() ==> each_value(v, ModifierV::PadEnd(total, pat)) == Some(v),
{
    reveal(each_value);
}

/// Positions within the length name themselves, and negative positions count from the end.
pub proof fn law_positions(len: i32, val: i32)
    requires
        len >= 0,
        -len <= val,
    ensures
        0 <= val <= len ==> position(len, val) == Some(val as usize),
        val < 0 ==> position(len, val) == Some((len + val) as usize),
{
}

/// A slice whose start does not come before its end is empty. Positions count bytes of the
/// UTF-8 encoding.
pub proof fn law_slice_empty(v: Seq<char>, a: i32, b: i32)
    requires
        byte_len(v) <= i32::MAX,
        -(byte_len(v) as int) <= a,
        -(byte_len(v) as int) <= b,
        position(byte_len(v) as i32, a).unwrap() >= position(byte_len(v) as i32, b).unwrap(),
    ensures
        each_value(v, ModifierV::Slice(Some(a), Some(b))) == Some(Seq::<char>::empty()),
{
    reveal(each_value);
}

/// What a splice gives where its byte positions `a` and `b` are the character boundaries before
/// the characters at `i` and `j`: with `Value` the value with the range replaced, with
/// `Removed` what stood in the range; so the two together give back the value.
pub proof fn law_splice(v: Seq<char>, a: i32, b: i32, i: int, j: int, rep: Option<Seq<char>>)
    requires
        byte_len(v) <= i32::MAX,
        0 <= a <= b <= byte_len(v),
        char_at_byte(v, a as int) == Some(i),
        char_at_byte(v, b as int) == Some(j),
        i <= j,
    ensures
        each_value(v, ModifierV::Splice(Output::Value, Some(a), Some(b), rep)) == Some(
            v.take(i) + rep.unwrap_or(seq![]) + v.skip(j),
        ),
        each_value(v, ModifierV::Splice(Output::Removed, Some(a), Some(b), rep)) == Some(
            v.subrange(i, j),
        ),
        v == v.take(i) + each_value(v, ModifierV::Splice(Output::Removed, Some(a), Some(b), rep)).unwrap()
            + v.skip(j),
{
    reveal(each_value);
    lemma_char_at_byte_bounds(v, a as int);
    lemma_char_at_byte_bounds(v, b as int);
    assert(v =~= v.take(i) + v.subrange(i, j) + v.skip(j));
}

/// On a list of more than one value a splice between item positions `a <= b` within the list
/// acts on the items: with `out` it gives exactly the items from `a` up to `b`, with `into` the
/// list with those items replaced by the replacement (if there is one); the items before `a`,
/// the removed items and the items from `b` on make up the list again.
pub proof fn law_list_splice(vs: Seq<Seq<char>>, a: i32, b: i32, rep: Option<Seq<char>>, t: Seq<char>)
    requires
        vs.len() > 1,
        vs.len() <= i32::MAX,
        0 <= a <= b <= vs.len(),
    ensures
        apply_modifier(vs, ModifierV::Splice(Output::Removed, Some(a), Some(b), rep)) == Some(
            vs.subrange(a as int, b as int),
        ),
        apply_modifier(vs, ModifierV::Splice(Output::Removed, Some(a), Some(b), rep)).unwrap().len()
            == b - a,
        apply_modifier(vs, ModifierV::Splice(Output::Value, Some(a), Some(b), None)) == Some(
            vs.take(a as int) + vs.skip(b as int),
        ),
        apply_modifier(vs, ModifierV::Splice(Output::Value, Some(a), Some(b), Some(t))) == Some(
            vs.take(a as int) + seq![t] + vs.skip(b as int),
        ),
        vs.take(a as int) + apply_modifier(
            vs,
            ModifierV::Splice(Output::Removed, Some(a), Some(b), rep),
        ).unwrap() + vs.skip(b as int) == vs,
{
    reveal(apply_modifier);
    assert(vs.take(a as int) + vs.subrange(a as int, b as int) + vs.skip(b as int) =~= vs);
    assert(vs.take(a as int) + Seq::<Seq<char>>::empty() + vs.skip(b as int) =~= vs.take(a as int)
        + vs.skip(b as int));
}

/// Whether `r#` stands nowhere in a text.
pub open spec fn no_raw_prefix(t: Seq<char>) -> bool {
    forall|i: int| 0 <= i < t.len() - 1 ==> !(#[trigger] t[i] == 'r' && t[i + 1] == '#')
}

/// Whether `rr#` stands nowhere in a text.
pub open spec fn no_double_r_hash(t: Seq<char>) -> bool {
    forall|i: int| 0 <= i < t.len() - 2 ==> !(#[trigger] t[i] == 'r' && t[i + 1] == 'r' && t[i + 2] == '#')
}

/// Taking every `r#` out of a text without `rr#` leaves no `r#`, and the result begins with the
/// text's first character unless the text begins with `r#`.
proof fn lemma_raw_prefix_gone(s: Seq<char>)
    requires
        no_double_r_hash(s),
    ensures
        no_raw_prefix(replace_all(s, seq!['r', '#'], seq![])),
        replace_all(s, seq!['r', '#'], seq![]).len() > 0 && !(s.len() >= 2 && s[0] == 'r' && s[1] == '#')
            ==> replace_all(s, seq!['r', '#'], seq![])[0] == s[0],
    decreases s.len(),
{
    let pat = seq!['r', '#'];
    let r = replace_all(s, pat, seq![]);
    if s.len() > 0 {
        if pat.is_prefix_of(s) {
            let tail = s.skip(2);
            assert forall|i: int| 0 <= i < tail.len() - 2 implies !(#[trigger] tail[i] == 'r' && tail[i + 1]
                == 'r' && tail[i + 2] == '#') by {
                assert(tail[i] == s[i + 2] && tail[i + 1] == s[i + 3] && tail[i + 2] == s[i + 4]);
            }
            lemma_raw_prefix_gone(tail);
            assert(r =~= replace_all(tail, pat, seq![]));
            assert(s[0] == pat[0] && s[1] == pat[1]);
        } else {
            let tail = s.skip(1);
            assert forall|i: int| 0 <= i < tail.len() - 2 implies !(#[trigger] tail[i] == 'r' && tail[i + 1]
                == 'r' && tail[i + 2] == '#') by {
                assert(tail[i] == s[i + 1] && tail[i + 1] == s[i + 2] && tail[i + 2] == s[i + 3]);
            }
            lemma_raw_prefix_gone(tail);
            let rest = replace_all(tail, pat, seq![]);
            assert(r == seq![s[0]] + rest);
            assert(!(s.len() >= 2 && s[0] == 'r' && s[1] == '#')) by {
                if s.len() >= 2 && s[0] == 'r' && s[1] == '#' {
                    assert(pat =~= s.take(2));
                }
            }
            assert forall|i: int| 0 <= i < r.len() - 1 implies !(#[trigger] r[i] == 'r' && r[i + 1] == '#') by {
                if i == 0 {
                    if s[0] == 'r' && rest.len() > 0 {
                        if tail.len() >= 2 && tail[0] == 'r' && tail[1] == '#' {
                            assert(s[0] == 'r' && s[1] == 'r' && s[2] == '#');
                        } else {
                            assert(rest[0] == tail[0]);
                            assert(tail[0] == s[1]);
                        }
                    }
                } else {
                    assert(r[i] == rest[i - 1] && r[i + 1] == rest[i]);
                }
            }
        }
    }
}

/// The built text loses the raw-identifier prefix `r#` wherever it stands in the pieces run
/// together, not only at the start: it is that text with every `r#` taken out; a text without
/// `r#` stays as it is; and where the text holds no `rr#` (so that no new `r#` can close up
/// where one was taken out) no `r#` is left at any position.
pub proof fn law_raw_prefix_removed(ps: Seq<PartV>)
    ensures
        built_string(ps) is Some <==> built_concat(ps) is Some,
        built_concat(ps) matches Some(c) ==> built_string(ps) == Some(
            replace_all(c, seq!['r', '#'], seq![]),
        ),
        built_concat(ps) matches Some(c) ==> (no_double_r_hash(c) ==> no_raw_prefix(
            built_string(ps).unwrap(),
        )),
        built_concat(ps) matches Some(c) ==> (no_raw_prefix(c) ==> built_string(ps) == Some(c)),
{
    if let Some(c) = built_concat(ps) {
        assert(raw_prefix() =~= seq!['r', '#']);
        if no_double_r_hash(c) {
            lemma_raw_prefix_gone(c);
        }
        if no_raw_prefix(c) {
            lemma_raw_prefix_kept(c);
        }
    }
}

/// Taking every `r#` out of a text that has none leaves it as it is.
proof fn lemma_raw_prefix_kept(s: Seq<char>)
    requires
        no_raw_prefix(s),
    ensures
        replace_all(s, seq!['r', '#'], seq![]) == s,
    decreases s.len(),
{
    let pat = seq!['r', '#'];
    if s.len() > 0 {
        let tail = s.skip(1);
        assert(!pat.is_prefix_of(s)) by {
            if pat.is_prefix_of(s) {
                assert(s[0] == pat[0] && s[1] == pat[1]);
            }
        }
        assert forall|i: int| 0 <= i < tail.len() - 1 implies !(#[trigger] tail[i] == 'r' && tail[i + 1] == '#') by {
            assert(tail[i] == s[i + 1] && tail[i + 1] == s[i + 2]);
        }
        lemma_raw_prefix_kept(tail);
        assert(seq![s[0]] + tail =~= s);
    }
}

/// `lower` and `upper` follow Unicode's case mapping for every character, not only for ASCII:
/// on a Latin-1 text `lower` maps each character by itself (`É` to `é`, `A` to `a`, `×` and `ß`
/// kept), and lowering again changes nothing; on a Latin-1 text without `ß` `upper` maps each
/// character by itself (`é` to `É`, `ÿ` to `Ÿ`, `µ` to `Μ`).
pub proof fn law_case_mapping(v: Seq<char>)
    ensures
        is_latin1_text(v) ==> each_value(v, ModifierV::Lowercase) == Some(
            v.map_values(|c: char| latin1_lower(c)),
        ),
        is_latin1_text(v) ==> each_value(v, ModifierV::Lowercase).unwrap().len() == v.len(),
        is_latin1_text(v) ==> forall|i: int|
            0 <= i < v.len() ==> (#[trigger] each_value(v, ModifierV::Lowercase).unwrap()[i]) as u32 == if 65
                <= v[i] as u32 <= 90 || (192 <= v[i] as u32 <= 222 && v[i] as u32 != 215) {
                v[i] as u32 + 32
            } else {
                v[i] as u32 as int
            },
        is_latin1_text(v) ==> each_value(each_value(v, ModifierV::Lowercase).unwrap(), ModifierV::Lowercase)
            == each_value(v, ModifierV::Lowercase),
        is_latin1_upper_text(v) ==> each_value(v, ModifierV::Uppercase) == Some(
            v.map_values(|c: char| latin1_upper(c)),
        ),
        is_latin1_upper_text(v) ==> forall|i: int|
            0 <= i < v.len() ==> (#[trigger] each_value(v, ModifierV::Uppercase).unwrap()[i]) as u32 == if 97
                <= v[i] as u32 <= 122 || (224 <= v[i] as u32 <= 254 && v[i] as u32 != 247) {
                v[i] as u32 - 32
            } else if v[i] as u32 == 255 {
                0x178int
            } else if v[i] as u32 == 181 {
                0x39Cint
            } else {
                v[i] as u32 as int
            },
{
    reveal(each_value);
    if is_latin1_text(v) {
        let r = v.map_values(|c: char| latin1_lower(c));
        assert forall|i: int| 0 <= i < r.len() implies (#[trigger] r[i] as u32) < 256 && latin1_lower(r[i])
            == r[i] by {
            assert(r[i] == latin1_lower(v[i]));
            assert((v[i] as u32) < 256);
        }
        assert(is_latin1_text(r));
        assert(r.map_values(|c: char| latin1_lower(c)) =~= r);
    }
}

/// The tokens of the words `ws`, each an identifier.
pub open spec fn ident_toks(ws: Seq<Seq<char>>) -> Seq<TokV> {
    ws.map_values(|w: Seq<char>| TokV::Ident(w))
}

/// The pieces of the words `ws`, each a plain word.
pub open spec fn plain_parts(ws: Seq<Seq<char>>) -> Seq<PartV> {
    ws.map_values(|w: Seq<char>| PartV::Plain(w))
}

/// Identifier lexemes stand for identifier tokens, which have no invisible group to open.
proof fn lemma_ident_toks(ws: Seq<Seq<char>>)
    ensures
        toks_from(ident_lexemes(ws)) == ident_toks(ws),
        flattened(ident_toks(ws)) == ident_toks(ws),
    decreases ws.len(),
{
    if ws.len() > 0 {
        let f = ws.drop_last();
        lemma_ident_toks(f);
        let ls = ident_lexemes(ws);
        let ts = ident_toks(ws);
        assert(ls.subrange(0, ls.len() - 1) =~= ident_lexemes(f));
        assert(ts.subrange(0, ts.len() - 1) =~= ident_toks(f));
        assert(ls[ls.len() - 1] == LexemeV::Ident(ws.last()));
        assert(ts[ts.len() - 1] == TokV::Ident(ws.last()));
        assert(tok_from(ls[ls.len() - 1]) == TokV::Ident(ws.last()));
        assert(toks_from(ls) == toks_from(ls.subrange(0, ls.len() - 1)).push(tok_from(ls[ls.len() - 1])));
        assert(ident_toks(f).push(TokV::Ident(ws.last())) =~= ts);
        assert(flat_tok(ts[ts.len() - 1]) == seq![TokV::Ident(ws.last())]);
        assert(flattened(ts) == flattened(ts.subrange(0, ts.len() - 1)) + flat_tok(ts[ts.len() - 1]));
        assert(ident_toks(f) + seq![TokV::Ident(ws.last())] =~= ts);
    } else {
        assert(ident_lexemes(ws) =~= Seq::<LexemeV>::empty());
        assert(ident_toks(ws) =~= Seq::<TokV>::empty());
    }
}

/// Words that are no keyword, read at the top level, each become a plain piece, in order.
proof fn lemma_root_words(ws: Seq<Seq<char>>, pos: int, parts: Seq<PartV>)
    requires
        0 <= pos <= ws.len(),
        forall|k: int| 0 <= k < ws.len() ==> !#[trigger] is_reserved(ws[k]),
    ensures
        root_loop(ident_toks(ws), pos, DslV { literal: false, parts }, 0, false) == Ok::<(DslV, bool), DslError>(
            (DslV { literal: false, parts: parts + plain_parts(ws.skip(pos)) }, false),
        ),
    decreases ws.len() - pos,
{
    let ts = ident_toks(ws);
    if pos < ws.len() {
        assert(ts[pos] == TokV::Ident(ws[pos]));
        assert(!is_reserved(ws[pos]));
        assert(word_of(ts[pos]) == Some((ws[pos], false)));
        lemma_root_words(ws, pos + 1, parts.push(PartV::Plain(ws[pos])));
        assert(parts.push(PartV::Plain(ws[pos])) + plain_parts(ws.skip(pos + 1)) =~= parts + plain_parts(
            ws.skip(pos),
        ));
    } else {
        assert(parts + plain_parts(ws.skip(pos)) =~= parts);
    }
}

/// Plain pieces build into their words.
proof fn lemma_plain_parts_built(ws: Seq<Seq<char>>)
    ensures
        built_each(plain_parts(ws)) == Some(ws),
    decreases ws.len(),
{
    if ws.len() > 0 {
        lemma_plain_parts_built(ws.drop_last());
        let ps = plain_parts(ws);
        assert(ps.drop_last() =~= plain_parts(ws.drop_last()));
        assert(ps.last() == PartV::Plain(ws.last()));
        assert(built(ps.last()) == Some(ws.last()));
        assert(built_each(ps) == Some(ws.drop_last().push(ws.last())));
        assert(ws.drop_last().push(ws.last()) =~= ws);
    } else {
        assert(plain_parts(ws) =~= Seq::<PartV>::empty());
        assert(ws =~= Seq::<Seq<char>>::empty());
    }
}

/// Words of letters, digits and `_` joined by spaces (or by nothing) hold only such characters
/// and spaces.
proof fn lemma_join_word_chars(ws: Seq<Seq<char>>, sep: Seq<char>)
    requires
        forall|k: int, i: int| 0 <= k < ws.len() && 0 <= i < ws[k].len() ==> word_char(#[trigger] ws[k][i]),
        forall|i: int| 0 <= i < sep.len() ==> #[trigger] sep[i] == ' ',
    ensures
        forall|i: int| 0 <= i < join(ws, sep).len() ==> word_char(#[trigger] join(ws, sep)[i]) || join(ws, sep)[i]
            == ' ',
    decreases ws.len(),
{
    if ws.len() > 1 {
        let f = ws.drop_last();
        lemma_join_word_chars(f, sep);
        let a = join(f, sep);
        let j = join(ws, sep);
        assert(j == a + sep + ws.last());
        assert forall|i: int| 0 <= i < j.len() implies word_char(#[trigger] j[i]) || j[i] == ' ' by {
            if i < a.len() {
                assert(j[i] == a[i]);
            } else if i < a.len() + sep.len() {
                assert(j[i] == sep[i - a.len()]);
            } else {
                assert(j[i] == ws[ws.len() - 1][i - a.len() - sep.len()]);
            }
        }
    } else if ws.len() == 1 {
        assert(join(ws, sep) == ws[0]);
        assert forall|i: int| 0 <= i < ws[0].len() implies word_char(#[trigger] ws[0][i]) by {}
    }
}

/// The `]` at the end of a text closes a bracket opened before `pos` where no bracket stands
/// between.
proof fn lemma_close_at_end(s: Seq<char>, pos: int)
    requires
        0 <= pos < s.len(),
        s[s.len() - 1] == ']',
        forall|i: int| pos <= i < s.len() - 1 ==> #[trigger] s[i] != '[' && s[i] != ']',
    ensures
        close_of(s, pos, 0) == Some(s.len() - 1),
    decreases s.len() - pos,
{
    if pos < s.len() - 1 {
        lemma_close_at_end(s, pos + 1);
    }
}

/// Inside a string each `@[...]` is welded from the lexing of exactly the text between `@[` and
/// its `]`, as the same words are welded outside one: plain words (none of them a keyword) with
/// single spaces between them run together. So a string that is one `@[w1 w2 ...]` becomes the
/// words run together (`"@[get_ Name]"` gives `get_Name`), and can give nothing else.
pub proof fn law_string_words(ws: Seq<Seq<char>>, r: Result<Seq<char>, WeldError>)
    requires
        ws.len() > 0,
        forall|k: int| 0 <= k < ws.len() ==> #[trigger] plain_word(ws[k]) && !is_reserved(ws[k]),
    ensures
        text_welded(Some(ident_lexemes(ws))) == Ok::<Seq<char>, WeldError>(join(ws, seq![])),
        interpolates(seq!['@', '['] + join(ws, seq![' ']) + seq![']'], r) ==> r == Ok::<
            Seq<char>,
            WeldError,
        >(join(ws, seq![])),
{
    lemma_words_welded(ws);
    lemma_words_segment(ws, r);
}

/// Plain words that are no keyword weld into the words run together.
proof fn lemma_words_welded(ws: Seq<Seq<char>>)
    requires
        ws.len() > 0,
        forall|k: int| 0 <= k < ws.len() ==> #[trigger] plain_word(ws[k]) && !is_reserved(ws[k]),
    ensures
        text_welded(Some(ident_lexemes(ws))) == Ok::<Seq<char>, WeldError>(join(ws, seq![])),
{
    lemma_ident_toks(ws);
    assert forall|k: int| 0 <= k < ws.len() implies !#[trigger] is_reserved(ws[k]) by {
        assert(plain_word(ws[k]));
    }
    lemma_root_words(ws, 0, seq![]);
    assert(Seq::<PartV>::empty() + plain_parts(ws.skip(0)) =~= plain_parts(ws));
    let ts = ident_toks(ws);
    assert(parsed(ts) == Ok::<DslV, DslError>(DslV { literal: false, parts: plain_parts(ws) }));
    lemma_plain_parts_built(ws);
    lemma_words_chars(ws);
    let none = Seq::<char>::empty();
    lemma_join_word_chars(ws, none);
    let c = join(ws, none);
    assert forall|i: int| 0 <= i < c.len() - 1 implies !(#[trigger] c[i] == 'r' && c[i + 1] == '#') by {
        assert(word_char(c[i + 1]) || c[i + 1] == ' ');
    }
    lemma_raw_prefix_kept(c);
    assert(raw_prefix() =~= seq!['r', '#']);
    assert(built_string(plain_parts(ws)) == Some(c));
    assert(lexed(Some(ident_lexemes(ws))) == Ok::<Seq<TokV>, WeldError>(ts));
}

/// The characters of plain words are letters, digits and `_`.
proof fn lemma_words_chars(ws: Seq<Seq<char>>)
    requires
        forall|k: int| 0 <= k < ws.len() ==> #[trigger] plain_word(ws[k]),
    ensures
        forall|k: int, i: int| 0 <= k < ws.len() && 0 <= i < ws[k].len() ==> word_char(#[trigger] ws[k][i]),
{
    assert forall|k: int, i: int| 0 <= k < ws.len() && 0 <= i < ws[k].len() implies word_char(
        #[trigger] ws[k][i],
    ) by {
        assert(plain_word(ws[k]));
    }
}

/// A string that is one `@[...]` of plain words gives what those words, lexed, weld into.
proof fn lemma_words_segment(ws: Seq<Seq<char>>, r: Result<Seq<char>, WeldError>)
    requires
        ws.len() > 0,
        forall|k: int| 0 <= k < ws.len() ==> #[trigger] plain_word(ws[k]),
    ensures
        interpolates(seq!['@', '['] + join(ws, seq![' ']) + seq![']'], r) ==> r == text_welded(
            Some(ident_lexemes(ws)),
        ),
{
    let space = seq![' '];
    let inner = join(ws, space);
    let s = seq!['@', '['] + inner + seq![']'];
    if interpolates(s, r) {
        lemma_words_chars(ws);
        lemma_join_word_chars(ws, space);
        let wsr = choose|wsr: Seq<Result<Seq<char>, WeldError>>|
            (forall|k: int| 0 <= k < wsr.len() ==> segment_welds(#[trigger] wsr[k])) && segments_fit(s, 0, wsr)
                && #[trigger] interpolated(s, 0, wsr) == r;
        assert forall|i: int| 2 <= i < s.len() - 1 implies #[trigger] s[i] != '[' && s[i] != ']' by {
            assert(s[i] == inner[i - 2]);
            assert(word_char(inner[i - 2]) || inner[i - 2] == ' ');
        }
        lemma_close_at_end(s, 2);
        assert(s.subrange(2, s.len() - 1) =~= inner);
        assert(segments_fit(s, 0, wsr));
        assert(wsr.len() > 0 && segment_of(inner, wsr[0]));
        let lx = choose|lx: Option<Seq<LexemeV>>| lexes_words(inner, lx) && wsr[0] == #[trigger] text_welded(lx);
        assert(spelled_by(inner, ws));
        assert(lx == Some(ident_lexemes(ws)));
        assert(first_segment(wsr) == wsr[0]);
        if let Ok(t) = wsr[0] {
            assert(interpolated(s, s.len() as int, after_first(wsr)) == Ok::<Seq<char>, WeldError>(seq![]));
            assert(t + Seq::<char>::empty() =~= t);
        }
    }
}

/// Repeating a single value `n` times gives the value written `n` times.
pub proof fn law_repeat_single(v: Seq<char>, n: usize)
    requires
        v.len() * n <= usize::MAX,
    ensures
        apply_modifier(seq![v], ModifierV::Repeat(n)) == Some(seq![repeat(v, n as nat)]),
{
    reveal(apply_modifier);
    reveal(each_value);
    let vs = seq![v];
    assert(vs.drop_last() =~= Seq::<Seq<char>>::empty());
    assert(vs.last() == v);
    assert(map_each(vs.drop_last(), ModifierV::Repeat(n)) == Some(Seq::<Seq<char>>::empty()));
    assert(Seq::<Seq<char>>::empty().push(repeat(v, n as nat)) =~= seq![repeat(v, n as nat)]);
}

/// Splitting a single value at a byte index cuts it in two at the character boundary there; an
/// index beyond its length is ignored and the value stays whole; an index inside a character
/// is refused.
pub proof fn law_split_at_single(v: Seq<char>, mid: usize)
    ensures
        mid > byte_len(v) ==> apply_modifier(seq![v], ModifierV::SplitAt(mid)) == Some(seq![v]),
        mid <= byte_len(v) ==> apply_modifier(seq![v], ModifierV::SplitAt(mid)) == match char_at_byte(
            v,
            mid as int,
        ) {
            Some(k) => Some(seq![v.take(k), v.skip(k)]),
            None => None::<Seq<Seq<char>>>,
        },
{
    reveal(apply_modifier);
    let vs = seq![v];
    assert(vs.drop_last() =~= Seq::<Seq<char>>::empty());
    assert(vs.last() == v);
    assert(split_at_each(vs.drop_last(), mid, false) == Some(Seq::<Seq<char>>::empty()));
    assert(Seq::<Seq<char>>::empty() + seq![v] =~= seq![v]);
    if let Some(k) = char_at_byte(v, mid as int) {
        assert(Seq::<Seq<char>>::empty() + seq![v.take(k), v.skip(k)] =~= seq![v.take(k), v.skip(k)]);
    }
}

/// Whether `@[` stands anywhere in a text.
pub open spec fn has_weld_marker(s: Seq<char>) -> bool {
    exists|i: int| 0 <= i < s.len() - 1 && #[trigger] s[i] == '@' && s[i + 1] == '['
}

/// A text without `@[` from `pos` on welds into itself, whatever the results for `@[...]`.
proof fn lemma_interpolated_plain(s: Seq<char>, pos: int, ws: Seq<Result<Seq<char>, WeldError>>)
    requires
        0 <= pos <= s.len(),
        !has_weld_marker(s),
    ensures
        interpolated(s, pos, ws) == Ok::<Seq<char>, WeldError>(s.subrange(pos, s.len() as int)),
        segments_fit(s, pos, ws),
    decreases s.len() - pos,
{
    if pos < s.len() {
        assert(!(s[pos] == '@' && pos + 1 < s.len() && s[pos + 1] == '['));
        lemma_interpolated_plain(s, pos + 1, ws);
        assert(seq![s[pos]] + s.subrange(pos + 1, s.len() as int) =~= s.subrange(pos, s.len() as int));
    } else {
        assert(s.subrange(pos, s.len() as int) =~= Seq::<char>::empty());
    }
}

/// Only what stands inside `@[...]` is welded: a string literal whose value holds no `@[` keeps
/// its value, and can give nothing else.
pub proof fn law_string_without_marker(s: Seq<char>, r: Result<Seq<char>, WeldError>)
    requires
        !has_weld_marker(s),
    ensures
        interpolates(s, Ok::<Seq<char>, WeldError>(s)),
        interpolates(s, r) ==> r == Ok::<Seq<char>, WeldError>(s),
{
    assert(s.subrange(0, s.len() as int) =~= s);
    let none = Seq::<Result<Seq<char>, WeldError>>::empty();
    lemma_interpolated_plain(s, 0, none);
    assert(interpolated(s, 0, none) == Ok::<Seq<char>, WeldError>(s));
    if interpolates(s, r) {
        let ws = choose|ws: Seq<Result<Seq<char>, WeldError>>|
            (forall|k: int| 0 <= k < ws.len() ==> segment_welds(#[trigger] ws[k])) && segments_fit(s, 0, ws)
                && #[trigger] interpolated(s, 0, ws) == r;
        lemma_interpolated_plain(s, 0, ws);
    }
}

/// Taking out the spaces leaves none.
proof fn lemma_no_spaces(s: Seq<char>)
    ensures
        !replace_all(s, seq![' '], seq![]).contains(' '),
    decreases s.len(),
{
    let r = replace_all(s, seq![' '], seq![]);
    if s.len() > 0 {
        lemma_no_spaces(s.skip(1));
        if seq![' '].is_prefix_of(s) {
            assert(r =~= replace_all(s.skip(1), seq![' '], seq![]));
        } else {
            assert(s[0] != ' ') by {
                if s[0] == ' ' {
                    assert(seq![' '] =~= s.take(1));
                }
            }
            let rest = replace_all(s.skip(1), seq![' '], seq![]);
            assert(r == seq![s[0]] + rest);
            assert forall|i: int| 0 <= i < r.len() implies r[i] != ' ' by {
                if i > 0 {
                    assert(r[i] == rest[i - 1]);
                }
            }
        }
    }
}

/// An `@[...]` rendered as an identifier gives what `syn` gives for a text with no space in it:
/// the welded text with the spaces taken out (so that a title-cased text runs together), or
/// that with `r#` in front where only the raw form is an identifier (a keyword). Where that
/// text is a run of ASCII letters, digits and `_`, the identifier is the text or its raw form.
pub proof fn law_welded_identifier(inner: Seq<TokV>, t: Seq<char>)
    requires
        welds(inner, Ok::<ScannedV, WeldError>(ScannedV::Ident(t))),
    ensures
        exists|u: Seq<char>|
            !#[trigger] u.contains(' ') && (ascii_word(u) ==> (t == u || t == seq!['r', '#'] + u)),
{
    let a = choose|a: Answer| #[trigger] weld_item(inner, a) == (Ok::<ScannedV, WeldError>(ScannedV::Ident(t)), true);
    let dsl = parsed(inner)->Ok_0;
    let text = built_string(dsl.parts)->Some_0;
    let u = replace_all(text, seq![' '], seq![]);
    lemma_no_spaces(text);
    assert(a is Ident);
    let p = a->Ident_1;
    let q = a->Ident_2;
    assert(answer_ok(a));
    assert(rendered_from(p, q) == Ok::<ScannedV, WeldError>(ScannedV::Ident(t)));
    if ascii_word(u) {
        if p is None {
            assert((seq!['r', '#'] + u).skip(2) =~= u);
        }
    }
    assert(!u.contains(' ') && (ascii_word(u) ==> (t == u || t == seq!['r', '#'] + u)));
}

/// `substr` without arguments gives the whole value.
pub proof fn law_substr_whole(v: Seq<char>)
    requires
        byte_len(v) <= usize::MAX,
    ensures
        each_value(v, ModifierV::Substr(None, None)) == Some(v),
{
    reveal(each_value);
    lemma_char_at_byte_end(v);
    assert(v.subrange(0, v.len() as int) =~= v);
}

/// A token that the scan passes over: no `@`, no group, no string literal.
pub open spec fn plain_token(t: TokV) -> bool {
    match t {
        TokV::Ident(_) => true,
        TokV::Punct(c) => c != '@',
        TokV::Literal(l) => !(l is Str),
        TokV::Group(_, _) => false,
    }
}

/// Plain tokens from `pos` on are each kept, whatever the answers, and none is taken.
proof fn lemma_plain_kept(ts: Seq<TokV>, pos: int, os: Seq<Answer>)
    requires
        0 <= pos <= ts.len() <= usize::MAX,
        forall|i: int| 0 <= i < ts.len() ==> #[trigger] plain_token(ts[i]),
    ensures
        scanned(ts, pos, os) == (Ok::<Seq<ScannedV>, WeldError>(kept_from(ts, pos)), os, true),
    decreases ts.len() - pos,
{
    reveal(scanned);
    if pos < ts.len() {
        assert(plain_token(ts[pos]));
        lemma_plain_kept(ts, pos + 1, os);
        assert(seq![ScannedV::Keep(pos as usize)] + kept_from(ts, pos + 1) =~= kept_from(ts, pos));
    } else {
        assert(kept_from(ts, pos) =~= Seq::<ScannedV>::empty());
    }
}

/// Each token from `pos` on kept where it stands.
pub open spec fn kept_from(ts: Seq<TokV>, pos: int) -> Seq<ScannedV> {
    Seq::new((ts.len() - pos) as nat, |k: int| ScannedV::Keep((pos + k) as usize))
}

/// Tokens outside `@[...]` pass through the scan unchanged: where no token is an `@`, a group
/// or a string literal, each is kept where it stands, and the scan gives nothing else.
pub proof fn law_plain_tokens_kept(ts: Seq<TokV>, r: Result<Seq<ScannedV>, WeldError>)
    requires
        ts.len() <= usize::MAX,
        forall|i: int| 0 <= i < ts.len() ==> #[trigger] plain_token(ts[i]),
    ensures
        scans(ts, Ok::<Seq<ScannedV>, WeldError>(Seq::new(ts.len(), |k: int| ScannedV::Keep(k as usize)))),
        scans(ts, r) ==> r == Ok::<Seq<ScannedV>, WeldError>(
            Seq::new(ts.len(), |k: int| ScannedV::Keep(k as usize)),
        ),
{
    let keeps = Seq::new(ts.len(), |k: int| ScannedV::Keep(k as usize));
    assert(kept_from(ts, 0) =~= keeps);
    let none = Seq::<Answer>::empty();
    assert forall|tail: Seq<Answer>| #[trigger] scanned(ts, 0, none + tail) == (
        Ok::<Seq<ScannedV>, WeldError>(keeps),
        tail,
        true,
    ) by {
        assert(none + tail =~= tail);
        lemma_plain_kept(ts, 0, tail);
    }
    assert(none.len() == 0);
    if scans(ts, r) {
        let os = choose|os: Seq<Answer>|
            #![trigger os.len()]
            os.len() >= 0 && forall|tail: Seq<Answer>| #[trigger] scanned(ts, 0, os + tail) == (r, tail, true);
        let e = Seq::<Answer>::empty();
        assert(scanned(ts, 0, os + e) == (r, e, true));
        assert(os + e =~= os);
        lemma_plain_kept(ts, 0, os);
    }
}

/// On a list group the structural modifiers act on the collection: `reverse` reverses the
/// order of the items (not their characters), `repeat{n}` writes the items `n` times, `join`
/// flattens the items into one value with the separator between them, and `split` splits each
/// item, keeping the pieces that are not empty in order.
pub proof fn law_list_structure(vs: Seq<Seq<char>>, n: usize, sep: Seq<char>)
    requires
        vs.len() > 1,
        vs.len() * n <= usize::MAX,
    ensures
        apply_modifier(vs, ModifierV::Reverse) == Some(vs.reverse()),
        apply_modifier(vs, ModifierV::Repeat(n)) == Some(repeat(vs, n as nat)),
        apply_modifier(vs, ModifierV::Join(sep)) == Some(seq![join(vs, sep)]),
        apply_modifier(vs, ModifierV::Split(sep)) == Some(non_empty(split_each(vs, sep))),
{
    reveal(apply_modifier);
}

/// Building a sequence of pieces gives one text per piece.
proof fn lemma_built_each_len(ps: Seq<PartV>)
    ensures
        built_each(ps) matches Some(list) ==> list.len() == ps.len(),
    decreases ps.len(),
{
    if ps.len() > 0 {
        lemma_built_each_len(ps.drop_last());
    }
}

/// A modifier chain on a group: the words of `(...)` are one value before the chain runs, the
/// items of `[...]` stay one value each, and a plain word is one value.
pub proof fn law_group_kinds(ps: Seq<PartV>, v: Seq<char>, ms: Seq<ModifierV>)
    ensures
        built(PartV::Modified(Box::new(PartV::Plain(v)), ms)) == modified(seq![v], ms),
        built_each(ps) matches Some(list) ==> list.len() == ps.len() && built(
            PartV::Modified(Box::new(PartV::ConcatGroup(ps)), ms),
        ) == modified(seq![join(list, seq![])], ms) && built(
            PartV::Modified(Box::new(PartV::ListGroup(ps)), ms),
        ) == modified(list, ms),
        built_each(ps) is None ==> built(PartV::Modified(Box::new(PartV::ConcatGroup(ps)), ms)) is None
            && built(PartV::Modified(Box::new(PartV::ListGroup(ps)), ms)) is None,
{
    lemma_built_each_len(ps);
}

} // verus!
