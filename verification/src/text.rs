//! Character-sequence operations on which the modifiers are built.
use vstd::prelude::*;

verus! {

/// Whether `v` ends with the letter `s`.
pub open spec fn ends_with_s(v: Seq<char>) -> bool {
    v.len() > 0 && v.last() == 's'
}

/// Whether `pat` occurs in `s` at position `i`.
pub open spec fn occurs_at(s: Seq<char>, i: int, pat: Seq<char>) -> bool {
    pat.is_prefix_of(s.skip(i))
}

/// `s` with each occurrence of `from` replaced by `to`, the occurrences being found from the
/// left and not overlapping. An empty `from` occurs before every character and at the end.
pub open spec fn replace_all(s: Seq<char>, from: Seq<char>, to: Seq<char>) -> Seq<char>
    decreases s.len(),
{
    if from.len() == 0 {
        if s.len() == 0 {
            to
        } else {
            to + seq![s[0]] + replace_all(s.skip(1), from, to)
        }
    } else if s.len() == 0 {
        seq![]
    } else if from.is_prefix_of(s) {
        to + replace_all(s.skip(from.len() as int), from, to)
    } else {
        seq![s[0]] + replace_all(s.skip(1), from, to)
    }
}

/// Whether a text ends with the letter `s`, as [`ends_with_s`] states.
pub fn text_ends_with_s(v: &Vec<char>) -> (b: bool)
    ensures
        b == ends_with_s(v@),
{
    v.len() > 0 && v[v.len() - 1] == 's'
}

/// Whether `pat` occurs in `s` at position `i`, as [`occurs_at`] states.
pub fn text_occurs_at(s: &Vec<char>, i: usize, pat: &Vec<char>) -> (b: bool)
    requires
        i <= s.len(),
    ensures
        b == occurs_at(s@, i as int, pat@),
{
    if pat.len() > s.len() - i {
        return false;
    }
    let mut k: usize = 0;
    while k < pat.len()
        invariant
            k <= pat.len(),
            i + pat.len() <= s.len(),
            forall|j: int| 0 <= j < k ==> pat@[j] == s@[i + j],
        decreases pat.len() - k,
    {
        if pat[k] != s[i + k] {
            assert(s@.skip(i as int).subrange(0, pat@.len() as int)[k as int] == s@[i + k]);
            return false;
        }
        k = k + 1;
    }
    assert(pat@ =~= s@.skip(i as int).subrange(0, pat@.len() as int));
    true
}

/// Appends every character of `t` to `out`.
pub fn append_text(out: &mut Vec<char>, t: &Vec<char>)
    ensures
        final(out)@ == old(out)@ + t@,
{
    let mut k: usize = 0;
    while k < t.len()
        invariant
            k <= t.len(),
            out@ == old(out)@ + t@.take(k as int),
        decreases t.len() - k,
    {
        out.push(t[k]);
        k = k + 1;
        assert(out@ =~= old(out)@ + t@.take(k as int));
    }
    assert(t@.take(t.len() as int) =~= t@);
}

/// `s` with each occurrence of `from` replaced by `to`, as [`replace_all`] states.
pub fn replace_text(s: &Vec<char>, from: &Vec<char>, to: &Vec<char>) -> (r: Vec<char>)
    ensures
        r@ == replace_all(s@, from@, to@),
{
    let mut out: Vec<char> = Vec::new();
    let mut i: usize = 0;
    assert(s@.skip(0) =~= s@);
    while i < s.len()
        invariant
            i <= s.len(),
            out@ + replace_all(s@.skip(i as int), from@, to@) == replace_all(s@, from@, to@),
        decreases s.len() - i,
    {
        let ghost rest = s@.skip(i as int);
        if from.len() == 0 {
            append_text(&mut out, to);
            out.push(s[i]);
            assert(rest.skip(1) =~= s@.skip(i + 1));
            assert(rest[0] == s@[i as int]);
            i = i + 1;
            assert(out@ + replace_all(s@.skip(i as int), from@, to@) =~= replace_all(s@, from@, to@));
        } else if text_occurs_at(s, i, from) {
            append_text(&mut out, to);
            assert(rest.skip(from@.len() as int) =~= s@.skip(i + from.len()));
            i = i + from.len();
            assert(out@ + replace_all(s@.skip(i as int), from@, to@) =~= replace_all(s@, from@, to@));
        } else {
            out.push(s[i]);
            assert(rest.skip(1) =~= s@.skip(i + 1));
            assert(rest[0] == s@[i as int]);
            i = i + 1;
            assert(out@ + replace_all(s@.skip(i as int), from@, to@) =~= replace_all(s@, from@, to@));
        }
    }
    assert(s@.skip(i as int) =~= Seq::<char>::empty());
    if from.len() == 0 {
        append_text(&mut out, to);
    }
    assert(out@ =~= replace_all(s@, from@, to@));
    out
}

/// The pieces of `s` between the occurrences of `pat`, found from the left and not overlapping.
/// An empty `pat` separates every character, and the beginning and the end of `s`.
pub open spec fn split_pieces(s: Seq<char>, pat: Seq<char>) -> Seq<Seq<char>> {
    if pat.len() == 0 {
        seq![Seq::<char>::empty()] + s.map_values(|c: char| seq![c]) + seq![Seq::<char>::empty()]
    } else {
        split_from(s, pat, seq![])
    }
}

/// The pieces of `cur + s` that `split_pieces` gives when `cur` holds no occurrence of `pat`
/// that ends inside `s`: `cur` is the piece begun so far.
pub open spec fn split_from(s: Seq<char>, pat: Seq<char>, cur: Seq<char>) -> Seq<Seq<char>>
    recommends
        pat.len() > 0,
    decreases s.len(),
{
    if s.len() == 0 || pat.len() == 0 {
        seq![cur + s]
    } else if pat.is_prefix_of(s) {
        seq![cur] + split_from(s.skip(pat.len() as int), pat, seq![])
    } else {
        split_from(s.skip(1), pat, cur.push(s[0]))
    }
}

/// The elements of `list` with `sep` between each two of them.
pub open spec fn join(list: Seq<Seq<char>>, sep: Seq<char>) -> Seq<char>
    decreases list.len(),
{
    if list.len() == 0 {
        seq![]
    } else if list.len() == 1 {
        list[0]
    } else {
        join(list.drop_last(), sep) + sep + list.last()
    }
}

/// `s` written `n` times in a row.
pub open spec fn repeat<A>(s: Seq<A>, n: nat) -> Seq<A>
    decreases n,
{
    if n == 0 {
        seq![]
    } else {
        repeat(s, (n - 1) as nat) + s
    }
}

/// The first `w` elements of `pat` written again and again.
pub open spec fn cycle_take(pat: Seq<char>, w: nat) -> Seq<char> {
    Seq::new(w, |i: int| pat[i % (pat.len() as int)])
}

/// The views of a list of texts.
pub open spec fn texts(v: Seq<Vec<char>>) -> Seq<Seq<char>> {
    v.map_values(|t: Vec<char>| t@)
}

/// A copy of a text.
pub fn copy_text(t: &Vec<char>) -> (r: Vec<char>)
    ensures
        r@ == t@,
{
    let mut r: Vec<char> = Vec::new();
    append_text(&mut r, t);
    r
}

/// The characters of `t` from `start` up to `end`.
pub fn sub_text(t: &Vec<char>, start: usize, end: usize) -> (r: Vec<char>)
    requires
        start <= end <= t.len(),
    ensures
        r@ == t@.subrange(start as int, end as int),
{
    let mut r: Vec<char> = Vec::new();
    let mut k: usize = start;
    while k < end
        invariant
            start <= k <= end <= t.len(),
            r@ == t@.subrange(start as int, k as int),
        decreases end - k,
    {
        r.push(t[k]);
        k = k + 1;
        assert(r@ =~= t@.subrange(start as int, k as int));
    }
    r
}

/// The characters of `t` in reverse order.
pub fn reverse_text(t: &Vec<char>) -> (r: Vec<char>)
    ensures
        r@ == t@.reverse(),
{
    let mut r: Vec<char> = Vec::new();
    let mut k: usize = t.len();
    while k > 0
        invariant
            k <= t.len(),
            r@.len() == t.len() - k,
            forall|j: int| 0 <= j < r@.len() ==> r@[j] == t@[t.len() - 1 - j],
        decreases k,
    {
        k = k - 1;
        r.push(t[k]);
    }
    assert(r@ =~= t@.reverse());
    r
}

/// The pieces of `s` between the occurrences of `pat`, as [`split_pieces`] states.
pub fn split_text(s: &Vec<char>, pat: &Vec<char>) -> (r: Vec<Vec<char>>)
    ensures
        texts(r@) == split_pieces(s@, pat@),
{
    let mut out: Vec<Vec<char>> = Vec::new();
    if pat.len() == 0 {
        out.push(Vec::new());
        let mut i: usize = 0;
        while i < s.len()
            invariant
                i <= s.len(),
                texts(out@) == seq![Seq::<char>::empty()] + s@.take(i as int).map_values(
                    |c: char| seq![c],
                ),
            decreases s.len() - i,
        {
            let mut piece: Vec<char> = Vec::new();
            piece.push(s[i]);
            let ghost before = texts(out@);
            out.push(piece);
            i = i + 1;
            proof {
                let m = s@.take(i as int).map_values(|c: char| seq![c]);
                let m0 = s@.take(i - 1).map_values(|c: char| seq![c]);
                assert(texts(out@) =~= before.push(piece@));
                assert(m =~= m0.push(seq![s@[i - 1]]));
                assert(piece@ =~= seq![s@[i - 1]]);
                assert(texts(out@) =~= seq![Seq::<char>::empty()] + m);
            }
        }
        out.push(Vec::new());
        assert(s@.take(s.len() as int) =~= s@);
        assert(texts(out@) =~= split_pieces(s@, pat@));
        return out;
    }
    let mut cur: Vec<char> = Vec::new();
    let mut i: usize = 0;
    assert(s@.skip(0) =~= s@);
    while i < s.len()
        invariant
            i <= s.len(),
            pat.len() > 0,
            texts(out@) + split_from(s@.skip(i as int), pat@, cur@) == split_from(
                s@,
                pat@,
                seq![],
            ),
        decreases s.len() - i,
    {
        let ghost rest = s@.skip(i as int);
        if text_occurs_at(s, i, pat) {
            let piece = cur;
            out.push(piece);
            cur = Vec::new();
            assert(rest.skip(pat@.len() as int) =~= s@.skip(i + pat.len()));
            i = i + pat.len();
            assert(texts(out@) + split_from(s@.skip(i as int), pat@, cur@) =~= split_from(
                s@,
                pat@,
                seq![],
            ));
        } else {
            cur.push(s[i]);
            assert(rest.skip(1) =~= s@.skip(i + 1));
            assert(rest[0] == s@[i as int]);
            i = i + 1;
        }
    }
    assert(s@.skip(i as int) =~= Seq::<char>::empty());
    assert(cur@ + Seq::<char>::empty() =~= cur@);
    out.push(cur);
    assert(texts(out@) =~= split_from(s@, pat@, seq![]));
    out
}

/// The texts of `list` with `sep` between each two of them, as [`join`] states.
pub fn join_texts(list: &Vec<Vec<char>>, sep: &Vec<char>) -> (r: Vec<char>)
    ensures
        r@ == join(texts(list@), sep@),
{
    let mut out: Vec<char> = Vec::new();
    let mut i: usize = 0;
    while i < list.len()
        invariant
            i <= list.len(),
            out@ == join(texts(list@).take(i as int), sep@),
        decreases list.len() - i,
    {
        if i > 0 {
            append_text(&mut out, sep);
        }
        append_text(&mut out, &list[i]);
        i = i + 1;
        assert(texts(list@).take(i as int).drop_last() =~= texts(list@).take(i - 1));
        assert(out@ =~= join(texts(list@).take(i as int), sep@));
    }
    assert(texts(list@).take(list.len() as int) =~= texts(list@));
    out
}

/// `t` written `n` times in a row, as [`repeat`] states.
pub fn repeat_text(t: &Vec<char>, n: usize) -> (r: Vec<char>)
    requires
        t.len() * n <= usize::MAX,
    ensures
        r@ == repeat(t@, n as nat),
{
    let mut r: Vec<char> = Vec::new();
    let mut k: usize = 0;
    while k < n
        invariant
            k <= n,
            r@ == repeat(t@, k as nat),
        decreases n - k,
    {
        append_text(&mut r, t);
        k = k + 1;
    }
    r
}

/// The first `w` characters of `pat` written again and again, as [`cycle_take`] states.
pub fn cycle_take_text(pat: &Vec<char>, w: usize) -> (r: Vec<char>)
    requires
        pat.len() > 0,
    ensures
        r@ == cycle_take(pat@, w as nat),
{
    let mut r: Vec<char> = Vec::new();
    let mut k: usize = 0;
    let mut j: usize = 0;
    let ghost mut q: int = 0;
    while k < w
        invariant
            k <= w,
            pat.len() > 0,
            j < pat.len(),
            q >= 0,
            k == q * pat.len() + j,
            r@ =~= cycle_take(pat@, k as nat),
        decreases w - k,
    {
        proof {
            vstd::arithmetic::div_mod::lemma_fundamental_div_mod_converse(
                k as int,
                pat.len() as int,
                q,
                j as int,
            );
        }
        r.push(pat[j]);
        k = k + 1;
        if j + 1 == pat.len() {
            j = 0;
            proof {
                q = q + 1;
                assert(k == q * pat.len() + j) by (nonlinear_arith)
                    requires
                        k == (q - 1) * pat.len() + pat.len(),
                        j == 0,
                ;
            }
        } else {
            j = j + 1;
        }
    }
    r
}

/// Joining a list with one more element puts the separator and the element behind.
pub proof fn lemma_join_push(list: Seq<Seq<char>>, x: Seq<char>, sep: Seq<char>)
    ensures
        list.len() == 0 ==> join(list.push(x), sep) == x,
        list.len() > 0 ==> join(list.push(x), sep) == join(list, sep) + sep + x,
{
    assert(list.push(x).drop_last() =~= list);
}

/// Joining a list with one more element in front puts the element and the separator in front.
pub proof fn lemma_join_prepend(a: Seq<char>, list: Seq<Seq<char>>, sep: Seq<char>)
    requires
        list.len() > 0,
    ensures
        join(seq![a] + list, sep) == a + sep + join(list, sep),
    decreases list.len(),
{
    let l2 = seq![a] + list;
    assert(l2.last() == list.last());
    if list.len() == 1 {
        assert(l2.drop_last() =~= seq![a]);
        assert(join(seq![a], sep) == a);
        assert(join(list, sep) == list[0]);
        assert(join(l2, sep) == join(l2.drop_last(), sep) + sep + l2.last());
    } else {
        lemma_join_prepend(a, list.drop_last(), sep);
        assert(l2.drop_last() =~= seq![a] + list.drop_last());
        assert(join(l2, sep) == join(l2.drop_last(), sep) + sep + l2.last());
        assert(join(list, sep) == join(list.drop_last(), sep) + sep + list.last());
        assert(join(l2, sep) =~= a + sep + join(list, sep));
    }
}

/// `split_from` gives at least one piece.
pub proof fn lemma_split_from_len(s: Seq<char>, pat: Seq<char>, cur: Seq<char>)
    ensures
        split_from(s, pat, cur).len() > 0,
    decreases s.len(),
{
    if s.len() == 0 || pat.len() == 0 {
    } else if pat.is_prefix_of(s) {
        lemma_split_from_len(s.skip(pat.len() as int), pat, seq![]);
    } else {
        lemma_split_from_len(s.skip(1), pat, cur.push(s[0]));
    }
}

/// The pieces that `split_from` gives, joined by the pattern, are the piece begun and the rest.
pub proof fn lemma_join_split_from(s: Seq<char>, pat: Seq<char>, cur: Seq<char>)
    requires
        pat.len() > 0,
    ensures
        join(split_from(s, pat, cur), pat) == cur + s,
    decreases s.len(),
{
    if s.len() == 0 {
        assert(cur + s =~= cur);
    } else if pat.is_prefix_of(s) {
        let rest = s.skip(pat.len() as int);
        lemma_join_split_from(rest, pat, seq![]);
        lemma_split_from_len(rest, pat, seq![]);
        lemma_join_prepend(cur, split_from(rest, pat, seq![]), pat);
        assert(s =~= pat + rest);
        assert(Seq::<char>::empty() + rest =~= rest);
        assert(cur + pat + rest =~= cur + s);
    } else {
        lemma_join_split_from(s.skip(1), pat, cur.push(s[0]));
        assert(cur.push(s[0]) + s.skip(1) =~= cur + s);
    }
}

/// Splitting at a pattern and joining with it gives back the text.
pub proof fn lemma_join_split(s: Seq<char>, pat: Seq<char>)
    ensures
        join(split_pieces(s, pat), pat) == s,
{
    if pat.len() > 0 {
        lemma_join_split_from(s, pat, seq![]);
        assert(Seq::<char>::empty() + s =~= s);
    } else {
        lemma_join_singles(s);
        let list = seq![Seq::<char>::empty()] + s.map_values(|c: char| seq![c]);
        assert(pat =~= Seq::<char>::empty());
        assert(split_pieces(s, pat) =~= list.push(Seq::<char>::empty()));
        lemma_join_push(list, seq![], pat);
        assert(join(list, pat) + pat + Seq::<char>::empty() =~= join(list, pat));
    }
}

/// The characters of a text, each a piece of its own, after an empty piece, run together.
proof fn lemma_join_singles(s: Seq<char>)
    ensures
        join(seq![Seq::<char>::empty()] + s.map_values(|c: char| seq![c]), seq![]) == s,
    decreases s.len(),
{
    let list = seq![Seq::<char>::empty()] + s.map_values(|c: char| seq![c]);
    if s.len() == 0 {
        assert(list =~= seq![Seq::<char>::empty()]);
        assert(join(list, seq![]) == list[0]);
    } else {
        let front = s.drop_last();
        lemma_join_singles(front);
        let list0 = seq![Seq::<char>::empty()] + front.map_values(|c: char| seq![c]);
        assert(list =~= list0.push(seq![s.last()]));
        lemma_join_push(list0, seq![s.last()], seq![]);
        assert(front + Seq::<char>::empty() + seq![s.last()] =~= s);
    }
}

/// A text written `n` times is `n` times as long.
pub proof fn lemma_repeat_len<A>(s: Seq<A>, n: nat)
    ensures
        repeat(s, n).len() == n * s.len(),
    decreases n,
{
    if n > 0 {
        let m = (n - 1) as nat;
        lemma_repeat_len(s, m);
        assert(repeat(s, n).len() == repeat(s, m).len() + s.len());
        assert(n * s.len() == m * s.len() + s.len()) by (nonlinear_arith)
            requires
                n == m + 1,
        ;
    } else {
        assert(n * s.len() == 0) by (nonlinear_arith)
            requires
                n == 0,
        ;
    }
}

/// The characters of a string, in order.
pub fn chars_of(s: &str) -> (r: Vec<char>)
    ensures
        r@ == s@,
{
    broadcast use vstd::string::group_string_axioms;
    let mut r: Vec<char> = Vec::new();
    for c in it: s.chars()
        invariant
            r@ == it.seq().take(it.index() as int),
    {
        r.push(c);
    }
    r
}

/// Collects characters into a `String` with std's `FromIterator<char>` for `String`; the
/// contract claims that the string holds the characters in order, as std documents.
#[verifier::external_body]
pub(crate) fn string_of(t: &Vec<char>) -> (r: String)
    ensures
        r@ == t@,
{
    t.iter().collect()
}

/// Whether two texts are equal.
pub fn texts_equal(a: &Vec<char>, b: &Vec<char>) -> (r: bool)
    ensures
        r == (a@ == b@),
{
    if a.len() != b.len() {
        return false;
    }
    let mut k: usize = 0;
    while k < a.len()
        invariant
            k <= a.len() == b.len(),
            forall|j: int| 0 <= j < k ==> a@[j] == b@[j],
        decreases a.len() - k,
    {
        if a[k] != b[k] {
            return false;
        }
        k = k + 1;
    }
    assert(a@ =~= b@);
    true
}

/// Whether a text is the given word.
pub fn text_is(t: &Vec<char>, word: &str) -> (r: bool)
    ensures
        r == (t@ == word@),
{
    let w = chars_of(word);
    texts_equal(t, &w)
}

/// The number of bytes that a character takes in UTF-8.
pub open spec fn utf8_len(c: char) -> nat {
    let n = c as u32;
    if n < 0x80 {
        1
    } else if n < 0x800 {
        2
    } else if n < 0x10000 {
        3
    } else {
        4
    }
}

/// The number of bytes that a text takes in UTF-8 (`str::len`).
pub open spec fn byte_len(s: Seq<char>) -> nat
    decreases s.len(),
{
    if s.len() == 0 {
        0
    } else {
        utf8_len(s[0]) + byte_len(s.skip(1))
    }
}

/// The index of the character that starts at byte `b` of the UTF-8 encoding of `s` (the end of
/// `s` counting as a start); `None` where `b` is no character boundary of `s`.
pub open spec fn char_at_byte(s: Seq<char>, b: int) -> Option<int>
    decreases s.len(),
{
    if b == 0 {
        Some(0)
    } else if b < 0 || s.len() == 0 {
        None
    } else {
        match char_at_byte(s.skip(1), b - utf8_len(s[0])) {
            Some(k) => Some(k + 1),
            None => None,
        }
    }
}

/// A boundary found is an index of the text, from its start to its end.
pub proof fn lemma_char_at_byte_bounds(s: Seq<char>, b: int)
    ensures
        char_at_byte(s, b) matches Some(k) ==> 0 <= k <= s.len(),
    decreases s.len(),
{
    if b != 0 && b >= 0 && s.len() > 0 {
        lemma_char_at_byte_bounds(s.skip(1), b - utf8_len(s[0]));
    }
}

/// The end of a text is a character boundary: its byte length names its length.
pub proof fn lemma_char_at_byte_end(s: Seq<char>)
    ensures
        char_at_byte(s, byte_len(s) as int) == Some(s.len() as int),
    decreases s.len(),
{
    if s.len() > 0 {
        lemma_char_at_byte_end(s.skip(1));
    }
}

/// The number of bytes that a character takes in UTF-8, as [`utf8_len`] states.
pub fn char_utf8_len(c: char) -> (r: usize)
    ensures
        r == utf8_len(c),
{
    let n = c as u32;
    if n < 0x80 {
        1
    } else if n < 0x800 {
        2
    } else if n < 0x10000 {
        3
    } else {
        4
    }
}

/// The number of bytes that a text takes in UTF-8, as [`byte_len`] states; `None` where that
/// number does not fit in a `usize`.
pub fn text_byte_len(v: &Vec<char>) -> (r: Option<usize>)
    ensures
        match r {
            Some(n) => n == byte_len(v@),
            None => byte_len(v@) > usize::MAX,
        },
{
    let mut i: usize = v.len();
    let mut total: usize = 0;
    assert(v@.skip(i as int) =~= Seq::<char>::empty());
    while i > 0
        invariant
            i <= v.len(),
            total == byte_len(v@.skip(i as int)),
        decreases i,
    {
        let u = char_utf8_len(v[i - 1]);
        assert(v@.skip(i - 1).skip(1) =~= v@.skip(i as int));
        assert(v@.skip(i - 1)[0] == v@[i - 1]);
        if total > usize::MAX - u {
            proof {
                lemma_byte_len_prefix_bound(v@, (i - 1) as int);
            }
            return None;
        }
        total = total + u;
        i = i - 1;
    }
    assert(v@.skip(0) =~= v@);
    Some(total)
}

/// A text is at least as long in bytes as any of its tails.
proof fn lemma_byte_len_prefix_bound(s: Seq<char>, k: int)
    requires
        0 <= k <= s.len(),
    ensures
        byte_len(s) >= byte_len(s.skip(k)),
    decreases k,
{
    if k > 0 {
        lemma_byte_len_prefix_bound(s.skip(1), k - 1);
        assert(s.skip(1).skip(k - 1) =~= s.skip(k));
    } else {
        assert(s.skip(0) =~= s);
    }
}

/// The index of the character that starts at byte `b`, as [`char_at_byte`] states.
pub fn char_index_at_byte(v: &Vec<char>, b: usize) -> (r: Option<usize>)
    ensures
        match r {
            Some(k) => char_at_byte(v@, b as int) == Some(k as int),
            None => char_at_byte(v@, b as int) is None,
        },
{
    let mut k: usize = 0;
    let mut acc: usize = 0;
    assert(v@.skip(0) =~= v@);
    while acc < b
        invariant
            k <= v.len(),
            acc <= b,
            char_at_byte(v@, b as int) == match char_at_byte(v@.skip(k as int), b - acc) {
                Some(j) => Some(j + k),
                None => None::<int>,
            },
        decreases b - acc,
    {
        if k == v.len() {
            return None;
        }
        let u = char_utf8_len(v[k]);
        assert(v@.skip(k as int).skip(1) =~= v@.skip(k + 1));
        assert(v@.skip(k as int)[0] == v@[k as int]);
        if u > b - acc {
            assert(char_at_byte(v@.skip(k + 1), b - acc - u) is None);
            return None;
        }
        acc = acc + u;
        k = k + 1;
    }
    Some(k)
}

} // verus!
