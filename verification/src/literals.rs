//! Welding inside string literals: each `@[...]` in the text of a string is lexed, parsed and
//! built, and its text takes its place.
use vstd::prelude::*;

use proc_macro2::{Delimiter as StreamDelimiter, TokenStream, TokenTree};

use crate::builder::{built_string, try_build_string};
use crate::parser::{TweldDsl, parsed};
use crate::scanner::WeldError;
use crate::text::{append_text, chars_of, join, string_of};
use crate::tokens::{Delimiter, LitKind, LitV, Tok, TokV, toks_view};

verus! {

#[verifier::external_type_specification]
#[verifier::external_body]
pub struct ExTokenStream(proc_macro2::TokenStream);

/// One token tree of a lexed text: a literal by its source text, a group by its delimiter and
/// the trees inside it.
pub enum Lexeme {
    Ident(String),
    Punct(char),
    Literal(String),
    Group(Delimiter, Vec<Lexeme>),
}

/// The mathematical form of a [`Lexeme`].
pub enum LexemeV {
    Ident(Seq<char>),
    Punct(char),
    Literal(Seq<char>),
    Group(Delimiter, Seq<LexemeV>),
}

impl View for Lexeme {
    type V = LexemeV;

    open spec fn view(&self) -> LexemeV
        decreases self,
    {
        match self {
            Lexeme::Ident(s) => LexemeV::Ident(s@),
            Lexeme::Punct(c) => LexemeV::Punct(*c),
            Lexeme::Literal(s) => LexemeV::Literal(s@),
            Lexeme::Group(d, ls) => LexemeV::Group(*d, lexemes_view(ls@)),
        }
    }
}

/// The views of a sequence of lexemes.
pub open spec fn lexemes_view(s: Seq<Lexeme>) -> Seq<LexemeV>
    decreases s,
{
    if s.len() == 0 {
        seq![]
    } else {
        lexemes_view(s.drop_last()).push(s.last().view())
    }
}

/// The views of a sequence of lexemes, element by element.
proof fn lemma_lexemes_view(s: Seq<Lexeme>)
    ensures
        lexemes_view(s).len() == s.len(),
        forall|i: int| 0 <= i < s.len() ==> #[trigger] lexemes_view(s)[i] == s[i]@,
    decreases s.len(),
{
    if s.len() > 0 {
        lemma_lexemes_view(s.drop_last());
        assert(lexemes_view(s) == lexemes_view(s.drop_last()).push(s.last().view()));
        assert forall|i: int| 0 <= i < s.len() implies #[trigger] lexemes_view(s)[i] == s[i]@ by {
            if i < s.len() - 1 {
                assert(lexemes_view(s.drop_last())[i] == s.drop_last()[i]@);
            }
        }
    }
}

/// What `syn` reads the source text of a literal as (`syn::parse_str::<syn::Lit>`). It depends
/// on the text alone.
pub uninterp spec fn literal_of(s: Seq<char>) -> LitV;

/// Whether a character is an ASCII letter.
pub open spec fn word_start(c: char) -> bool {
    ('a' <= c && c <= 'z') || ('A' <= c && c <= 'Z')
}

/// Whether a character is an ASCII letter, digit or `_`.
pub open spec fn word_char(c: char) -> bool {
    word_start(c) || ('0' <= c && c <= '9') || c == '_'
}

/// Whether a text is a plain word: an ASCII letter, then ASCII letters, digits and `_`. Every
/// lexer of Rust reads such a word as one identifier, whatever the word (keywords included).
pub open spec fn plain_word(w: Seq<char>) -> bool {
    w.len() > 0 && word_start(w[0]) && forall|i: int| 0 <= i < w.len() ==> #[trigger] word_char(w[i])
}

/// Whether a text is the plain words `ws`, at least one, with a single space between each two.
pub open spec fn spelled_by(t: Seq<char>, ws: Seq<Seq<char>>) -> bool {
    ws.len() > 0 && (forall|k: int| 0 <= k < ws.len() ==> #[trigger] plain_word(ws[k])) && t == join(
        ws,
        seq![' '],
    )
}

/// The identifiers of the words `ws`, in order.
pub open spec fn ident_lexemes(ws: Seq<Seq<char>>) -> Seq<LexemeV> {
    ws.map_values(|w: Seq<char>| LexemeV::Ident(w))
}

/// What holds of every outcome `lx` of lexing the text `t`, on either lexer: where `t` is plain
/// words with single spaces between them, the outcome is those words as identifiers, in order.
pub open spec fn lexes_words(t: Seq<char>, lx: Option<Seq<LexemeV>>) -> bool {
    forall|ws: Seq<Seq<char>>| #[trigger] spelled_by(t, ws) ==> lx == Some(ident_lexemes(ws))
}

/// Lexes a text with `proc_macro2`'s `TokenStream::from_str` and takes the token trees of the
/// stream as lexemes ([`stream_trees`]); `None` where the text is refused. How a text lexes
/// depends on where the code runs (inside a procedural macro the compiler's lexer is used, which
/// normalizes identifiers to NFC; elsewhere `proc_macro2`'s own), so the contract claims only
/// what both lexers give: a text of plain words (ASCII letters, digits and `_`, each beginning
/// with a letter) with single spaces between them lexes to those words as identifiers, in order.
/// Of other texts nothing is claimed. `proc_macro2` documents that some lexing errors may panic;
/// its source checks the text with its own lexer first and catches a panic of the compiler's,
/// returning an error instead.
#[verifier::external_body]
fn lex_stream(t: &Vec<char>) -> (r: Option<Vec<Lexeme>>)
    ensures
        lexes_words(t@, lexing_view(r)),
{
    let s: String = t.iter().collect();
    s.parse::<TokenStream>().ok().map(stream_trees)
}

/// The token trees of a stream (`IntoIterator` of `TokenStream`), groups converted with the
/// trees inside them, literals by their source text (`Literal::to_string`): the conversion that
/// [`lex_stream`] applies to what it lexed.
#[verifier::external_body]
fn stream_trees(s: TokenStream) -> (r: Vec<Lexeme>) {
    s.into_iter().map(|tree| match tree {
        TokenTree::Ident(i) => Lexeme::Ident(i.to_string()),
        TokenTree::Punct(p) => Lexeme::Punct(p.as_char()),
        TokenTree::Literal(l) => Lexeme::Literal(l.to_string()),
        TokenTree::Group(g) => Lexeme::Group(match g.delimiter() {
            StreamDelimiter::Parenthesis => Delimiter::Parenthesis,
            StreamDelimiter::Brace => Delimiter::Brace,
            StreamDelimiter::Bracket => Delimiter::Bracket,
            StreamDelimiter::None => Delimiter::Invisible,
        }, stream_trees(g.stream())),
    }).collect()
}

/// Reads the source text of a literal with `syn::parse_str::<syn::Lit>`; the contract claims
/// only that the result is the one that [`literal_of`] names.
#[verifier::external_body]
fn literal_kind(t: &String) -> (r: LitKind)
    ensures
        r@ == literal_of(t@),
{
    match syn::parse_str::<syn::Lit>(t) {
        Ok(syn::Lit::Str(s)) => LitKind::Str(s.value()),
        Ok(syn::Lit::Char(c)) => LitKind::Char(c.value()),
        Ok(syn::Lit::Int(i)) => LitKind::Int(i.base10_digits().to_string()),
        Ok(syn::Lit::Float(_)) => LitKind::Float,
        _ => LitKind::Other,
    }
}

/// The token that a lexeme stands for, its literal read by `syn`.
pub open spec fn tok_from(l: LexemeV) -> TokV
    decreases l, 1nat,
{
    match l {
        LexemeV::Ident(s) => TokV::Ident(s),
        LexemeV::Punct(c) => TokV::Punct(c),
        LexemeV::Literal(s) => TokV::Literal(literal_of(s)),
        LexemeV::Group(d, inner) => TokV::Group(d, toks_from(inner)),
    }
}

/// The tokens that a sequence of lexemes stands for.
pub open spec fn toks_from(ls: Seq<LexemeV>) -> Seq<TokV>
    decreases ls, 0nat,
{
    if ls.len() == 0 {
        seq![]
    } else {
        toks_from(ls.subrange(0, ls.len() - 1)).push(tok_from(ls[ls.len() - 1]))
    }
}

/// The tokens that the outcome of lexing a text stands for: `InvalidTokens` where the text
/// was refused.
pub open spec fn lexed(lx: Option<Seq<LexemeV>>) -> Result<Seq<TokV>, WeldError> {
    match lx {
        None => Err(WeldError::InvalidTokens),
        Some(ls) => Ok(toks_from(ls)),
    }
}

/// The mathematical form of the outcome of lexing a text.
pub open spec fn lexing_view(lx: Option<Vec<Lexeme>>) -> Option<Seq<LexemeV>> {
    match lx {
        Some(v) => Some(lexemes_view(v@)),
        None => None,
    }
}

/// The mathematical form of a text or an error.
pub open spec fn text_view(r: Result<Vec<char>, WeldError>) -> Result<Seq<char>, WeldError> {
    match r {
        Ok(t) => Ok(t@),
        Err(e) => Err(e),
    }
}

/// The views of tokens with one more pushed.
proof fn lemma_toks_view_push(s: Seq<Tok>, x: Tok)
    ensures
        toks_view(s.push(x)) == toks_view(s).push(x@),
{
    assert(s.push(x).drop_last() =~= s);
}

/// The tokens of lexemes, as [`toks_from`] states.
pub fn toks_of(ls: &Vec<Lexeme>) -> (r: Vec<Tok>)
    ensures
        toks_view(r@) == toks_from(lexemes_view(ls@)),
    decreases ls,
{
    proof {
        lemma_lexemes_view(ls@);
    }
    let ghost lv = lexemes_view(ls@);
    let mut out: Vec<Tok> = Vec::new();
    let mut i: usize = 0;
    assert(toks_view(out@) =~= Seq::<TokV>::empty());
    assert(lv.subrange(0, 0) =~= Seq::<LexemeV>::empty());
    while i < ls.len()
        invariant
            i <= ls.len(),
            lv == lexemes_view(ls@),
            lv.len() == ls.len(),
            forall|j: int| 0 <= j < ls.len() ==> #[trigger] lv[j] == ls@[j]@,
            toks_view(out@) == toks_from(lv.subrange(0, i as int)),
        decreases ls.len() - i,
    {
        let tok = match &ls[i] {
            Lexeme::Ident(s) => Tok::Ident(s.clone()),
            Lexeme::Punct(c) => Tok::Punct(*c),
            Lexeme::Literal(s) => Tok::Literal(literal_kind(s)),
            Lexeme::Group(d, inner) => {
                Tok::Group(*d, toks_of(inner))
            },
        };
        assert(tok@ == tok_from(lv[i as int]));
        proof {
            lemma_toks_view_push(out@, tok);
            assert(lv.subrange(0, i + 1).subrange(0, i as int) =~= lv.subrange(0, i as int));
            assert(lv.subrange(0, i + 1)[i as int] == lv[i as int]);
        }
        out.push(tok);
        i = i + 1;
    }
    assert(lv.subrange(0, i as int) =~= lv);
    out
}

/// The text that the inside of one `@[...]` in a string welds into, given the outcome of lexing
/// it: parsed and built, whatever the render type.
pub open spec fn text_welded(lx: Option<Seq<LexemeV>>) -> Result<Seq<char>, WeldError> {
    match lexed(lx) {
        Err(e) => Err(e),
        Ok(ts) => match parsed(ts) {
            Err(e) => Err(WeldError::Dsl(e)),
            Ok(dsl) => match built_string(dsl.parts) {
                None => Err(WeldError::BuildFailed),
                Some(t) => Ok(t),
            },
        },
    }
}

/// Welds the inside of one `@[...]` of a string from the outcome of lexing it, as
/// [`text_welded`] states.
pub fn weld_lexed(lx: Option<Vec<Lexeme>>) -> (r: Result<Vec<char>, WeldError>)
    ensures
        text_view(r) == text_welded(lexing_view(lx)),
{
    let ts = match lx {
        None => return Err(WeldError::InvalidTokens),
        Some(trees) => toks_of(&trees),
    };
    match TweldDsl::parse(&ts) {
        Err(e) => Err(WeldError::Dsl(e)),
        Ok(dsl) => match try_build_string(&dsl.tokens) {
            None => Err(WeldError::BuildFailed),
            Some(text) => Ok(chars_of(text.as_str())),
        },
    }
}

/// What welding the inside of one `@[...]` of a string can give: what [`text_welded`] gives
/// for some outcome of lexing it. Which outcome depends on where the code runs.
pub open spec fn segment_welds(r: Result<Seq<char>, WeldError>) -> bool {
    exists|lx: Option<Seq<LexemeV>>| r == #[trigger] text_welded(lx)
}

/// What welding the text `inner` between `@[` and its `]` in a string can give: what
/// [`text_welded`] gives for an outcome of lexing exactly that text, one that [`lexes_words`]
/// allows for it.
pub open spec fn segment_of(inner: Seq<char>, r: Result<Seq<char>, WeldError>) -> bool {
    exists|lx: Option<Seq<LexemeV>>| lexes_words(inner, lx) && r == #[trigger] text_welded(lx)
}

/// Welds the inside of one `@[...]` of a string: lexes it with `proc_macro2` and welds what
/// came back, as [`segment_welds`] and [`segment_of`] state.
fn weld_inner(inner: &Vec<char>) -> (r: Result<Vec<char>, WeldError>)
    ensures
        segment_welds(text_view(r)),
        segment_of(inner@, text_view(r)),
{
    let lx = lex_stream(inner);
    let ghost lv = lexing_view(lx);
    let r = weld_lexed(lx);
    assert(text_view(r) == text_welded(lv));
    assert(lexes_words(inner@, lv));
    r
}

/// The index of the `]` that closes a bracket opened before `pos`, where `depth` brackets
/// opened since are still open.
pub open spec fn close_of(s: Seq<char>, pos: int, depth: nat) -> Option<int>
    decreases s.len() - pos,
{
    if pos < 0 || pos >= s.len() {
        None
    } else if s[pos] == ']' {
        if depth == 0 {
            Some(pos)
        } else {
            close_of(s, pos + 1, (depth - 1) as nat)
        }
    } else if s[pos] == '[' {
        close_of(s, pos + 1, depth + 1)
    } else {
        close_of(s, pos + 1, depth)
    }
}

/// Finds the `]` that closes the bracket opened just before `from`, as [`close_of`] states.
fn find_close(s: &Vec<char>, from: usize) -> (r: Option<usize>)
    requires
        from <= s.len(),
    ensures
        match r {
            Some(j) => close_of(s@, from as int, 0) == Some(j as int),
            None => close_of(s@, from as int, 0) is None,
        },
{
    let mut k: usize = from;
    let mut depth: usize = 0;
    while k < s.len()
        invariant
            from <= k <= s.len(),
            depth <= k,
            close_of(s@, from as int, 0) == close_of(s@, k as int, depth as nat),
        decreases s.len() - k,
    {
        if s[k] == ']' {
            if depth == 0 {
                return Some(k);
            }
            depth = depth - 1;
        } else if s[k] == '[' {
            depth = depth + 1;
        }
        k = k + 1;
    }
    None
}

/// A text in front of a result that is a text; an error stays.
pub open spec fn prefixed(t: Seq<char>, rest: Result<Seq<char>, WeldError>) -> Result<Seq<char>, WeldError> {
    match rest {
        Ok(x) => Ok(t + x),
        Err(e) => Err(e),
    }
}

/// The first of the results `ws` for the `@[...]` of a string, or `InvalidTokens` where none
/// is left.
pub open spec fn first_segment(ws: Seq<Result<Seq<char>, WeldError>>) -> Result<Seq<char>, WeldError> {
    if ws.len() > 0 {
        ws[0]
    } else {
        Err(WeldError::InvalidTokens)
    }
}

/// The elements after the first.
pub open spec fn after_first<A>(ws: Seq<A>) -> Seq<A> {
    if ws.len() > 0 {
        ws.skip(1)
    } else {
        ws
    }
}

/// The text of a string from `pos` on, where its `@[...]` (each up to its matching `]`) weld
/// into the results `ws`, in order, and every other character is kept. A `@[` without a
/// matching `]` stays as it is. The first failure, from the left, is the result.
pub open spec fn interpolated(s: Seq<char>, pos: int, ws: Seq<Result<Seq<char>, WeldError>>) -> Result<Seq<char>, WeldError>
    decreases s.len() - pos,
{
    if pos < 0 || pos >= s.len() {
        Ok(seq![])
    } else {
        let c = close_of(s, pos + 2, 0);
        if s[pos] == '@' && pos + 1 < s.len() && s[pos + 1] == '[' && c is Some && pos + 2 <= c->0
            < s.len() {
            match first_segment(ws) {
                Err(e) => Err(e),
                Ok(t) => prefixed(t, interpolated(s, c->0 + 1, after_first(ws))),
            }
        } else {
            prefixed(seq![s[pos]], interpolated(s, pos + 1, ws))
        }
    }
}

/// Whether the results `ws` fit the `@[...]` of a string from `pos` on, in the order in which
/// [`interpolated`] takes them: each one that is taken is what [`segment_of`] allows for the
/// text between its `@[` and its `]`.
pub open spec fn segments_fit(s: Seq<char>, pos: int, ws: Seq<Result<Seq<char>, WeldError>>) -> bool
    decreases s.len() - pos,
{
    if pos < 0 || pos >= s.len() {
        true
    } else {
        let c = close_of(s, pos + 2, 0);
        if s[pos] == '@' && pos + 1 < s.len() && s[pos + 1] == '[' && c is Some && pos + 2 <= c->0
            < s.len() {
            ws.len() > 0 && segment_of(s.subrange(pos + 2, c->0), ws[0]) && (ws[0] is Ok ==> segments_fit(
                s,
                c->0 + 1,
                ws.skip(1),
            ))
        } else {
            segments_fit(s, pos + 1, ws)
        }
    }
}

/// What welding a string can give: [`interpolated`] with some results for its `@[...]`, each
/// one that [`segment_welds`] allows, and each taken one what [`segment_of`] allows for its
/// text ([`segments_fit`]).
pub open spec fn interpolates(s: Seq<char>, r: Result<Seq<char>, WeldError>) -> bool {
    exists|ws: Seq<Result<Seq<char>, WeldError>>|
        (forall|k: int| 0 <= k < ws.len() ==> segment_welds(#[trigger] ws[k])) && segments_fit(s, 0, ws)
            && #[trigger] interpolated(s, 0, ws) == r
}

/// A closing bracket is found at or after `pos`, inside the text.
proof fn lemma_close_of_bounds(s: Seq<char>, pos: int, depth: nat)
    ensures
        close_of(s, pos, depth) matches Some(j) ==> pos <= j < s.len(),
    decreases s.len() - pos,
{
    if 0 <= pos < s.len() {
        if s[pos] == ']' {
            if depth > 0 {
                lemma_close_of_bounds(s, pos + 1, (depth - 1) as nat);
            }
        } else if s[pos] == '[' {
            lemma_close_of_bounds(s, pos + 1, depth + 1);
        } else {
            lemma_close_of_bounds(s, pos + 1, depth);
        }
    }
}

/// Welds each `@[...]` in a text, as [`interpolates`] states.
pub fn weld_text(s: &Vec<char>) -> (r: Result<Vec<char>, WeldError>)
    ensures
        interpolates(s@, text_view(r)),
{
    let mut out: Vec<char> = Vec::new();
    let mut pos: usize = 0;
    let ghost mut ws: Seq<Result<Seq<char>, WeldError>> = seq![];
    assert forall|tail: Seq<Result<Seq<char>, WeldError>>| #[trigger] interpolated(s@, 0, ws + tail) == prefixed(
        out@,
        interpolated(s@, 0, tail),
    ) by {
        assert(ws + tail =~= tail);
        let r = interpolated(s@, 0, tail);
        if r is Ok {
            assert(out@ + r->Ok_0 =~= r->Ok_0);
        }
    }
    assert forall|tail: Seq<Result<Seq<char>, WeldError>>| #[trigger] segments_fit(s@, 0, tail) implies segments_fit(
        s@,
        0,
        ws + tail,
    ) by {
        assert(ws + tail =~= tail);
    }
    while pos < s.len()
        invariant
            pos <= s.len(),
            forall|k: int| 0 <= k < ws.len() ==> segment_welds(#[trigger] ws[k]),
            forall|tail: Seq<Result<Seq<char>, WeldError>>| #[trigger] segments_fit(s@, pos as int, tail) ==> segments_fit(
                s@,
                0,
                ws + tail,
            ),
            forall|tail: Seq<Result<Seq<char>, WeldError>>| #[trigger] interpolated(s@, 0, ws + tail) == prefixed(
                out@,
                interpolated(s@, pos as int, tail),
            ),
        decreases s.len() - pos,
    {
        let ghost before = out@;
        let ghost p = pos as int;
        let ghost ws0 = ws;
        let close = if s[pos] == '@' && pos + 1 < s.len() && s[pos + 1] == '[' {
            find_close(s, pos + 2)
        } else {
            None
        };
        proof {
            lemma_close_of_bounds(s@, pos + 2, 0);
        }
        match close {
            Some(j) => {
                let mut inner: Vec<char> = Vec::new();
                let mut k: usize = pos + 2;
                while k < j
                    invariant
                        pos + 2 <= k <= j,
                        j < s.len(),
                        inner@ == s@.subrange(pos + 2, k as int),
                    decreases j - k,
                {
                    inner.push(s[k]);
                    k = k + 1;
                }
                let w = weld_inner(&inner);
                let ghost wv = text_view(w);
                proof {
                    ws = ws0.push(wv);
                    assert forall|kk: int| 0 <= kk < ws.len() implies segment_welds(#[trigger] ws[kk]) by {
                        if kk < ws0.len() {
                            assert(ws[kk] == ws0[kk]);
                        }
                    }
                }
                let t = match w {
                    Err(e) => {
                        proof {
                            let tail = seq![wv];
                            assert(ws0 + tail =~= ws);
                            assert(first_segment(tail) == wv);
                            assert(interpolated(s@, p, tail) == Err::<Seq<char>, WeldError>(e));
                            assert(interpolated(s@, 0, ws0 + tail) == prefixed(before, interpolated(s@, p, tail)));
                            assert(interpolated(s@, 0, ws) == Err::<Seq<char>, WeldError>(e));
                            assert(segments_fit(s@, p, tail));
                            assert(segments_fit(s@, 0, ws));
                        }
                        return Err(e);
                    },
                    Ok(t) => t,
                };
                append_text(&mut out, &t);
                proof {
                    assert forall|tail: Seq<Result<Seq<char>, WeldError>>| #[trigger] interpolated(s@, 0, ws + tail) == prefixed(
                        out@,
                        interpolated(s@, j + 1, tail),
                    ) by {
                        let tail0 = seq![wv] + tail;
                        assert(ws0 + tail0 =~= ws + tail);
                        assert(after_first(tail0) =~= tail);
                        assert(first_segment(tail0) == wv);
                        assert(interpolated(s@, 0, ws0 + tail0) == prefixed(before, interpolated(s@, p, tail0)));
                        let rr = interpolated(s@, j + 1, tail);
                        if rr is Ok {
                            assert(before + (t@ + rr->Ok_0) =~= out@ + rr->Ok_0);
                        }
                    }
                    assert forall|tail: Seq<Result<Seq<char>, WeldError>>| #[trigger] segments_fit(s@, j + 1, tail) implies segments_fit(
                        s@,
                        0,
                        ws + tail,
                    ) by {
                        let tail0 = seq![wv] + tail;
                        assert(ws0 + tail0 =~= ws + tail);
                        assert(tail0.skip(1) =~= tail);
                        assert(tail0[0] == wv);
                        assert(segments_fit(s@, p, tail0));
                    }
                }
                pos = j + 1;
            },
            None => {
                out.push(s[pos]);
                proof {
                    assert forall|tail: Seq<Result<Seq<char>, WeldError>>| #[trigger] interpolated(s@, 0, ws + tail) == prefixed(
                        out@,
                        interpolated(s@, p + 1, tail),
                    ) by {
                        assert(interpolated(s@, 0, ws0 + tail) == prefixed(before, interpolated(s@, p, tail)));
                        let rr = interpolated(s@, p + 1, tail);
                        if rr is Ok {
                            assert(before + (seq![s@[p]] + rr->Ok_0) =~= out@ + rr->Ok_0);
                        }
                    }
                    assert forall|tail: Seq<Result<Seq<char>, WeldError>>| #[trigger] segments_fit(s@, p + 1, tail) implies segments_fit(
                        s@,
                        0,
                        ws + tail,
                    ) by {
                        assert(segments_fit(s@, p, tail));
                    }
                }
                pos = pos + 1;
            },
        }
    }
    proof {
        let tail = Seq::<Result<Seq<char>, WeldError>>::empty();
        assert(ws + tail =~= ws);
        assert(interpolated(s@, 0, ws + tail) == prefixed(out@, interpolated(s@, pos as int, tail)));
        assert(out@ + Seq::<char>::empty() =~= out@);
        assert(interpolated(s@, 0, ws) == text_view(Ok::<Vec<char>, WeldError>(out)));
        assert(segments_fit(s@, pos as int, tail));
        assert(segments_fit(s@, 0, ws));
    }
    Ok(out)
}

/// Welds each `@[...]` in the value of a string literal, as [`interpolates`] states.
pub fn weld_string(s: &String) -> (r: Result<String, WeldError>)
    ensures
        interpolates(
            s@,
            match r {
                Ok(t) => Ok(t@),
                Err(e) => Err(e),
            },
        ),
{
    let chars = chars_of(s.as_str());
    match weld_text(&chars) {
        Err(e) => Err(e),
        Ok(t) => Ok(string_of(&t)),
    }
}

} // verus!
