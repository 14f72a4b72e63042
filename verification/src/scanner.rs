//! Scanning token trees for `@[...]` and welding each into an identifier or a string literal.
use vstd::prelude::*;

use crate::builder::{built_string, try_build_string};
use crate::models::parts_view;
use crate::parser::{DslError, RenderType, TweldDsl, dsl_message, dsl_message_of, parsed};
use crate::text::{chars_of, replace_all, replace_text, string_of};
use crate::literals::{Lexeme, after_first, interpolates, lexemes_view, toks_from, toks_of, weld_string};
use crate::tokens::{Delimiter, LitKind, LitV, Tok, TokV, lemma_toks_view, toks_view};

verus! {

/// Whether a text is a run of ASCII letters, digits and `_`.
pub open spec fn ascii_word(t: Seq<char>) -> bool {
    t.len() > 0 && forall|i: int|
        0 <= i < t.len() ==> {
            let n = #[trigger] t[i] as u32;
            (48 <= n <= 57) || (65 <= n <= 90) || (97 <= n <= 122) || n == 95
        }
}

/// Whether a text is an identifier of ASCII letters, digits and `_`, plain or in raw form
/// `r#...`: one whose text every lexer reads unchanged.
pub open spec fn ascii_ident_text(t: Seq<char>) -> bool {
    ascii_word(t) || (t.len() > 2 && t[0] == 'r' && t[1] == '#' && ascii_word(t.skip(2)))
}

/// What `syn::parse_str::<syn::Ident>` can give for a text `t`, wherever the code runs: where
/// `t` is an identifier of ASCII letters, digits and `_` (plain or raw), an identifier it
/// gives has the text `t`. Whether it accepts a text, and the text of an identifier with other
/// characters, depend on where the code runs (inside a procedural macro the compiler's lexer
/// normalizes identifiers to NFC).
pub open spec fn ident_answer(t: Seq<char>, a: Option<Seq<char>>) -> bool {
    match a {
        Some(i) => ascii_ident_text(t) ==> i == t,
        None => true,
    }
}

/// Parses a text with `syn::parse_str::<syn::Ident>` and gives the identifier's text
/// (`Ident::to_string`); the contract claims what [`ident_answer`] states, which holds of both
/// lexers that `proc_macro2` may use.
#[verifier::external_body]
fn ident_of(t: &Vec<char>) -> (r: Option<String>)
    ensures
        ident_answer(
            t@,
            match r {
                Some(i) => Some(i@),
                None => None,
            },
        ),
{
    let s: String = t.iter().collect();
    syn::parse_str::<syn::Ident>(&s).ok().map(|i| i.to_string())
}

/// Why a scan failed.
#[derive(Debug, PartialEq, Eq)]
pub enum WeldError {
    /// The naming language inside some `@[...]` was refused.
    Dsl(DslError),
    /// The text of some `@[...]` is no identifier, in plain or in raw form.
    InvalidIdent,
    /// Building the text of some `@[...]` failed: an out-of-range `substr` or `splitat`, a
    /// splice beyond the end, an empty padding pattern, or an overflow.
    BuildFailed,
    /// The inside of some `@[...]` in a string literal is no sequence of token trees.
    InvalidTokens,
}

/// The message that a failed scan is reported with; `None` for `BuildFailed`, which is
/// reported by panicking. An identifier that is none is reported as `syn` reports it when the
/// text is no identifier at all; a text that does not lex, as `proc_macro2` reports it.
pub open spec fn weld_message_of(e: WeldError) -> Option<Seq<char>> {
    match e {
        WeldError::Dsl(d) => Some(dsl_message_of(d)),
        WeldError::InvalidIdent => Some("expected identifier"@),
        WeldError::InvalidTokens => Some("cannot parse string into token stream"@),
        WeldError::BuildFailed => None,
    }
}

/// The message that a failed scan is reported with, as [`weld_message_of`] states.
pub fn weld_message(e: &WeldError) -> (r: Option<String>)
    ensures
        match r {
            Some(m) => weld_message_of(*e) == Some(m@),
            None => weld_message_of(*e) is None,
        },
{
    match e {
        WeldError::Dsl(d) => Some(dsl_message(d)),
        WeldError::InvalidIdent => Some(string_of(&chars_of("expected identifier"))),
        WeldError::InvalidTokens => Some(string_of(&chars_of("cannot parse string into token stream"))),
        WeldError::BuildFailed => None,
    }
}

/// What the scan makes of one token tree of the input.
pub enum Scanned {
    /// The input token at this index, unchanged.
    Keep(usize),
    /// The input group at this index, its tokens scanned in turn.
    Group(usize, Vec<Scanned>),
    /// An `@[...]` welded into this identifier.
    Ident(String),
    /// An `@[...]` welded into a string literal of this value.
    Str(String),
    /// The string literal at this index, its value welded into this one.
    Text(usize, String),
}

/// The mathematical form of a [`Scanned`].
pub enum ScannedV {
    Keep(usize),
    Group(usize, Seq<ScannedV>),
    Ident(Seq<char>),
    Str(Seq<char>),
    Text(usize, Seq<char>),
}

impl View for Scanned {
    type V = ScannedV;

    open spec fn view(&self) -> ScannedV
        decreases self,
    {
        match self {
            Scanned::Keep(i) => ScannedV::Keep(*i),
            Scanned::Group(i, s) => ScannedV::Group(*i, scanned_view(s@)),
            Scanned::Ident(t) => ScannedV::Ident(t@),
            Scanned::Str(t) => ScannedV::Str(t@),
            Scanned::Text(i, t) => ScannedV::Text(*i, t@),
        }
    }
}

/// The views of a sequence of scanned items.
pub open spec fn scanned_view(s: Seq<Scanned>) -> Seq<ScannedV>
    decreases s,
{
    if s.len() == 0 {
        seq![]
    } else {
        scanned_view(s.drop_last()).push(s.last().view())
    }
}

/// The views of scanned items with one more pushed.
proof fn lemma_scanned_view_push(s: Seq<Scanned>, x: Scanned)
    ensures
        scanned_view(s.push(x)) == scanned_view(s).push(x@),
{
    assert(s.push(x).drop_last() =~= s);
}

/// The identifier rendered from what `syn` gave for a welded text without its spaces
/// (`plain`) and, where that is `None`, for that text in raw form (`raw`); `InvalidIdent` where
/// neither is an identifier.
pub open spec fn rendered_from(plain: Option<Seq<char>>, raw: Option<Seq<char>>) -> Result<ScannedV, WeldError> {
    match plain {
        Some(i) => Ok(ScannedV::Ident(i)),
        None => match raw {
            Some(i) => Ok(ScannedV::Ident(i)),
            None => Err(WeldError::InvalidIdent),
        },
    }
}

/// What rendering a welded text as an identifier can give: [`rendered_from`] the answers that
/// `syn` may give, as [`ident_answer`] states, for the text without its spaces and for that
/// text in raw form.
pub open spec fn renders_ident(text: Seq<char>, r: Result<ScannedV, WeldError>) -> bool {
    let t = replace_all(text, seq![' '], seq![]);
    exists|p: Option<Seq<char>>, q: Option<Seq<char>>|
        ident_answer(t, p) && ident_answer(seq!['r', '#'] + t, q) && r == #[trigger] rendered_from(p, q)
}

/// What a weld or a string literal got from the outside calls while scanning: for a text to
/// render as an identifier, what `syn` gave for it and for its raw form; for the value of a
/// string literal, what welding it gave.
pub enum Answer {
    Ident(Seq<char>, Option<Seq<char>>, Option<Seq<char>>),
    Text(Seq<char>, Result<Seq<char>, WeldError>),
}

/// Whether an answer is one that the outside calls can give, as [`ident_answer`] and
/// [`interpolates`] state.
pub open spec fn answer_ok(a: Answer) -> bool {
    match a {
        Answer::Ident(t, p, q) => ident_answer(t, p) && ident_answer(seq!['r', '#'] + t, q),
        Answer::Text(v, w) => interpolates(v, w),
    }
}

/// What one `@[...]` with the tokens `inner` welds into, given the answer `a`, and whether the
/// answer fits: the parsed pieces are built into a text, which is a string literal where some
/// literal stood among the words, and otherwise the identifier [`rendered_from`] the answers
/// for the text without its spaces.
pub open spec fn weld_item(inner: Seq<TokV>, a: Answer) -> (Result<ScannedV, WeldError>, bool) {
    match parsed(inner) {
        Err(e) => (Err(WeldError::Dsl(e)), true),
        Ok(dsl) => match built_string(dsl.parts) {
            None => (Err(WeldError::BuildFailed), true),
            Some(text) => if dsl.literal {
                (Ok(ScannedV::Str(text)), true)
            } else {
                match a {
                    Answer::Ident(t, p, q) => (
                        rendered_from(p, q),
                        t == replace_all(text, seq![' '], seq![]) && answer_ok(a),
                    ),
                    _ => (Err(WeldError::InvalidIdent), false),
                }
            },
        },
    }
}

/// What one `@[...]` with the tokens `inner` can weld into: [`weld_item`] with an answer that
/// fits.
pub open spec fn welds(inner: Seq<TokV>, r: Result<ScannedV, WeldError>) -> bool {
    exists|a: Answer| #[trigger] weld_item(inner, a) == (r, true)
}

/// A scanned item in front of a scan result; an error stays.
pub open spec fn item_first(x: ScannedV, rest: Result<Seq<ScannedV>, WeldError>) -> Result<Seq<ScannedV>, WeldError> {
    match rest {
        Ok(s) => Ok(seq![x] + s),
        Err(e) => Err(e),
    }
}

/// Scanned items in front of a scan result; an error stays.
pub open spec fn items_first(xs: Seq<ScannedV>, rest: Result<Seq<ScannedV>, WeldError>) -> Result<Seq<ScannedV>, WeldError> {
    match rest {
        Ok(s) => Ok(xs + s),
        Err(e) => Err(e),
    }
}

/// The first answer, and whether there is one.
pub open spec fn first_answer(os: Seq<Answer>) -> (Answer, bool) {
    if os.len() > 0 {
        (os[0], true)
    } else {
        (Answer::Text(seq![], Err(WeldError::InvalidTokens)), false)
    }
}

/// The scan of the tokens from `pos` on, given the answers `os` in the order the scan meets its
/// welds and string literals; with the answers left over, and whether each answer taken fitted.
/// An `@` followed by `[...]` is welded as [`weld_item`] states, another group is scanned
/// inside, the value of a string literal is welded into the text its answer gives, and every
/// other token is kept. The first failure, from the left, is the result.
#[verifier::opaque]
pub open spec fn scanned(ts: Seq<TokV>, pos: int, os: Seq<Answer>) -> (Result<Seq<ScannedV>, WeldError>, Seq<Answer>, bool)
    decreases ts, ts.len() - pos,
{
    if pos < 0 || pos >= ts.len() {
        (Ok(seq![]), os, true)
    } else if ts[pos] == TokV::Punct('@') && pos + 1 < ts.len() && ts[pos + 1] is Group
        && ts[pos + 1]->Group_0 == Delimiter::Bracket {
        let (a, have) = first_answer(os);
        let (item, fit) = weld_item(ts[pos + 1]->Group_1, a);
        match item {
            Err(e) => (Err(e), after_first(os), have && fit),
            Ok(x) => {
                let (rr, os2, ok2) = scanned(ts, pos + 2, after_first(os));
                (item_first(x, rr), os2, have && fit && ok2)
            },
        }
    } else {
        match ts[pos] {
            TokV::Group(_, inner) => {
                let (g, os1, ok1) = scanned(inner, 0, os);
                match g {
                    Err(e) => (Err(e), os1, ok1),
                    Ok(sc) => {
                        let (rr, os2, ok2) = scanned(ts, pos + 1, os1);
                        (item_first(ScannedV::Group(pos as usize, sc), rr), os2, ok1 && ok2)
                    },
                }
            },
            TokV::Literal(LitV::Str(v)) => {
                let (a, have) = first_answer(os);
                let (w, fit) = match a {
                    Answer::Text(va, w) => (w, va == v && answer_ok(a)),
                    _ => (Err(WeldError::InvalidTokens), false),
                };
                match w {
                    Err(e) => (Err(e), after_first(os), have && fit),
                    Ok(t) => {
                        let (rr, os2, ok2) = scanned(ts, pos + 1, after_first(os));
                        (item_first(ScannedV::Text(pos as usize, t), rr), os2, have && fit && ok2)
                    },
                }
            },
            _ => {
                let (rr, os2, ok2) = scanned(ts, pos + 1, os);
                (item_first(ScannedV::Keep(pos as usize), rr), os2, ok2)
            },
        }
    }
}

/// What scanning tokens can give: [`scanned`] with answers, each one that the outside calls can
/// give and each fitting, taken exactly (whatever follows them is left over).
pub open spec fn scans(ts: Seq<TokV>, r: Result<Seq<ScannedV>, WeldError>) -> bool {
    exists|os: Seq<Answer>|
        #![trigger os.len()]
        os.len() >= 0 && forall|tail: Seq<Answer>| #[trigger] scanned(ts, 0, os + tail) == (r, tail, true)
}

/// Items in front of what a scan gives.
pub open spec fn scan_after(
    xs: Seq<ScannedV>,
    s: (Result<Seq<ScannedV>, WeldError>, Seq<Answer>, bool),
) -> (Result<Seq<ScannedV>, WeldError>, Seq<Answer>, bool) {
    (items_first(xs, s.0), s.1, s.2)
}

/// The mathematical form of what welding gives.
pub open spec fn item_view(r: Result<Scanned, WeldError>) -> Result<ScannedV, WeldError> {
    match r {
        Ok(x) => Ok(x@),
        Err(e) => Err(e),
    }
}

/// The mathematical form of what a scan gives.
pub open spec fn scan_view(r: Result<Vec<Scanned>, WeldError>) -> Result<Seq<ScannedV>, WeldError> {
    match r {
        Ok(out) => Ok(scanned_view(out@)),
        Err(e) => Err(e),
    }
}

/// The mathematical form of what `syn` gave for a text.
pub open spec fn answer_view(a: Option<String>) -> Option<Seq<char>> {
    match a {
        Some(i) => Some(i@),
        None => None,
    }
}

/// Renders an identifier from what `syn` gave for a welded text and for its raw form, as
/// [`rendered_from`] states.
pub fn render_answers(plain: Option<String>, raw: Option<String>) -> (r: Result<Scanned, WeldError>)
    ensures
        item_view(r) == rendered_from(answer_view(plain), answer_view(raw)),
{
    match plain {
        Some(i) => Ok(Scanned::Ident(i)),
        None => match raw {
            Some(i) => Ok(Scanned::Ident(i)),
            None => Err(WeldError::InvalidIdent),
        },
    }
}

/// Renders a welded text as an identifier: asks `syn` for the text without its spaces, and for
/// its raw form where that fails, as [`renders_ident`] states.
pub fn render_identifier(text: &String) -> (r: Result<Scanned, WeldError>)
    ensures
        renders_ident(text@, item_view(r)),
{
    let t = chars_of(text.as_str());
    let mut space: Vec<char> = Vec::new();
    space.push(' ');
    assert(space@ =~= seq![' ']);
    let empty: Vec<char> = Vec::new();
    let plain = replace_text(&t, &space, &empty);
    let mut raw: Vec<char> = Vec::new();
    raw.push('r');
    raw.push('#');
    crate::text::append_text(&mut raw, &plain);
    assert(raw@ =~= seq!['r', '#'] + plain@);
    let p = ident_of(&plain);
    let q = if p.is_some() {
        None
    } else {
        ident_of(&raw)
    };
    let ghost pv = answer_view(p);
    let ghost qv = answer_view(q);
    let r = render_answers(p, q);
    assert(ident_answer(plain@, pv) && ident_answer(raw@, qv) && item_view(r) == rendered_from(pv, qv));
    r
}

/// Welds the tokens inside one `@[...]`, as [`welds`] states.
pub fn weld_group(inner: &Vec<Tok>) -> (r: Result<Scanned, WeldError>)
    ensures
        welds(toks_view(inner@), item_view(r)),
{
    let ghost iv = toks_view(inner@);
    let ghost dummy = Answer::Text(seq![], Err(WeldError::InvalidTokens));
    match TweldDsl::parse(inner) {
        Err(e) => {
            assert(weld_item(iv, dummy) == (Err::<ScannedV, WeldError>(WeldError::Dsl(e)), true));
            Err(WeldError::Dsl(e))
        },
        Ok(dsl) => match try_build_string(&dsl.tokens) {
            None => {
                assert(weld_item(iv, dummy) == (Err::<ScannedV, WeldError>(WeldError::BuildFailed), true));
                Err(WeldError::BuildFailed)
            },
            Some(text) => if dsl.render_type == RenderType::StringLiteral {
                assert(weld_item(iv, dummy) == (Ok::<ScannedV, WeldError>(ScannedV::Str(text@)), true));
                Ok(Scanned::Str(text))
            } else {
                let r = render_identifier(&text);
                proof {
                    let u = replace_all(text@, seq![' '], seq![]);
                    let (p, q) = choose|p: Option<Seq<char>>, q: Option<Seq<char>>|
                        ident_answer(u, p) && ident_answer(seq!['r', '#'] + u, q) && item_view(r)
                            == #[trigger] rendered_from(p, q);
                    let a = Answer::Ident(u, p, q);
                    assert(weld_item(iv, a) == (item_view(r), true));
                }
                r
            },
        },
    }
}

/// A scan result after one step that gave `x` (or failed), from `p` on.
pub open spec fn step_then(
    item: Result<ScannedV, WeldError>,
    fit: bool,
    next: (Result<Seq<ScannedV>, WeldError>, Seq<Answer>, bool),
    tail: Seq<Answer>,
) -> (Result<Seq<ScannedV>, WeldError>, Seq<Answer>, bool) {
    match item {
        Err(e) => (Err(e), tail, fit),
        Ok(x) => (item_first(x, next.0), next.1, fit && next.2),
    }
}

/// The scan at an `@` followed by `[...]` takes the first answer for the weld.
proof fn lemma_scan_weld(ts: Seq<TokV>, p: int, a: Answer, tail: Seq<Answer>)
    requires
        0 <= p,
        p + 1 < ts.len(),
        ts[p] == TokV::Punct('@'),
        ts[p + 1] is Group,
        ts[p + 1]->Group_0 == Delimiter::Bracket,
    ensures
        scanned(ts, p, seq![a] + tail) == step_then(
            weld_item(ts[p + 1]->Group_1, a).0,
            weld_item(ts[p + 1]->Group_1, a).1,
            scanned(ts, p + 2, tail),
            tail,
        ),
{
    reveal(scanned);
    let os = seq![a] + tail;
    assert(after_first(os) =~= tail);
    assert(first_answer(os) == (a, true));
}

/// The scan at a group scans inside it first.
proof fn lemma_scan_group(ts: Seq<TokV>, p: int, gos: Seq<Answer>, tail: Seq<Answer>, g: Result<Seq<ScannedV>, WeldError>)
    requires
        0 <= p < ts.len(),
        ts[p] is Group,
        scanned(ts[p]->Group_1, 0, gos + tail) == (g, tail, true),
    ensures
        scanned(ts, p, gos + tail) == step_then(
            match g {
                Ok(sc) => Ok(ScannedV::Group(p as usize, sc)),
                Err(e) => Err(e),
            },
            true,
            scanned(ts, p + 1, tail),
            tail,
        ),
{
    reveal(scanned);
}

/// The scan at a string literal takes the first answer for its value.
proof fn lemma_scan_text(ts: Seq<TokV>, p: int, v: Seq<char>, w: Result<Seq<char>, WeldError>, tail: Seq<Answer>)
    requires
        0 <= p < ts.len(),
        ts[p] == TokV::Literal(LitV::Str(v)),
        answer_ok(Answer::Text(v, w)),
    ensures
        scanned(ts, p, seq![Answer::Text(v, w)] + tail) == step_then(
            match w {
                Ok(t) => Ok(ScannedV::Text(p as usize, t)),
                Err(e) => Err(e),
            },
            true,
            scanned(ts, p + 1, tail),
            tail,
        ),
{
    reveal(scanned);
    let os = seq![Answer::Text(v, w)] + tail;
    assert(after_first(os) =~= tail);
    assert(first_answer(os) == (Answer::Text(v, w), true));
}

/// The scan keeps any other token.
proof fn lemma_scan_keep(ts: Seq<TokV>, p: int, tail: Seq<Answer>)
    requires
        0 <= p < ts.len(),
        !(ts[p] == TokV::Punct('@') && p + 1 < ts.len() && ts[p + 1] is Group && ts[p + 1]->Group_0
            == Delimiter::Bracket),
        !(ts[p] is Group),
        !(ts[p] is Literal && ts[p]->Literal_0 is Str),
    ensures
        scanned(ts, p, tail) == step_then(
            Ok::<ScannedV, WeldError>(ScannedV::Keep(p as usize)),
            true,
            scanned(ts, p + 1, tail),
            tail,
        ),
{
    reveal(scanned);
}

/// The scan from the end gives nothing and takes no answer.
proof fn lemma_scan_end(ts: Seq<TokV>, tail: Seq<Answer>)
    ensures
        scanned(ts, ts.len() as int, tail) == (Ok::<Seq<ScannedV>, WeldError>(seq![]), tail, true),
{
    reveal(scanned);
}

/// Scans token trees for `@[...]`, as [`scans`] states: each is welded into an identifier or a
/// string literal, other groups are scanned inside, each `@[...]` in the value of a string
/// literal is welded, and every other token is kept.
pub fn scan_tokens(ts: &Vec<Tok>) -> (r: Result<Vec<Scanned>, WeldError>)
    ensures
        scans(toks_view(ts@), scan_view(r)),
    decreases ts@,
{
    proof {
        lemma_toks_view(ts@);
    }
    let ghost tv = toks_view(ts@);
    let mut out: Vec<Scanned> = Vec::new();
    let mut pos: usize = 0;
    let ghost mut os: Seq<Answer> = seq![];
    assert forall|tail: Seq<Answer>| #[trigger] scanned(tv, 0, os + tail) == scan_after(
        scanned_view(out@),
        scanned(tv, 0, tail),
    ) by {
        assert(os + tail =~= tail);
        let s0 = scanned(tv, 0, tail);
        if s0.0 is Ok {
            assert(scanned_view(out@) + s0.0->Ok_0 =~= s0.0->Ok_0);
        }
    }
    while pos < ts.len()
        invariant
            pos <= ts.len(),
            tv == toks_view(ts@),
            tv.len() == ts.len(),
            forall|i: int| 0 <= i < ts.len() ==> #[trigger] tv[i] == ts@[i]@,
            forall|tail: Seq<Answer>| #[trigger] scanned(tv, 0, os + tail) == scan_after(
                scanned_view(out@),
                scanned(tv, pos as int, tail),
            ),
        decreases ts.len() - pos,
    {
        let ghost before = scanned_view(out@);
        let ghost p = pos as int;
        let ghost os0 = os;
        let is_at = match &ts[pos] {
            Tok::Punct(c) => *c == '@',
            _ => false,
        };
        let bracket: Option<&Vec<Tok>> = if is_at && pos + 1 < ts.len() {
            match &ts[pos + 1] {
                Tok::Group(Delimiter::Bracket, inner) => Some(inner),
                _ => None,
            }
        } else {
            None
        };
        proof {
            assert(tv[p] == ts@[p]@);
            if p + 1 < tv.len() {
                assert(tv[p + 1] == ts@[p + 1]@);
            }
        }
        let ghost taken: Seq<Answer>;
        let ghost res: Result<ScannedV, WeldError>;
        let mut step: usize = 1;
        let item: Scanned = match bracket {
            Some(inner) => {
                let w = weld_group(inner);
                let ghost a = choose|a: Answer| #[trigger] weld_item(toks_view(inner@), a) == (item_view(w), true);
                proof {
                    taken = seq![a];
                    res = item_view(w);
                    assert forall|tail: Seq<Answer>| #[trigger] scanned(tv, p, taken + tail) == step_then(
                        res,
                        true,
                        scanned(tv, p + 2, tail),
                        tail,
                    ) by {
                        lemma_scan_weld(tv, p, a, tail);
                    }
                }
                step = 2;
                match w {
                    Err(e) => {
                        proof {
                            os = os0 + taken;
                            assert forall|tail: Seq<Answer>| #[trigger] scanned(tv, 0, os + tail) == (
                                Err::<Seq<ScannedV>, WeldError>(e),
                                tail,
                                true,
                            ) by {
                                assert(os0 + (taken + tail) =~= os + tail);
                                assert(scanned(tv, 0, os0 + (taken + tail)) == scan_after(
                                    before,
                                    scanned(tv, p, taken + tail),
                                ));
                            }
                            assert(os.len() >= 0);
                            assert(scans(tv, Err::<Seq<ScannedV>, WeldError>(e)));
                        }
                        return Err(e);
                    },
                    Ok(x) => x,
                }
            },
            None => {
                match &ts[pos] {
                    Tok::Group(_, inner) => {
                        let g = scan_tokens(inner);
                        proof {
                            assert(scans(toks_view(inner@), scan_view(g)));
                        }
                        let ghost gos = choose|os: Seq<Answer>|
                            #![trigger os.len()]
                            os.len() >= 0 && forall|tail: Seq<Answer>| #[trigger] scanned(toks_view(inner@), 0, os + tail) == (
                                scan_view(g),
                                tail,
                                true,
                            );
                        proof {
                            taken = gos;
                            res = match scan_view(g) {
                                Ok(sc) => Ok(ScannedV::Group(p as usize, sc)),
                                Err(e) => Err(e),
                            };
                            assert forall|tail: Seq<Answer>| #[trigger] scanned(tv, p, taken + tail) == step_then(
                                res,
                                true,
                                scanned(tv, p + 1, tail),
                                tail,
                            ) by {
                                assert(scanned(toks_view(inner@), 0, gos + tail) == (scan_view(g), tail, true));
                                lemma_scan_group(tv, p, gos, tail, scan_view(g));
                            }
                        }
                        match g {
                            Err(e) => {
                                proof {
                                    os = os0 + taken;
                                    assert forall|tail: Seq<Answer>| #[trigger] scanned(tv, 0, os + tail) == (
                                        Err::<Seq<ScannedV>, WeldError>(e),
                                        tail,
                                        true,
                                    ) by {
                                        assert(os0 + (taken + tail) =~= os + tail);
                                        assert(scanned(tv, 0, os0 + (taken + tail)) == scan_after(
                                            before,
                                            scanned(tv, p, taken + tail),
                                        ));
                                    }
                                    assert(os.len() >= 0);
                                    assert(scans(tv, Err::<Seq<ScannedV>, WeldError>(e)));
                                }
                                return Err(e);
                            },
                            Ok(sc) => Scanned::Group(pos, sc),
                        }
                    },
                    Tok::Literal(LitKind::Str(v)) => {
                        let w = weld_string(v);
                        let ghost wv = match &w {
                            Ok(t) => Ok::<Seq<char>, WeldError>(t@),
                            Err(e) => Err::<Seq<char>, WeldError>(*e),
                        };
                        let ghost a = Answer::Text(v@, wv);
                        proof {
                            taken = seq![a];
                            res = match wv {
                                Ok(t) => Ok(ScannedV::Text(p as usize, t)),
                                Err(e) => Err(e),
                            };
                            assert(answer_ok(a));
                            assert forall|tail: Seq<Answer>| #[trigger] scanned(tv, p, taken + tail) == step_then(
                                res,
                                true,
                                scanned(tv, p + 1, tail),
                                tail,
                            ) by {
                                lemma_scan_text(tv, p, v@, wv, tail);
                            }
                        }
                        match w {
                            Err(e) => {
                                proof {
                                    os = os0 + taken;
                                    assert forall|tail: Seq<Answer>| #[trigger] scanned(tv, 0, os + tail) == (
                                        Err::<Seq<ScannedV>, WeldError>(e),
                                        tail,
                                        true,
                                    ) by {
                                        assert(os0 + (taken + tail) =~= os + tail);
                                        assert(scanned(tv, 0, os0 + (taken + tail)) == scan_after(
                                            before,
                                            scanned(tv, p, taken + tail),
                                        ));
                                    }
                                    assert(os.len() >= 0);
                                    assert(scans(tv, Err::<Seq<ScannedV>, WeldError>(e)));
                                }
                                return Err(e);
                            },
                            Ok(t) => Scanned::Text(pos, t),
                        }
                    },
                    _ => {
                        proof {
                            taken = seq![];
                            res = Ok(ScannedV::Keep(p as usize));
                            assert forall|tail: Seq<Answer>| #[trigger] scanned(tv, p, taken + tail) == step_then(
                                res,
                                true,
                                scanned(tv, p + 1, tail),
                                tail,
                            ) by {
                                assert(taken + tail =~= tail);
                                lemma_scan_keep(tv, p, tail);
                            }
                        }
                        Scanned::Keep(pos)
                    },
                }
            },
        };
        proof {
            assert(res == Ok::<ScannedV, WeldError>(item@));
            lemma_scanned_view_push(out@, item);
        }
        let ghost iv = item@;
        out.push(item);
        proof {
            os = os0 + taken;
            assert forall|tail: Seq<Answer>| #[trigger] scanned(tv, 0, os + tail) == scan_after(
                scanned_view(out@),
                scanned(tv, p + step, tail),
            ) by {
                assert(os0 + (taken + tail) =~= os + tail);
                assert(scanned(tv, 0, os0 + (taken + tail)) == scan_after(before, scanned(tv, p, taken + tail)));
                let rr = scanned(tv, p + step, tail).0;
                if rr is Ok {
                    assert(before + (seq![iv] + rr->Ok_0) =~= scanned_view(out@) + rr->Ok_0);
                }
            }
        }
        pos = pos + step;
    }
    proof {
        assert forall|tail: Seq<Answer>| #[trigger] scanned(tv, 0, os + tail) == (
            Ok::<Seq<ScannedV>, WeldError>(scanned_view(out@)),
            tail,
            true,
        ) by {
            lemma_scan_end(tv, tail);
            assert(scanned_view(out@) + Seq::<ScannedV>::empty() =~= scanned_view(out@));
        }
        assert(os.len() >= 0);
    }
    Ok(out)
}

/// Reads the literals of token trees with `syn` and scans them, as [`scans`] states of the
/// tokens that [`toks_from`] gives.
pub fn scan_source(ls: &Vec<Lexeme>) -> (r: Result<Vec<Scanned>, WeldError>)
    ensures
        scans(toks_from(lexemes_view(ls@)), scan_view(r)),
{
    let ts = toks_of(ls);
    scan_tokens(&ts)
}

} // verus!
