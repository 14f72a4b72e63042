//! The tokens of the naming language, as plain values.
use vstd::prelude::*;

verus! {

/// How a group of tokens is delimited.
#[derive(Debug, Clone, Copy, PartialEq, Eq, Structural)]
pub enum Delimiter {
    Parenthesis,
    Brace,
    Bracket,
    /// An invisible group, as macro expansion leaves one round a captured fragment.
    Invisible,
}

/// A literal token, as the parser reads it.
#[derive(Debug)]
pub enum LitKind {
    /// A string literal, by its value (escapes resolved).
    Str(String),
    /// A character literal, by its value.
    Char(char),
    /// An integer literal, by its decimal digits (without suffix or sign).
    Int(String),
    /// A floating-point literal.
    Float,
    /// Any other literal (byte, byte string, C string).
    Other,
}

/// One token tree.
#[derive(Debug)]
pub enum Tok {
    /// An identifier by its text; a raw identifier keeps its `r#`.
    Ident(String),
    /// A punctuation character.
    Punct(char),
    Literal(LitKind),
    Group(Delimiter, Vec<Tok>),
}

/// The mathematical form of a [`LitKind`].
pub enum LitV {
    Str(Seq<char>),
    Char(char),
    Int(Seq<char>),
    Float,
    Other,
}

/// The mathematical form of a [`Tok`].
pub enum TokV {
    Ident(Seq<char>),
    Punct(char),
    Literal(LitV),
    Group(Delimiter, Seq<TokV>),
}

impl View for LitKind {
    type V = LitV;

    open spec fn view(&self) -> LitV {
        match self {
            LitKind::Str(s) => LitV::Str(s@),
            LitKind::Char(c) => LitV::Char(*c),
            LitKind::Int(d) => LitV::Int(d@),
            LitKind::Float => LitV::Float,
            LitKind::Other => LitV::Other,
        }
    }
}

impl View for Tok {
    type V = TokV;

    open spec fn view(&self) -> TokV
        decreases self,
    {
        match self {
            Tok::Ident(s) => TokV::Ident(s@),
            Tok::Punct(c) => TokV::Punct(*c),
            Tok::Literal(l) => TokV::Literal(l@),
            Tok::Group(d, ts) => TokV::Group(*d, toks_view(ts@)),
        }
    }
}

/// The views of a sequence of tokens.
pub open spec fn toks_view(ts: Seq<Tok>) -> Seq<TokV>
    decreases ts,
{
    if ts.len() == 0 {
        seq![]
    } else {
        toks_view(ts.drop_last()).push(ts.last().view())
    }
}

/// The views of a sequence of tokens, element by element.
pub proof fn lemma_toks_view(ts: Seq<Tok>)
    ensures
        toks_view(ts).len() == ts.len(),
        forall|i: int| 0 <= i < ts.len() ==> #[trigger] toks_view(ts)[i] == ts[i]@,
    decreases ts.len(),
{
    if ts.len() > 0 {
        lemma_toks_view(ts.drop_last());
        assert(toks_view(ts) == toks_view(ts.drop_last()).push(ts.last().view()));
        assert forall|i: int| 0 <= i < ts.len() implies #[trigger] toks_view(ts)[i] == ts[i]@ by {
            if i < ts.len() - 1 {
                assert(toks_view(ts.drop_last())[i] == ts.drop_last()[i]@);
            }
        }
    }
}

/// The words that `syn` refuses as identifiers (`accept_as_ident` of `syn`): `_` and the
/// keywords of the language, strict and reserved.
pub open spec fn is_reserved(s: Seq<char>) -> bool {
    ||| s == "_"@ ||| s == "abstract"@ ||| s == "as"@ ||| s == "async"@ ||| s == "await"@
    ||| s == "become"@ ||| s == "box"@ ||| s == "break"@ ||| s == "const"@ ||| s == "continue"@
    ||| s == "crate"@ ||| s == "do"@ ||| s == "dyn"@ ||| s == "else"@ ||| s == "enum"@
    ||| s == "extern"@ ||| s == "false"@ ||| s == "final"@ ||| s == "fn"@ ||| s == "for"@
    ||| s == "if"@ ||| s == "impl"@ ||| s == "in"@ ||| s == "let"@ ||| s == "loop"@
    ||| s == "macro"@ ||| s == "match"@ ||| s == "mod"@ ||| s == "move"@ ||| s == "mut"@
    ||| s == "override"@ ||| s == "priv"@ ||| s == "pub"@ ||| s == "ref"@ ||| s == "return"@
    ||| s == "Self"@ ||| s == "self"@ ||| s == "static"@ ||| s == "struct"@ ||| s == "super"@
    ||| s == "trait"@ ||| s == "true"@ ||| s == "try"@ ||| s == "type"@ ||| s == "typeof"@
    ||| s == "unsafe"@ ||| s == "unsized"@ ||| s == "use"@ ||| s == "virtual"@ ||| s == "where"@
    ||| s == "while"@ ||| s == "yield"@
}

/// The tokens with every invisible group opened: its tokens stand in its place, as the parser
/// of the language sees through such groups. Other groups keep their delimiters, their tokens
/// opened in the same way.
pub open spec fn flattened(ts: Seq<TokV>) -> Seq<TokV>
    decreases ts, 0nat,
{
    if ts.len() == 0 {
        seq![]
    } else {
        flattened(ts.subrange(0, ts.len() - 1)) + flat_tok(ts[ts.len() - 1])
    }
}

/// One token with its invisible groups opened, as [`flattened`] states.
pub open spec fn flat_tok(t: TokV) -> Seq<TokV>
    decreases t, 1nat,
{
    match t {
        TokV::Group(Delimiter::Invisible, inner) => flattened(inner),
        TokV::Group(d, inner) => seq![TokV::Group(d, flattened(inner))],
        _ => seq![t],
    }
}

/// The views of two sequences of tokens one after the other.
proof fn lemma_toks_view_append(a: Seq<Tok>, b: Seq<Tok>)
    ensures
        toks_view(a + b) == toks_view(a) + toks_view(b),
{
    lemma_toks_view(a);
    lemma_toks_view(b);
    lemma_toks_view(a + b);
    assert(toks_view(a + b) =~= toks_view(a) + toks_view(b));
}

/// A copy of a literal token.
fn copy_lit(l: &LitKind) -> (r: LitKind)
    ensures
        r@ == l@,
{
    match l {
        LitKind::Str(s) => LitKind::Str(s.clone()),
        LitKind::Char(c) => LitKind::Char(*c),
        LitKind::Int(d) => LitKind::Int(d.clone()),
        LitKind::Float => LitKind::Float,
        LitKind::Other => LitKind::Other,
    }
}

/// The tokens with every invisible group opened, as [`flattened`] states.
pub fn flatten_invisible(ts: &Vec<Tok>) -> (r: Vec<Tok>)
    ensures
        toks_view(r@) == flattened(toks_view(ts@)),
    decreases ts,
{
    proof {
        lemma_toks_view(ts@);
    }
    let ghost tv = toks_view(ts@);
    let mut out: Vec<Tok> = Vec::new();
    let mut i: usize = 0;
    assert(toks_view(out@) =~= Seq::<TokV>::empty());
    assert(tv.subrange(0, 0) =~= Seq::<TokV>::empty());
    while i < ts.len()
        invariant
            i <= ts.len(),
            tv == toks_view(ts@),
            tv.len() == ts.len(),
            forall|j: int| 0 <= j < ts.len() ==> #[trigger] tv[j] == ts@[j]@,
            toks_view(out@) == flattened(tv.subrange(0, i as int)),
        decreases ts.len() - i,
    {
        let mut piece: Vec<Tok> = Vec::new();
        match &ts[i] {
            Tok::Group(Delimiter::Invisible, inner) => {
                piece = flatten_invisible(inner);
            },
            Tok::Group(d, inner) => {
                piece.push(Tok::Group(*d, flatten_invisible(inner)));
            },
            Tok::Ident(s) => {
                piece.push(Tok::Ident(s.clone()));
            },
            Tok::Punct(c) => {
                piece.push(Tok::Punct(*c));
            },
            Tok::Literal(l) => {
                piece.push(Tok::Literal(copy_lit(l)));
            },
        }
        proof {
            assert(tv[i as int] == ts@[i as int]@);
            if piece.len() == 1 && !(tv[i as int] matches TokV::Group(Delimiter::Invisible, _)) {
                assert(toks_view(piece@) == toks_view(piece@.drop_last()).push(piece@[0]@));
                assert(piece@.drop_last() =~= Seq::<Tok>::empty());
            }
            assert(toks_view(piece@) =~= flat_tok(tv[i as int]));
            lemma_toks_view_append(out@, piece@);
            assert(tv.subrange(0, i + 1).subrange(0, i as int) =~= tv.subrange(0, i as int));
            assert(tv.subrange(0, i + 1)[i as int] == tv[i as int]);
        }
        out.append(&mut piece);
        i = i + 1;
    }
    assert(tv.subrange(0, i as int) =~= tv);
    out
}

} // verus!
