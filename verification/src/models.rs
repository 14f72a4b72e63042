use vstd::prelude::*;

verus! {

/// Which part of a splice a `Splice` modifier keeps.
#[derive(Debug, Clone, Copy, PartialEq, Eq, Structural)]
pub enum Output {
    Value,
    Removed,
}

/// One step of a modifier chain.
#[derive(Debug, Clone)]
pub enum Modifier {
    Singular,
    Plural,
    Lowercase,
    Uppercase,
    PascalCase,
    LowerCamelCase,
    SnakeCase,
    KebabCase,
    ShoutySnakeCase,
    TitleCase,
    ShoutyKebabCase,
    TrainCase,
    Replace(String, String),
    Substr(Option<usize>, Option<usize>),
    Reverse,
    Repeat(usize),
    Split(String),
    SplitAt(usize),
    Join(String),
    PadStart(usize, String),
    PadEnd(usize, String),
    Slice(Option<i32>, Option<i32>),
    Splice(Output, Option<i32>, Option<i32>, Option<String>),
}

/// A parsed piece of the naming language.
#[derive(Debug)]
pub enum TokenPart {
    Plain(String),
    ConcatGroup(Vec<TokenPart>),
    ListGroup(Vec<TokenPart>),
    Modified(Box<TokenPart>, Vec<Modifier>),
}

/// The mathematical form of a [`Modifier`]: its texts as character sequences.
pub enum ModifierV {
    Singular,
    Plural,
    Lowercase,
    Uppercase,
    PascalCase,
    LowerCamelCase,
    SnakeCase,
    KebabCase,
    ShoutySnakeCase,
    TitleCase,
    ShoutyKebabCase,
    TrainCase,
    Replace(Seq<char>, Seq<char>),
    Substr(Option<usize>, Option<usize>),
    Reverse,
    Repeat(usize),
    Split(Seq<char>),
    SplitAt(usize),
    Join(Seq<char>),
    PadStart(usize, Seq<char>),
    PadEnd(usize, Seq<char>),
    Slice(Option<i32>, Option<i32>),
    Splice(Output, Option<i32>, Option<i32>, Option<Seq<char>>),
}

/// The mathematical form of a [`TokenPart`].
pub enum PartV {
    Plain(Seq<char>),
    ConcatGroup(Seq<PartV>),
    ListGroup(Seq<PartV>),
    Modified(Box<PartV>, Seq<ModifierV>),
}

impl View for Modifier {
    type V = ModifierV;

    open spec fn view(&self) -> ModifierV {
        match self {
            Modifier::Singular => ModifierV::Singular,
            Modifier::Plural => ModifierV::Plural,
            Modifier::Lowercase => ModifierV::Lowercase,
            Modifier::Uppercase => ModifierV::Uppercase,
            Modifier::PascalCase => ModifierV::PascalCase,
            Modifier::LowerCamelCase => ModifierV::LowerCamelCase,
            Modifier::SnakeCase => ModifierV::SnakeCase,
            Modifier::KebabCase => ModifierV::KebabCase,
            Modifier::ShoutySnakeCase => ModifierV::ShoutySnakeCase,
            Modifier::TitleCase => ModifierV::TitleCase,
            Modifier::ShoutyKebabCase => ModifierV::ShoutyKebabCase,
            Modifier::TrainCase => ModifierV::TrainCase,
            Modifier::Replace(a, b) => ModifierV::Replace(a@, b@),
            Modifier::Substr(a, b) => ModifierV::Substr(*a, *b),
            Modifier::Reverse => ModifierV::Reverse,
            Modifier::Repeat(n) => ModifierV::Repeat(*n),
            Modifier::Split(p) => ModifierV::Split(p@),
            Modifier::SplitAt(n) => ModifierV::SplitAt(*n),
            Modifier::Join(p) => ModifierV::Join(p@),
            Modifier::PadStart(n, p) => ModifierV::PadStart(*n, p@),
            Modifier::PadEnd(n, p) => ModifierV::PadEnd(*n, p@),
            Modifier::Slice(a, b) => ModifierV::Slice(*a, *b),
            Modifier::Splice(o, a, b, r) => ModifierV::Splice(
                *o,
                *a,
                *b,
                match r {
                    Some(s) => Some(s@),
                    None => None,
                },
            ),
        }
    }
}

/// The views of a sequence of modifiers.
pub open spec fn modifiers_view(ms: Seq<Modifier>) -> Seq<ModifierV> {
    ms.map_values(|m: Modifier| m@)
}

impl View for TokenPart {
    type V = PartV;

    open spec fn view(&self) -> PartV
        decreases self,
    {
        match self {
            TokenPart::Plain(s) => PartV::Plain(s@),
            TokenPart::ConcatGroup(ps) => PartV::ConcatGroup(parts_view(ps@)),
            TokenPart::ListGroup(ps) => PartV::ListGroup(parts_view(ps@)),
            TokenPart::Modified(t, ms) => PartV::Modified(Box::new((**t).view()), modifiers_view(ms@)),
        }
    }
}

/// The views of a sequence of pieces.
pub open spec fn parts_view(ps: Seq<TokenPart>) -> Seq<PartV>
    decreases ps,
{
    if ps.len() == 0 {
        seq![]
    } else {
        parts_view(ps.drop_last()).push(ps.last().view())
    }
}

/// The views of a sequence of pieces, element by element.
pub proof fn lemma_parts_view(ps: Seq<TokenPart>)
    ensures
        parts_view(ps).len() == ps.len(),
        forall|i: int| 0 <= i < ps.len() ==> #[trigger] parts_view(ps)[i] == ps[i]@,
    decreases ps.len(),
{
    if ps.len() > 0 {
        lemma_parts_view(ps.drop_last());
        assert(parts_view(ps) == parts_view(ps.drop_last()).push(ps.last().view()));
        assert(parts_view(ps).len() == ps.len());
        assert forall|i: int| 0 <= i < ps.len() implies #[trigger] parts_view(ps)[i] == ps[i]@ by {
            if i < ps.len() - 1 {
                assert(parts_view(ps.drop_last())[i] == ps.drop_last()[i]@);
            }
        }
    }
}

/// The view of a sequence of pieces with one more piece behind.
pub proof fn lemma_parts_view_push(ps: Seq<TokenPart>, p: TokenPart)
    ensures
        parts_view(ps.push(p)) == parts_view(ps).push(p@),
{
    assert(ps.push(p).drop_last() =~= ps);
}

/// The view of a sequence of pieces with its last piece taken off.
pub proof fn lemma_parts_view_drop_last(ps: Seq<TokenPart>)
    requires
        ps.len() > 0,
    ensures
        parts_view(ps.drop_last()) == parts_view(ps).drop_last(),
        parts_view(ps).last() == ps.last()@,
{
    lemma_parts_view(ps);
    lemma_parts_view(ps.drop_last());
    assert(parts_view(ps.drop_last()) =~= parts_view(ps).drop_last());
}

} // verus!


