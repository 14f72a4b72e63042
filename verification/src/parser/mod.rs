//! Parsing of the naming language inside `@[...]`.
use vstd::prelude::*;

use crate::models::{
    PartV, TokenPart, lemma_parts_view_drop_last, lemma_parts_view_push, modifiers_view, parts_view,
};
use crate::parser::modifiers::{is_reserved_text, modifiers_from, parse_modifiers};
use crate::text::{chars_of, join, join_texts, string_of, texts};
use crate::tokens::{
    Delimiter, LitKind, LitV, Tok, TokV, flatten_invisible, flattened, is_reserved, lemma_toks_view,
    toks_view,
};

pub mod modifiers;

verus! {

/// A word, character by character.
#[derive(Debug, PartialEq, Eq)]
pub enum Word {
    End,
    Char(char, Box<Word>),
}

/// The word of a text.
pub open spec fn word_made(s: Seq<char>) -> Word
    decreases s.len(),
{
    if s.len() == 0 {
        Word::End
    } else {
        Word::Char(s[0], Box::new(word_made(s.skip(1))))
    }
}

/// The text of a word.
pub open spec fn word_text(w: Word) -> Seq<char>
    decreases w,
{
    match w {
        Word::End => seq![],
        Word::Char(c, rest) => seq![c] + word_text(*rest),
    }
}

/// The text of a word is the text it was made of.
pub proof fn lemma_word_text(s: Seq<char>)
    ensures
        word_text(word_made(s)) == s,
    decreases s.len(),
{
    if s.len() > 0 {
        lemma_word_text(s.skip(1));
        assert(seq![s[0]] + s.skip(1) =~= s);
    }
}

/// The word of a text, as [`word_made`] states.
pub fn make_word(s: &Vec<char>) -> (r: Word)
    ensures
        r == word_made(s@),
{
    let mut w = Word::End;
    let mut i: usize = s.len();
    assert(s@.skip(i as int) =~= Seq::<char>::empty());
    while i > 0
        invariant
            i <= s.len(),
            w == word_made(s@.skip(i as int)),
        decreases i,
    {
        assert(s@.skip(i - 1).skip(1) =~= s@.skip(i as int));
        w = Word::Char(s[i - 1], Box::new(w));
        i = i - 1;
    }
    assert(s@.skip(0) =~= s@);
    w
}

/// The word of a string, as [`word_made`] states.
pub fn word_from(s: &str) -> (r: Word)
    ensures
        r == word_made(s@),
{
    make_word(&chars_of(s))
}

/// The characters of a word, as [`word_text`] states.
pub fn word_chars(w: &Word) -> (r: Vec<char>)
    ensures
        r@ == word_text(*w),
    decreases w,
{
    match w {
        Word::End => Vec::new(),
        Word::Char(c, rest) => {
            let mut r: Vec<char> = Vec::new();
            r.push(*c);
            let tail = word_chars(rest);
            crate::text::append_text(&mut r, &tail);
            assert(r@ =~= seq![*c] + word_text(**rest));
            r
        },
    }
}

/// Why the naming language inside `@[...]` was refused.
#[derive(Debug, PartialEq, Eq)]
pub enum DslError {
    /// Groups or modifier chains nested more deeply than [`MAX_DEPTH`] allows.
    MaxDepth,
    /// A modifier chain with nothing before it to act on.
    MissingTarget,
    /// Something other than an identifier where a modifier's name belongs.
    ExpectedIdent,
    /// A name that no modifier has.
    UnknownModifier,
    /// A modifier that takes arguments without its `{...}`.
    ExpectedBraces,
    /// Something other than a string or character literal where one belongs.
    ExpectedStringOrChar,
    /// Something other than an integer literal where one belongs.
    ExpectedInteger,
    /// An integer literal whose value does not fit where it is used.
    InvalidInteger,
    /// A missing `,` between two arguments.
    ExpectedComma,
    /// Something other than a literal as the argument of `split`.
    ExpectedLiteral,
    /// A literal of the wrong kind as the argument of `split`.
    UnsupportedSplitArgument,
    /// A `splice` mode that is not `into`, `value`, `val`, `out`, `rm` or `removed`: the word
    /// given.
    InvalidSpliceOutput(Word),
    /// Tokens left over inside the braces of a modifier's arguments.
    UnexpectedToken,
    /// Tokens after a modifier chain in the same group. The chain must end its group.
    ModifiersNotLast,
}

/// The message that a refusal is reported with: the texts of `syn` and of the parser's own
/// errors. (`UnknownModifier` and `UnsupportedSplitArgument` are reported without the position
/// of the modifier's name, which depends on the compiler.)
pub open spec fn dsl_message_of(e: DslError) -> Seq<char> {
    match e {
        DslError::MaxDepth => "Maximum nesting exceeded!"@,
        DslError::MissingTarget => "Modifiers need a target"@,
        DslError::ExpectedIdent => "expected identifier"@,
        DslError::UnknownModifier => "Unknown modifier"@,
        DslError::ExpectedBraces => "expected curly braces"@,
        DslError::ExpectedStringOrChar => "expected character literal"@,
        DslError::ExpectedInteger => "expected integer literal"@,
        DslError::InvalidInteger => "number too large to fit in target type"@,
        DslError::ExpectedComma => "expected `,`"@,
        DslError::ExpectedLiteral => "expected literal"@,
        DslError::UnsupportedSplitArgument => "Expected a string, char, or integer literal"@,
        DslError::UnexpectedToken => "unexpected token"@,
        DslError::ModifiersNotLast => "Modifiers must end their group"@,
        DslError::InvalidSpliceOutput(w) => "Splice output invalid \""@ + word_text(w) + "\""@,
    }
}

/// The message that a refusal is reported with, as [`dsl_message_of`] states.
pub fn dsl_message(e: &DslError) -> (r: String)
    ensures
        r@ == dsl_message_of(*e),
{
    match e {
        DslError::MaxDepth => string_of(&chars_of("Maximum nesting exceeded!")),
        DslError::MissingTarget => string_of(&chars_of("Modifiers need a target")),
        DslError::ExpectedIdent => string_of(&chars_of("expected identifier")),
        DslError::UnknownModifier => string_of(&chars_of("Unknown modifier")),
        DslError::ExpectedBraces => string_of(&chars_of("expected curly braces")),
        DslError::ExpectedStringOrChar => string_of(&chars_of("expected character literal")),
        DslError::ExpectedInteger => string_of(&chars_of("expected integer literal")),
        DslError::InvalidInteger => string_of(&chars_of("number too large to fit in target type")),
        DslError::ExpectedComma => string_of(&chars_of("expected `,`")),
        DslError::ExpectedLiteral => string_of(&chars_of("expected literal")),
        DslError::UnsupportedSplitArgument => string_of(&chars_of("Expected a string, char, or integer literal")),
        DslError::UnexpectedToken => string_of(&chars_of("unexpected token")),
        DslError::ModifiersNotLast => string_of(&chars_of("Modifiers must end their group")),
        DslError::InvalidSpliceOutput(w) => {
            let mut t = chars_of("Splice output invalid \"");
            let word = word_chars(w);
            crate::text::append_text(&mut t, &word);
            let close = chars_of("\"");
            crate::text::append_text(&mut t, &close);
            string_of(&t)
        },
    }
}

/// How deeply groups and modifier chains may nest.
pub const MAX_DEPTH: isize = 20;

/// How the text of a `@[...]` is to be rendered.
#[derive(Debug, Clone, Copy, PartialEq, Eq, Structural)]
pub enum RenderType {
    /// As a string literal: some string or character literal stood among the words.
    StringLiteral,
    /// As an identifier.
    Identifier,
}

/// The state of the parser.
#[derive(Debug, Clone, Copy, PartialEq, Eq, Structural)]
pub enum TokenParserState {
    /// At the top of `@[...]`: every word is a piece of its own.
    Root,
    /// Inside `(...)` (single value) or `[...]` (list): words are gathered.
    InsideGroup(bool),
    /// Reading a modifier chain for the last piece.
    Modifiers,
}

/// What the parser gives: the pieces, and how to render their text.
pub struct TweldDsl {
    pub render_type: RenderType,
    pub tokens: Vec<TokenPart>,
}

/// The mathematical form of a [`TweldDsl`]: whether it renders as a string literal, and the
/// pieces.
pub struct DslV {
    pub literal: bool,
    pub parts: Seq<PartV>,
}

impl View for TweldDsl {
    type V = DslV;

    open spec fn view(&self) -> DslV {
        DslV { literal: self.render_type == RenderType::StringLiteral, parts: parts_view(self.tokens@) }
    }
}

/// What a stage of the parser gives: the pieces so far, and whether tokens were left over
/// inside the braces of some modifier's arguments.
pub type StreamResult = Result<(DslV, bool), DslError>;

/// The modifier chain at `pos` attached to the last piece (the `Modifiers` state, entered at
/// depth `depth`). The chain must take the rest of the group: where tokens follow it, this is
/// `ModifiersNotLast`.
pub open spec fn attach_modifiers(ts: Seq<TokV>, pos: int, dsl: DslV, depth: int) -> StreamResult {
    if depth >= MAX_DEPTH {
        Err(DslError::MaxDepth)
    } else if pos >= ts.len() {
        Ok((dsl, false))
    } else if dsl.parts.len() == 0 {
        Err(DslError::MissingTarget)
    } else {
        match modifiers_from(ts, pos, seq![], false) {
            Err(e) => Err(e),
            Ok((ms, p, left)) => if p < ts.len() {
                Err(DslError::ModifiersNotLast)
            } else {
                Ok((
                    DslV {
                        literal: dsl.literal,
                        parts: dsl.parts.drop_last().push(
                            PartV::Modified(Box::new(dsl.parts.last()), ms),
                        ),
                    },
                    left,
                ))
            },
        }
    }
}

/// The words gathered in a group, put among the pieces (`parse_words`): in a single value as one
/// piece (an empty one where there are no words), in a list each as a piece of its own.
pub open spec fn flush_words(dsl: DslV, words: Seq<Seq<char>>, single: bool) -> DslV {
    if single {
        DslV { literal: dsl.literal, parts: dsl.parts.push(PartV::Plain(join(words, seq![]))) }
    } else {
        DslV { literal: dsl.literal, parts: dsl.parts + words.map_values(|w: Seq<char>| PartV::Plain(w)) }
    }
}

/// The words gathered in a group before a modifier chain: the last word becomes the chain's
/// target, the words before it one piece together.
pub open spec fn words_before_modifiers(dsl: DslV, words: Seq<Seq<char>>) -> DslV {
    if words.len() == 0 {
        dsl
    } else if words.len() == 1 {
        DslV { literal: dsl.literal, parts: dsl.parts.push(PartV::Plain(words.last())) }
    } else {
        DslV {
            literal: dsl.literal,
            parts: dsl.parts.push(PartV::Plain(join(words.drop_last(), seq![]))).push(
                PartV::Plain(words.last()),
            ),
        }
    }
}

/// The word that a token is inside a group, and whether it makes the text a string literal:
/// an identifier (not a reserved word), a character or string literal, `-` or `_`. `None`
/// for a token that the parser passes over.
pub open spec fn word_of(t: TokV) -> Option<(Seq<char>, bool)> {
    match t {
        TokV::Ident(s) => if !is_reserved(s) {
            Some((s, false))
        } else if s == "_"@ {
            Some((s, false))
        } else {
            None
        },
        TokV::Literal(LitV::Char(c)) => Some((seq![c], true)),
        TokV::Literal(LitV::Str(s)) => Some((s, true)),
        TokV::Punct(c) => if c == '-' {
            Some((seq!['-'], false))
        } else if c == '_' {
            Some((seq!['_'], false))
        } else {
            None
        },
        _ => None,
    }
}

/// A group's tokens parsed from `pos` on (the `InsideGroup` state at depth `depth`); `dsl`
/// holds the group's pieces so far, `words` the words gathered since, `left` whether tokens
/// were left over inside some braces.
pub open spec fn group_loop(
    ts: Seq<TokV>,
    pos: int,
    dsl: DslV,
    words: Seq<Seq<char>>,
    single: bool,
    depth: int,
    left: bool,
) -> StreamResult
    decreases ts, ts.len() - pos,
{
    if pos < 0 || pos >= ts.len() {
        Ok((if words.len() == 0 { dsl } else { flush_words(dsl, words, single) }, left))
    } else {
        match ts[pos] {
            TokV::Group(Delimiter::Parenthesis, inner) => match group_parse(inner, dsl.literal, true, depth) {
                Err(e) => Err(e),
                Ok((g, l)) => group_loop(
                    ts,
                    pos + 1,
                    DslV { literal: dsl.literal || g.literal, parts: dsl.parts.push(PartV::ConcatGroup(g.parts)) },
                    words,
                    single,
                    depth,
                    left || l,
                ),
            },
            TokV::Group(Delimiter::Bracket, inner) => match group_parse(inner, dsl.literal, false, depth) {
                Err(e) => Err(e),
                Ok((g, l)) => group_loop(
                    ts,
                    pos + 1,
                    DslV { literal: dsl.literal || g.literal, parts: dsl.parts.push(PartV::ListGroup(g.parts)) },
                    words,
                    single,
                    depth,
                    left || l,
                ),
            },
            TokV::Punct('|') => match attach_modifiers(ts, pos, words_before_modifiers(dsl, words), depth) {
                Err(e) => Err(e),
                Ok((d, l)) => Ok((d, left || l)),
            },
            t => match word_of(t) {
                Some((w, lit)) => group_loop(
                    ts,
                    pos + 1,
                    DslV { literal: dsl.literal || lit, parts: dsl.parts },
                    words.push(w),
                    single,
                    depth,
                    left,
                ),
                None => group_loop(ts, pos + 1, dsl, words, single, depth, left),
            },
        }
    }
}

/// The tokens of a group parsed as a single value (`single`) or a list, begun at depth `depth`
/// with the literal flag of the pieces around it (`parse_concat_group`, `parse_list_group`).
pub open spec fn group_parse(inner: Seq<TokV>, literal: bool, single: bool, depth: int) -> StreamResult
    decreases inner, inner.len() + 1,
{
    if depth >= MAX_DEPTH {
        Err(DslError::MaxDepth)
    } else {
        group_loop(inner, 0, DslV { literal, parts: seq![] }, seq![], single, depth + 1, false)
    }
}

/// The tokens at the top of `@[...]` parsed from `pos` on (the `Root` state at depth `depth`).
pub open spec fn root_loop(ts: Seq<TokV>, pos: int, dsl: DslV, depth: int, left: bool) -> StreamResult
    decreases ts.len() - pos,
{
    if pos < 0 || pos >= ts.len() {
        Ok((dsl, left))
    } else {
        match ts[pos] {
            TokV::Group(Delimiter::Parenthesis, inner) => match group_parse(inner, dsl.literal, true, depth) {
                Err(e) => Err(e),
                Ok((g, l)) => root_loop(
                    ts,
                    pos + 1,
                    DslV { literal: dsl.literal || g.literal, parts: dsl.parts.push(PartV::ConcatGroup(g.parts)) },
                    depth,
                    left || l,
                ),
            },
            TokV::Group(Delimiter::Bracket, inner) => match group_parse(inner, dsl.literal, false, depth) {
                Err(e) => Err(e),
                Ok((g, l)) => root_loop(
                    ts,
                    pos + 1,
                    DslV { literal: dsl.literal || g.literal, parts: dsl.parts.push(PartV::ListGroup(g.parts)) },
                    depth,
                    left || l,
                ),
            },
            TokV::Punct('|') => match attach_modifiers(ts, pos, dsl, depth) {
                Err(e) => Err(e),
                Ok((d, l)) => Ok((d, left || l)),
            },
            t => match word_of(t) {
                Some((w, lit)) => root_loop(
                    ts,
                    pos + 1,
                    DslV { literal: dsl.literal || lit, parts: dsl.parts.push(PartV::Plain(w)) },
                    depth,
                    left,
                ),
                None => root_loop(ts, pos + 1, dsl, depth, left),
            },
        }
    }
}

/// What the naming language inside `@[...]` parses to: the pieces and how to render them, or
/// why it is refused. Invisible groups are seen through: their tokens stand in their place.
/// Tokens left over inside the braces of a modifier's arguments refuse it once all else has
/// parsed.
pub open spec fn parsed(ts: Seq<TokV>) -> Result<DslV, DslError> {
    match root_loop(flattened(ts), 0, DslV { literal: false, parts: seq![] }, 0, false) {
        Err(e) => Err(e),
        Ok((d, left)) => if left {
            Err(DslError::UnexpectedToken)
        } else {
            Ok(d)
        },
    }
}

/// The mathematical form of what a stage of the parser gives.
pub open spec fn stream_view(r: Result<(TweldDsl, bool), DslError>) -> StreamResult {
    match r {
        Ok((d, left)) => Ok((d@, left)),
        Err(e) => Err(e),
    }
}

/// Appends a piece.
fn push_part(dsl: &mut TweldDsl, p: TokenPart)
    ensures
        final(dsl)@ == (DslV { literal: old(dsl)@.literal, parts: old(dsl)@.parts.push(p@) }),
{
    proof {
        lemma_parts_view_push(dsl.tokens@, p);
    }
    dsl.tokens.push(p);
}

/// Marks the text as a string literal where `lit` holds.
fn mark_literal(dsl: &mut TweldDsl, lit: bool)
    ensures
        final(dsl)@ == (DslV { literal: old(dsl)@.literal || lit, parts: old(dsl)@.parts }),
{
    if lit {
        dsl.render_type = RenderType::StringLiteral;
    }
}

/// The modifier chain at `pos` attached to the last piece, as [`attach_modifiers`] states.
fn modifier_stream(ts: &Vec<Tok>, pos: usize, dsl: TweldDsl, depth: isize) -> (r: Result<(TweldDsl, bool), DslError>)
    requires
        pos <= ts.len(),
    ensures
        stream_view(r) == attach_modifiers(toks_view(ts@), pos as int, dsl@, depth as int),
{
    proof {
        lemma_toks_view(ts@);
    }
    if depth >= MAX_DEPTH {
        return Err(DslError::MaxDepth);
    }
    if pos >= ts.len() {
        return Ok((dsl, false));
    }
    let mut dsl = dsl;
    proof {
        crate::models::lemma_parts_view(dsl.tokens@);
    }
    if dsl.tokens.len() == 0 {
        return Err(DslError::MissingTarget);
    }
    match parse_modifiers(ts, pos) {
        Err(e) => Err(e),
        Ok((ms, p, left)) => {
            if p < ts.len() {
                return Err(DslError::ModifiersNotLast);
            }
            proof {
                lemma_parts_view_drop_last(dsl.tokens@);
            }
            let ghost toks0 = dsl.tokens@;
            let target = dsl.tokens.pop().unwrap();
            assert(dsl.tokens@ == toks0.drop_last());
            let part = TokenPart::Modified(Box::new(target), ms);
            push_part(&mut dsl, part);
            Ok((dsl, left))
        },
    }
}

/// The word that a token is inside a group, as [`word_of`] states.
fn word_of_tok(t: &Tok) -> (r: Option<(Vec<char>, bool)>)
    ensures
        match r {
            Some((w, lit)) => word_of(t@) == Some((w@, lit)),
            None => word_of(t@) is None,
        },
{
    match t {
        Tok::Ident(s) => {
            let w = chars_of(s.as_str());
            if !is_reserved_text(&w) {
                Some((w, false))
            } else if crate::text::text_is(&w, "_") {
                Some((w, false))
            } else {
                None
            }
        },
        Tok::Literal(LitKind::Char(c)) => {
            let mut w: Vec<char> = Vec::new();
            w.push(*c);
            assert(w@ =~= seq![*c]);
            Some((w, true))
        },
        Tok::Literal(LitKind::Str(s)) => Some((chars_of(s.as_str()), true)),
        Tok::Punct(c) => {
            if *c == '-' || *c == '_' {
                let mut w: Vec<char> = Vec::new();
                w.push(*c);
                assert(w@ =~= seq![*c]);
                Some((w, false))
            } else {
                None
            }
        },
        _ => None,
    }
}

/// The words gathered in a group put among the pieces (`parse_words`), as [`flush_words`]
/// states.
pub fn parse_words(dsl: &mut TweldDsl, words: &Vec<Vec<char>>, single: bool)
    ensures
        final(dsl)@ == flush_words(old(dsl)@, texts(words@), single),
{
    if single {
        let empty: Vec<char> = Vec::new();
        let joined = join_texts(words, &empty);
        push_part(dsl, TokenPart::Plain(string_of(&joined)));
    } else {
        let ghost start = dsl@;
        let mut k: usize = 0;
        while k < words.len()
            invariant
                k <= words.len(),
                dsl@.literal == start.literal,
                dsl@.parts == start.parts + texts(words@).take(k as int).map_values(
                    |w: Seq<char>| PartV::Plain(w),
                ),
            decreases words.len() - k,
        {
            let ghost parts_before = dsl@.parts;
            push_part(dsl, TokenPart::Plain(string_of(&words[k])));
            k = k + 1;
            assert(dsl@.parts =~= start.parts + texts(words@).take(k as int).map_values(
                |w: Seq<char>| PartV::Plain(w),
            ));
        }
        assert(texts(words@).take(k as int) =~= texts(words@));
    }
}

/// The words gathered before a modifier chain put among the pieces, as
/// [`words_before_modifiers`] states.
fn push_words_before_modifiers(dsl: &mut TweldDsl, words: &Vec<Vec<char>>)
    ensures
        final(dsl)@ == words_before_modifiers(old(dsl)@, texts(words@)),
{
    let n = words.len();
    if n == 0 {
        return;
    }
    if n > 1 {
        let mut front: Vec<Vec<char>> = Vec::new();
        let mut k: usize = 0;
        while k < n - 1
            invariant
                n == words.len(),
                k <= n - 1,
                texts(front@) == texts(words@).take(k as int),
            decreases n - 1 - k,
        {
            let ghost before = front@;
            let t = crate::text::copy_text(&words[k]);
            front.push(t);
            assert(texts(front@) =~= texts(before).push(words@[k as int]@));
            k = k + 1;
            assert(texts(front@) =~= texts(words@).take(k as int));
        }
        assert(texts(words@).take(n - 1) =~= texts(words@).drop_last());
        let empty: Vec<char> = Vec::new();
        let joined = join_texts(&front, &empty);
        push_part(dsl, TokenPart::Plain(string_of(&joined)));
    }
    push_part(dsl, TokenPart::Plain(string_of(&words[n - 1])));
}

/// A group's tokens parsed as a single value, put among the pieces as one
/// (`parse_concat_group`), as [`group_parse`] states.
fn parse_concat_group(inner: &Vec<Tok>, dsl: &mut TweldDsl, depth: isize) -> (r: Result<bool, DslError>)
    requires
        0 <= depth <= MAX_DEPTH,
    ensures
        match group_parse(toks_view(inner@), old(dsl)@.literal, true, depth as int) {
            Ok((g, l)) => r == Ok::<bool, DslError>(l) && final(dsl)@ == (DslV {
                literal: old(dsl)@.literal || g.literal,
                parts: old(dsl)@.parts.push(PartV::ConcatGroup(g.parts)),
            }),
            Err(e) => r == Err::<bool, DslError>(e) && final(dsl)@ == old(dsl)@,
        },
    decreases inner@, 1nat,
{
    if depth >= MAX_DEPTH {
        return Err(DslError::MaxDepth);
    }
    let grouped = TweldDsl { render_type: dsl.render_type, tokens: Vec::new() };
    assert(parts_view(grouped.tokens@) =~= Seq::<PartV>::empty());
    assert(grouped@ == DslV { literal: dsl@.literal, parts: Seq::<PartV>::empty() });
    match group_stream(inner, grouped, true, depth + 1) {
        Err(e) => Err(e),
        Ok((g, l)) => {
            push_part(dsl, TokenPart::ConcatGroup(g.tokens));
            if g.render_type == RenderType::StringLiteral {
                dsl.render_type = RenderType::StringLiteral;
            }
            Ok(l)
        },
    }
}

/// A group's tokens parsed as a list, put among the pieces as one (`parse_list_group`), as
/// [`group_parse`] states.
fn parse_list_group(inner: &Vec<Tok>, dsl: &mut TweldDsl, depth: isize) -> (r: Result<bool, DslError>)
    requires
        0 <= depth <= MAX_DEPTH,
    ensures
        match group_parse(toks_view(inner@), old(dsl)@.literal, false, depth as int) {
            Ok((g, l)) => r == Ok::<bool, DslError>(l) && final(dsl)@ == (DslV {
                literal: old(dsl)@.literal || g.literal,
                parts: old(dsl)@.parts.push(PartV::ListGroup(g.parts)),
            }),
            Err(e) => r == Err::<bool, DslError>(e) && final(dsl)@ == old(dsl)@,
        },
    decreases inner@, 1nat,
{
    if depth >= MAX_DEPTH {
        return Err(DslError::MaxDepth);
    }
    let grouped = TweldDsl { render_type: dsl.render_type, tokens: Vec::new() };
    assert(parts_view(grouped.tokens@) =~= Seq::<PartV>::empty());
    assert(grouped@ == DslV { literal: dsl@.literal, parts: Seq::<PartV>::empty() });
    match group_stream(inner, grouped, false, depth + 1) {
        Err(e) => Err(e),
        Ok((g, l)) => {
            push_part(dsl, TokenPart::ListGroup(g.tokens));
            if g.render_type == RenderType::StringLiteral {
                dsl.render_type = RenderType::StringLiteral;
            }
            Ok(l)
        },
    }
}

/// A group's tokens parsed in the `InsideGroup` state, as [`group_loop`] states.
fn group_stream(ts: &Vec<Tok>, dsl: TweldDsl, single: bool, depth: isize) -> (r: Result<(TweldDsl, bool), DslError>)
    requires
        0 <= depth <= MAX_DEPTH,
    ensures
        stream_view(r) == group_loop(toks_view(ts@), 0, dsl@, seq![], single, depth as int, false),
    decreases ts@, 0nat,
{
    proof {
        lemma_toks_view(ts@);
    }
    let ghost tv = toks_view(ts@);
    let ghost start = dsl@;
    let mut d = dsl;
    let mut words: Vec<Vec<char>> = Vec::new();
    let mut left = false;
    let mut pos: usize = 0;
    assert(texts(words@) =~= Seq::<Seq<char>>::empty());
    while pos < ts.len()
        invariant
            pos <= ts.len(),
            0 <= depth <= MAX_DEPTH,
            tv == toks_view(ts@),
            tv.len() == ts.len(),
            forall|i: int| 0 <= i < ts.len() ==> #[trigger] tv[i] == ts@[i]@,
            start == dsl@,
            group_loop(tv, 0, start, seq![], single, depth as int, false) == group_loop(
                tv,
                pos as int,
                d@,
                texts(words@),
                single,
                depth as int,
                left,
            ),
        decreases ts.len() - pos,
    {
        match &ts[pos] {
            Tok::Group(Delimiter::Parenthesis, inner) => {
                match parse_concat_group(inner, &mut d, depth) {
                    Err(e) => return Err(e),
                    Ok(l) => {
                        left = left || l;
                    },
                }
            },
            Tok::Group(Delimiter::Bracket, inner) => {
                match parse_list_group(inner, &mut d, depth) {
                    Err(e) => return Err(e),
                    Ok(l) => {
                        left = left || l;
                    },
                }
            },
            Tok::Punct('|') => {
                push_words_before_modifiers(&mut d, &words);
                return match modifier_stream(ts, pos, d, depth) {
                    Err(e) => Err(e),
                    Ok((r, l)) => Ok((r, left || l)),
                };
            },
            t => {
                match word_of_tok(t) {
                    Some((w, lit)) => {
                        mark_literal(&mut d, lit);
                        let ghost before = words@;
                        words.push(w);
                        assert(texts(words@) =~= texts(before).push(w@));
                    },
                    None => {},
                }
            },
        }
        pos = pos + 1;
    }
    if words.len() > 0 {
        parse_words(&mut d, &words, single);
    }
    Ok((d, left))
}

/// The tokens at the top of `@[...]` parsed in the `Root` state, as [`root_loop`] states.
fn root_stream(ts: &Vec<Tok>, dsl: TweldDsl, depth: isize) -> (r: Result<(TweldDsl, bool), DslError>)
    requires
        0 <= depth <= MAX_DEPTH,
    ensures
        stream_view(r) == root_loop(toks_view(ts@), 0, dsl@, depth as int, false),
{
    proof {
        lemma_toks_view(ts@);
    }
    let ghost tv = toks_view(ts@);
    let ghost start = dsl@;
    let mut d = dsl;
    let mut left = false;
    let mut pos: usize = 0;
    while pos < ts.len()
        invariant
            pos <= ts.len(),
            0 <= depth <= MAX_DEPTH,
            tv == toks_view(ts@),
            tv.len() == ts.len(),
            forall|i: int| 0 <= i < ts.len() ==> #[trigger] tv[i] == ts@[i]@,
            start == dsl@,
            root_loop(tv, 0, start, depth as int, false) == root_loop(tv, pos as int, d@, depth as int, left),
        decreases ts.len() - pos,
    {
        match &ts[pos] {
            Tok::Group(Delimiter::Parenthesis, inner) => {
                match parse_concat_group(inner, &mut d, depth) {
                    Err(e) => return Err(e),
                    Ok(l) => {
                        left = left || l;
                    },
                }
            },
            Tok::Group(Delimiter::Bracket, inner) => {
                match parse_list_group(inner, &mut d, depth) {
                    Err(e) => return Err(e),
                    Ok(l) => {
                        left = left || l;
                    },
                }
            },
            Tok::Punct('|') => {
                return match modifier_stream(ts, pos, d, depth) {
                    Err(e) => Err(e),
                    Ok((r, l)) => Ok((r, left || l)),
                };
            },
            t => {
                match word_of_tok(t) {
                    Some((w, lit)) => {
                        mark_literal(&mut d, lit);
                        push_part(&mut d, TokenPart::Plain(string_of(&w)));
                    },
                    None => {},
                }
            },
        }
        pos = pos + 1;
    }
    Ok((d, left))
}

/// Parses tokens in the given state at the given depth (`parse_stream`): the depth is checked
/// against [`MAX_DEPTH`] and raised by one, and the state's stage runs on the tokens.
pub fn parse_stream(ts: &Vec<Tok>, dsl: TweldDsl, state: TokenParserState, depth: isize) -> (r: Result<
    (TweldDsl, bool),
    DslError,
>)
    requires
        -1 <= depth,
    ensures
        stream_view(r) == if depth >= MAX_DEPTH {
            Err(DslError::MaxDepth)
        } else {
            match state {
                TokenParserState::Root => root_loop(toks_view(ts@), 0, dsl@, depth + 1, false),
                TokenParserState::InsideGroup(single) => group_loop(
                    toks_view(ts@),
                    0,
                    dsl@,
                    seq![],
                    single,
                    depth + 1,
                    false,
                ),
                TokenParserState::Modifiers => attach_modifiers(toks_view(ts@), 0, dsl@, depth + 1),
            }
        },
{
    if depth >= MAX_DEPTH {
        return Err(DslError::MaxDepth);
    }
    match state {
        TokenParserState::Root => root_stream(ts, dsl, depth + 1),
        TokenParserState::InsideGroup(single) => group_stream(ts, dsl, single, depth + 1),
        TokenParserState::Modifiers => modifier_stream(ts, 0, dsl, depth + 1),
    }
}

impl TweldDsl {
    /// Parses the tokens inside `@[...]`, as [`parsed`] states.
    pub fn parse(ts: &Vec<Tok>) -> (r: Result<TweldDsl, DslError>)
        ensures
            match r {
                Ok(d) => parsed(toks_view(ts@)) == Ok::<DslV, DslError>(d@),
                Err(e) => parsed(toks_view(ts@)) == Err::<DslV, DslError>(e),
            },
    {
        let dsl = TweldDsl { render_type: RenderType::Identifier, tokens: Vec::new() };
        assert(parts_view(dsl.tokens@) =~= Seq::<PartV>::empty());
        let flat = flatten_invisible(ts);
        match parse_stream(&flat, dsl, TokenParserState::Root, -1) {
            Err(e) => Err(e),
            Ok((d, left)) => if left {
                Err(DslError::UnexpectedToken)
            } else {
                Ok(d)
            },
        }
    }
}

} // verus!



