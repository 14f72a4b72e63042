//! Parsing of modifier chains: `| name` and `| name{arguments}`.
use vstd::prelude::*;

use crate::parser::{DslError, make_word, word_made};
use crate::tokens::{Delimiter, LitKind, LitV, Tok, TokV, is_reserved, lemma_toks_view, toks_view};
use crate::text::{chars_of, string_of, text_is};
use crate::casing::{lowered, lowercase_text};
use crate::models::{Modifier, ModifierV, Output, modifiers_view};

verus! {

/// A literal as `syn` reads it at the head of the input (`Lit`): a string or character by its
/// value, an integer by its base-10 digits with its sign, and anything else as `Other`.
pub enum LitRead {
    Str(Seq<char>),
    Char(char),
    Int(Seq<char>),
    Other,
}

/// What reading a literal at `pos` gives, and how many tokens it takes: a literal token, the
/// words `true` and `false`, or `-` followed by a numeric literal. `None` where none stands there,
/// and nothing is taken.
pub open spec fn read_lit(ts: Seq<TokV>, pos: int) -> Option<(LitRead, int)> {
    if 0 <= pos < ts.len() {
        match ts[pos] {
            TokV::Literal(LitV::Str(s)) => Some((LitRead::Str(s), 1)),
            TokV::Literal(LitV::Char(c)) => Some((LitRead::Char(c), 1)),
            TokV::Literal(LitV::Int(d)) => Some((LitRead::Int(d), 1)),
            TokV::Literal(_) => Some((LitRead::Other, 1)),
            TokV::Ident(s) => if s == "true"@ || s == "false"@ {
                Some((LitRead::Other, 1))
            } else {
                None
            },
            TokV::Punct(c) => if c == '-' && pos + 1 < ts.len() {
                match ts[pos + 1] {
                    TokV::Literal(LitV::Int(d)) => Some((LitRead::Int(seq!['-'] + d), 2)),
                    TokV::Literal(LitV::Float) => Some((LitRead::Other, 2)),
                    _ => None,
                }
            } else {
                None
            },
            TokV::Group(_, _) => None,
        }
    } else {
        None
    }
}

/// Whether every character is a decimal digit.
pub open spec fn all_digits(s: Seq<char>) -> bool {
    forall|i: int| 0 <= i < s.len() ==> '0' <= #[trigger] s[i] <= '9'
}

/// The value of a string of decimal digits.
pub open spec fn digits_value(s: Seq<char>) -> nat
    decreases s.len(),
{
    if s.len() == 0 {
        0
    } else {
        digits_value(s.drop_last()) * 10 + (s.last() as nat - '0' as nat) as nat
    }
}

/// The sign and the digits of a number as `str::parse` of std reads them: an optional `+`, or
/// `-` where `signed`, before the digits; `None` where the text is empty or is a sign alone.
pub open spec fn sign_and_digits(s: Seq<char>, signed: bool) -> Option<(bool, Seq<char>)> {
    if s.len() == 0 {
        None
    } else if (s[0] == '+' || s[0] == '-') && s.len() == 1 {
        None
    } else if s[0] == '+' {
        Some((false, s.skip(1)))
    } else if s[0] == '-' && signed {
        Some((true, s.skip(1)))
    } else {
        Some((false, s))
    }
}

/// `str::parse::<usize>` of std.
pub open spec fn usize_of(s: Seq<char>) -> Option<usize> {
    match sign_and_digits(s, false) {
        Some((_, d)) => if all_digits(d) && digits_value(d) <= usize::MAX {
            Some(digits_value(d) as usize)
        } else {
            None
        },
        None => None,
    }
}

/// `str::parse::<i32>` of std.
pub open spec fn i32_of(s: Seq<char>) -> Option<i32> {
    match sign_and_digits(s, true) {
        Some((neg, d)) => if !all_digits(d) {
            None
        } else if neg {
            if digits_value(d) <= 0x8000_0000 {
                Some((-(digits_value(d) as int)) as i32)
            } else {
                None
            }
        } else if digits_value(d) <= i32::MAX {
            Some(digits_value(d) as i32)
        } else {
            None
        },
        None => None,
    }
}

/// A longer string of digits is worth at least as much as its prefix.
proof fn lemma_digits_value_prefix(s: Seq<char>, j: int)
    requires
        0 <= j <= s.len(),
    ensures
        digits_value(s.take(j)) <= digits_value(s),
    decreases s.len() - j,
{
    if j < s.len() {
        lemma_digits_value_prefix(s, j + 1);
        assert(s.take(j + 1).drop_last() =~= s.take(j));
    } else {
        assert(s.take(j) =~= s);
    }
}

/// The value of the digits of `s` from `start` on, where it is at most `bound`.
fn digits_from(s: &Vec<char>, start: usize, bound: u128) -> (r: Option<u128>)
    requires
        start <= s.len(),
        9 <= bound,
    ensures
        match r {
            Some(v) => all_digits(s@.skip(start as int)) && digits_value(s@.skip(start as int)) <= bound
                && v == digits_value(s@.skip(start as int)),
            None => !(all_digits(s@.skip(start as int)) && digits_value(s@.skip(start as int)) <= bound),
        },
{
    let ghost d = s@.skip(start as int);
    let mut v: u128 = 0;
    let mut k: usize = start;
    assert(d.take(0) =~= Seq::<char>::empty());
    while k < s.len()
        invariant
            start <= k <= s.len(),
            d == s@.skip(start as int),
            all_digits(d.take(k - start)),
            v == digits_value(d.take(k - start)),
            v <= bound,
            9 <= bound,
        decreases s.len() - k,
    {
        let c = s[k];
        assert(d[k - start] == c);
        if c < '0' || c > '9' {
            return None;
        }
        assert('0' as u32 <= c as u32 <= '9' as u32);
        let digit: u128 = (c as u32 - '0' as u32) as u128;
        assert(digit <= 9);
        assert(d.take(k + 1 - start).drop_last() =~= d.take(k - start));
        if v > (bound - digit) / 10 {
            proof {
                assert(all_digits(d.take(k + 1 - start)));
                assert(digits_value(d.take(k + 1 - start)) == v * 10 + digit);
                assert(v * 10 + digit > bound) by (nonlinear_arith)
                    requires
                        v > (bound - digit) / 10,
                        digit <= bound,
                ;
                if all_digits(d) {
                    lemma_digits_value_prefix(d, k + 1 - start);
                }
            }
            return None;
        }
        assert(v * 10 + digit <= bound) by (nonlinear_arith)
            requires
                v <= (bound - digit) / 10,
                digit <= bound,
        ;
        v = v * 10 + digit;
        k = k + 1;
    }
    assert(d.take(k - start) =~= d);
    Some(v)
}

/// `str::parse::<usize>` of std, as [`usize_of`] states.
pub fn parse_usize(s: &Vec<char>) -> (r: Option<usize>)
    ensures
        r == usize_of(s@),
{
    if s.len() == 0 {
        return None;
    }
    if (s[0] == '+' || s[0] == '-') && s.len() == 1 {
        return None;
    }
    let start: usize = if s[0] == '+' { 1 } else { 0 };
    assert(s@.skip(0) =~= s@);
    match digits_from(s, start, usize::MAX as u128) {
        Some(v) => Some(v as usize),
        None => None,
    }
}

/// `str::parse::<i32>` of std, as [`i32_of`] states.
pub fn parse_i32(s: &Vec<char>) -> (r: Option<i32>)
    ensures
        r == i32_of(s@),
{
    if s.len() == 0 {
        return None;
    }
    if (s[0] == '+' || s[0] == '-') && s.len() == 1 {
        return None;
    }
    let neg = s[0] == '-';
    let start: usize = if s[0] == '+' || neg { 1 } else { 0 };
    assert(s@.skip(0) =~= s@);
    if neg {
        match digits_from(s, start, 0x8000_0000u128) {
            Some(v) => Some((-(v as i64)) as i32),
            None => None,
        }
    } else {
        match digits_from(s, start, i32::MAX as u128) {
            Some(v) => Some(v as i32),
            None => None,
        }
    }
}

/// Whether a `,` stands at `pos` (`Token![,]`).
pub open spec fn comma_at(ts: Seq<TokV>, pos: int) -> bool {
    0 <= pos < ts.len() && ts[pos] == TokV::Punct(',')
}

/// The tokens inside the braces that stand at `pos` (`braced!`), if they do.
pub open spec fn brace_at(ts: Seq<TokV>, pos: int) -> Option<Seq<TokV>> {
    if 0 <= pos < ts.len() {
        match ts[pos] {
            TokV::Group(Delimiter::Brace, inner) => Some(inner),
            _ => None,
        }
    } else {
        None
    }
}

/// Reading an integer literal at `pos` as a `usize` (`LitInt` then `base10_parse`), and where
/// the reading ends: a literal of another kind is taken all the same.
pub open spec fn lit_usize(ts: Seq<TokV>, pos: int) -> (Result<usize, DslError>, int) {
    match read_lit(ts, pos) {
        Some((LitRead::Int(d), n)) => (
            match usize_of(d) {
                Some(v) => Ok(v),
                None => Err(DslError::InvalidInteger),
            },
            pos + n,
        ),
        Some((_, n)) => (Err(DslError::ExpectedInteger), pos + n),
        None => (Err(DslError::ExpectedInteger), pos),
    }
}

/// Reading an integer literal at `pos` as an `i32`, as [`lit_usize`] does for a `usize`.
pub open spec fn lit_i32(ts: Seq<TokV>, pos: int) -> (Result<i32, DslError>, int) {
    match read_lit(ts, pos) {
        Some((LitRead::Int(d), n)) => (
            match i32_of(d) {
                Some(v) => Ok(v),
                None => Err(DslError::InvalidInteger),
            },
            pos + n,
        ),
        Some((_, n)) => (Err(DslError::ExpectedInteger), pos + n),
        None => (Err(DslError::ExpectedInteger), pos),
    }
}

/// Reading a string literal, or else a character literal, at `pos`, as a text.
pub open spec fn lit_str_char(ts: Seq<TokV>, pos: int) -> (Result<Seq<char>, DslError>, int) {
    if 0 <= pos < ts.len() && ts[pos] is Literal && ts[pos]->Literal_0 is Str {
        (Ok(ts[pos]->Literal_0->Str_0), pos + 1)
    } else {
        match read_lit(ts, pos) {
            Some((LitRead::Char(c), n)) => (Ok(seq![c]), pos + n),
            Some((_, n)) => (Err(DslError::ExpectedStringOrChar), pos + n),
            None => (Err(DslError::ExpectedStringOrChar), pos),
        }
    }
}

/// A literal taken from the input, as [`LitRead`] describes it.
pub enum LitTaken {
    Str(Vec<char>),
    Char(char),
    Int(Vec<char>),
    Other,
}

impl View for LitTaken {
    type V = LitRead;

    open spec fn view(&self) -> LitRead {
        match self {
            LitTaken::Str(s) => LitRead::Str(s@),
            LitTaken::Char(c) => LitRead::Char(*c),
            LitTaken::Int(d) => LitRead::Int(d@),
            LitTaken::Other => LitRead::Other,
        }
    }
}

/// Reads a literal at `pos`, as [`read_lit`] states.
pub fn take_lit(ts: &Vec<Tok>, pos: usize) -> (r: Option<(LitTaken, usize)>)
    ensures
        match r {
            Some((l, n)) => read_lit(toks_view(ts@), pos as int) == Some((l@, n as int)),
            None => read_lit(toks_view(ts@), pos as int) is None,
        },
        r matches Some((_, n)) ==> 1 <= n && pos + n <= ts.len(),
{
    proof {
        lemma_toks_view(ts@);
    }
    if pos >= ts.len() {
        return None;
    }
    match &ts[pos] {
        Tok::Literal(LitKind::Str(s)) => Some((LitTaken::Str(chars_of(s.as_str())), 1)),
        Tok::Literal(LitKind::Char(c)) => Some((LitTaken::Char(*c), 1)),
        Tok::Literal(LitKind::Int(d)) => Some((LitTaken::Int(chars_of(d.as_str())), 1)),
        Tok::Literal(_) => Some((LitTaken::Other, 1)),
        Tok::Ident(s) => {
            let t = chars_of(s.as_str());
            if text_is(&t, "true") || text_is(&t, "false") {
                Some((LitTaken::Other, 1))
            } else {
                None
            }
        },
        Tok::Punct(c) => {
            if *c == '-' && pos + 1 < ts.len() {
                match &ts[pos + 1] {
                    Tok::Literal(LitKind::Int(d)) => {
                        let mut digits: Vec<char> = Vec::new();
                        digits.push('-');
                        let rest = chars_of(d.as_str());
                        crate::text::append_text(&mut digits, &rest);
                        Some((LitTaken::Int(digits), 2))
                    },
                    Tok::Literal(LitKind::Float) => Some((LitTaken::Other, 2)),
                    _ => None,
                }
            } else {
                None
            }
        },
        Tok::Group(_, _) => None,
    }
}

/// Whether a `,` stands at `pos`, as [`comma_at`] states.
pub fn is_comma(ts: &Vec<Tok>, pos: usize) -> (r: bool)
    ensures
        r == comma_at(toks_view(ts@), pos as int),
{
    proof {
        lemma_toks_view(ts@);
    }
    if pos < ts.len() {
        match &ts[pos] {
            Tok::Punct(c) => *c == ',',
            _ => false,
        }
    } else {
        false
    }
}

/// The tokens inside the braces at `pos`, as [`brace_at`] states.
pub fn braces(ts: &Vec<Tok>, pos: usize) -> (r: Option<&Vec<Tok>>)
    ensures
        match r {
            Some(inner) => brace_at(toks_view(ts@), pos as int) == Some(toks_view(inner@))
                && toks_view(inner@).len() == inner.len(),
            None => brace_at(toks_view(ts@), pos as int) is None,
        },
{
    proof {
        lemma_toks_view(ts@);
    }
    if pos < ts.len() {
        match &ts[pos] {
            Tok::Group(Delimiter::Brace, inner) => {
                proof {
                    lemma_toks_view(inner@);
                }
                Some(inner)
            },
            _ => None,
        }
    } else {
        None
    }
}

/// Reads a `usize` literal at `pos`, as [`lit_usize`] states.
pub fn read_usize(ts: &Vec<Tok>, pos: usize) -> (r: (Result<usize, DslError>, usize))
    ensures
        (r.0, r.1 as int) == lit_usize(toks_view(ts@), pos as int),
        pos <= ts.len() ==> pos <= r.1 <= ts.len(),
{
    match take_lit(ts, pos) {
        Some((LitTaken::Int(d), n)) => (
            match parse_usize(&d) {
                Some(v) => Ok(v),
                None => Err(DslError::InvalidInteger),
            },
            pos + n,
        ),
        Some((_, n)) => (Err(DslError::ExpectedInteger), pos + n),
        None => (Err(DslError::ExpectedInteger), pos),
    }
}

/// Reads an `i32` literal at `pos`, as [`lit_i32`] states.
pub fn read_i32(ts: &Vec<Tok>, pos: usize) -> (r: (Result<i32, DslError>, usize))
    ensures
        (r.0, r.1 as int) == lit_i32(toks_view(ts@), pos as int),
        pos <= ts.len() ==> pos <= r.1 <= ts.len(),
{
    match take_lit(ts, pos) {
        Some((LitTaken::Int(d), n)) => (
            match parse_i32(&d) {
                Some(v) => Ok(v),
                None => Err(DslError::InvalidInteger),
            },
            pos + n,
        ),
        Some((_, n)) => (Err(DslError::ExpectedInteger), pos + n),
        None => (Err(DslError::ExpectedInteger), pos),
    }
}

/// Reads a string or character literal at `pos` (`parse_lit_str_char`), as [`lit_str_char`]
/// states.
pub fn parse_lit_str_char(ts: &Vec<Tok>, pos: usize) -> (r: (Result<Vec<char>, DslError>, usize))
    ensures
        (match r.0 {
            Ok(t) => Ok(t@),
            Err(e) => Err(e),
        }, r.1 as int) == lit_str_char(toks_view(ts@), pos as int),
        pos <= ts.len() ==> pos <= r.1 <= ts.len(),
{
    proof {
        lemma_toks_view(ts@);
    }
    if pos < ts.len() {
        match &ts[pos] {
            Tok::Literal(LitKind::Str(s)) => {
                return (Ok(chars_of(s.as_str())), pos + 1);
            },
            _ => {},
        }
    }
    match take_lit(ts, pos) {
        Some((LitTaken::Char(c), n)) => {
            let mut t: Vec<char> = Vec::new();
            t.push(c);
            assert(t@ =~= seq![c]);
            (Ok(t), pos + n)
        },
        Some((_, n)) => (Err(DslError::ExpectedStringOrChar), pos + n),
        None => (Err(DslError::ExpectedStringOrChar), pos),
    }
}

/// The modifier that a name without arguments stands for, by the name's lowercase form.
pub open spec fn plain_modifier(n: Seq<char>) -> Option<ModifierV> {
    if n == "singular"@ {
        Some(ModifierV::Singular)
    } else if n == "plural"@ {
        Some(ModifierV::Plural)
    } else if n == "lower"@ || n == "lowercase"@ {
        Some(ModifierV::Lowercase)
    } else if n == "upper"@ || n == "uppercase"@ {
        Some(ModifierV::Uppercase)
    } else if n == "pascal"@ || n == "pascalcase"@ || n == "uppercamelcase"@ {
        Some(ModifierV::PascalCase)
    } else if n == "lowercamelcase"@ || n == "camelcase"@ || n == "camel"@ {
        Some(ModifierV::LowerCamelCase)
    } else if n == "snakecase"@ || n == "snake"@ || n == "snekcase"@ || n == "snek"@ {
        Some(ModifierV::SnakeCase)
    } else if n == "kebabcase"@ || n == "kebab"@ {
        Some(ModifierV::KebabCase)
    } else if n == "shoutysnakecase"@ || n == "shoutysnake"@ || n == "shoutysnekcase"@
        || n == "shoutysnek"@ {
        Some(ModifierV::ShoutySnakeCase)
    } else if n == "titlecase"@ || n == "title"@ {
        Some(ModifierV::TitleCase)
    } else if n == "shoutykebabcase"@ || n == "shoutykebab"@ {
        Some(ModifierV::ShoutyKebabCase)
    } else if n == "traincase"@ || n == "train"@ {
        Some(ModifierV::TrainCase)
    } else if n == "reverse"@ || n == "rev"@ {
        Some(ModifierV::Reverse)
    } else {
        None
    }
}

/// What a modifier's arguments give: the modifier, whether the braces at `pos` were taken, and
/// whether tokens were left over inside them.
pub type ArgsResult = Result<(ModifierV, bool, bool), DslError>;

/// The arguments of `replace{from, to}`; `to` may be left out and is then empty.
pub open spec fn args_replace(ts: Seq<TokV>, pos: int) -> ArgsResult {
    match brace_at(ts, pos) {
        None => Err(DslError::ExpectedBraces),
        Some(args) => match lit_str_char(args, 0) {
            (Err(e), _) => Err(e),
            (Ok(from), k) => if comma_at(args, k) {
                match lit_str_char(args, k + 1) {
                    (Err(e), _) => Err(e),
                    (Ok(to), k2) => Ok((ModifierV::Replace(from, to), true, k2 < args.len())),
                }
            } else {
                Ok((ModifierV::Replace(from, seq![]), true, k < args.len()))
            },
        },
    }
}

/// The arguments of `substr{start, end}`: both may be left out, as may the braces; what is not
/// an integer that fits is left out.
pub open spec fn args_substr(ts: Seq<TokV>, pos: int) -> ArgsResult {
    match brace_at(ts, pos) {
        None => Ok((ModifierV::Substr(None, None), false, false)),
        Some(args) => {
            let (a, k) = lit_usize(args, 0);
            if comma_at(args, k) {
                let (b, k2) = lit_usize(args, k + 1);
                Ok((ModifierV::Substr(a.ok(), b.ok()), true, k2 < args.len()))
            } else {
                Ok((ModifierV::Substr(a.ok(), None), true, k < args.len()))
            }
        },
    }
}

/// The single integer argument of `repeat{n}` (with `splitat` false) or `splitat{n}`.
pub open spec fn args_count(ts: Seq<TokV>, pos: int, split_at: bool) -> ArgsResult {
    match brace_at(ts, pos) {
        None => Err(DslError::ExpectedBraces),
        Some(args) => match lit_usize(args, 0) {
            (Err(e), _) => Err(e),
            (Ok(n), k) => Ok((
                if split_at {
                    ModifierV::SplitAt(n)
                } else {
                    ModifierV::Repeat(n)
                },
                true,
                k < args.len(),
            )),
        },
    }
}

/// The argument of `split{...}`: a character or string splits at that text, an integer at that
/// index.
pub open spec fn args_split(ts: Seq<TokV>, pos: int) -> ArgsResult {
    match brace_at(ts, pos) {
        None => Err(DslError::ExpectedBraces),
        Some(args) => match read_lit(args, 0) {
            None => Err(DslError::ExpectedLiteral),
            Some((LitRead::Char(c), n)) => Ok((ModifierV::Split(seq![c]), true, n < args.len())),
            Some((LitRead::Str(t), n)) => Ok((ModifierV::Split(t), true, n < args.len())),
            Some((LitRead::Int(d), n)) => match usize_of(d) {
                Some(mid) => Ok((ModifierV::SplitAt(mid), true, n < args.len())),
                None => Err(DslError::InvalidInteger),
            },
            Some((LitRead::Other, _)) => Err(DslError::UnsupportedSplitArgument),
        },
    }
}

/// The argument of `join{sep}`: without braces, or without a string or character, the
/// separator is empty.
pub open spec fn args_join(ts: Seq<TokV>, pos: int) -> ArgsResult {
    match brace_at(ts, pos) {
        None => Ok((ModifierV::Join(seq![]), false, false)),
        Some(args) => match lit_str_char(args, 0) {
            (Ok(sep), k) => Ok((ModifierV::Join(sep), true, k < args.len())),
            (Err(_), k) => Ok((ModifierV::Join(seq![]), true, k < args.len())),
        },
    }
}

/// The arguments of `padstart{width, pad}` (with `at_start`) and `padend{width, pad}`.
pub open spec fn args_pad(ts: Seq<TokV>, pos: int, at_start: bool) -> ArgsResult {
    match brace_at(ts, pos) {
        None => Err(DslError::ExpectedBraces),
        Some(args) => match lit_usize(args, 0) {
            (Err(e), _) => Err(e),
            (Ok(width), k) => if !comma_at(args, k) {
                Err(DslError::ExpectedComma)
            } else {
                match lit_str_char(args, k + 1) {
                    (Err(e), _) => Err(e),
                    (Ok(pad), k2) => Ok((
                        if at_start {
                            ModifierV::PadStart(width, pad)
                        } else {
                            ModifierV::PadEnd(width, pad)
                        },
                        true,
                        k2 < args.len(),
                    )),
                }
            },
        },
    }
}

/// The arguments of `slice{start, end}`: either may be left out; what is not an integer that
/// fits is left out.
pub open spec fn args_slice(ts: Seq<TokV>, pos: int) -> ArgsResult {
    match brace_at(ts, pos) {
        None => Err(DslError::ExpectedBraces),
        Some(args) => {
            let (a, k) = lit_i32(args, 0);
            if comma_at(args, k) {
                let (b, k2) = lit_i32(args, k + 1);
                Ok((ModifierV::Slice(a.ok(), b.ok()), true, k2 < args.len()))
            } else {
                Ok((ModifierV::Slice(a.ok(), None), true, k < args.len()))
            }
        },
    }
}

/// The mode that a word names in `splice{mode, ...}`, by its lowercase form.
pub open spec fn splice_mode(n: Seq<char>) -> Option<Output> {
    if n == "into"@ || n == "value"@ || n == "val"@ {
        Some(Output::Value)
    } else if n == "out"@ || n == "rm"@ || n == "removed"@ {
        Some(Output::Removed)
    } else {
        None
    }
}

/// The start, end and replacement of a splice, read from `k` on in `args`.
pub open spec fn splice_rest(args: Seq<TokV>, k: int, out: Output) -> ArgsResult {
    let (a, k1) = lit_i32(args, k);
    if !comma_at(args, k1) {
        Ok((ModifierV::Splice(out, a.ok(), None, None), true, k1 < args.len()))
    } else {
        let (b, k2) = lit_i32(args, k1 + 1);
        if !comma_at(args, k2) {
            Ok((ModifierV::Splice(out, a.ok(), b.ok(), None), true, k2 < args.len()))
        } else {
            let (r, k3) = lit_str_char(args, k2 + 1);
            Ok((ModifierV::Splice(out, a.ok(), b.ok(), r.ok()), true, k3 < args.len()))
        }
    }
}

/// The arguments of `splice{mode, start, end, replacement}`, of `spliceout{start, end,
/// replacement}` and of `spliceinto{...}`; `mode` gives the mode that the name fixes, if it
/// does. A missing mode is `into`.
pub open spec fn args_splice(ts: Seq<TokV>, pos: int, mode: Option<Output>) -> ArgsResult {
    match brace_at(ts, pos) {
        None => Err(DslError::ExpectedBraces),
        Some(args) => match mode {
            Some(out) => splice_rest(args, 0, out),
            None => {
                let named = args.len() > 0 && args[0] is Ident && !is_reserved(args[0]->Ident_0);
                let out = if named {
                    splice_mode(lowered(args[0]->Ident_0))
                } else {
                    Some(Output::Value)
                };
                let k: int = if named { 1 } else { 0 };
                match out {
                    None => Err(DslError::InvalidSpliceOutput(word_made(args[0]->Ident_0))),
                    Some(o) => if !comma_at(args, k) {
                        Ok((ModifierV::Splice(o, None, None, None), true, k < args.len()))
                    } else {
                        splice_rest(args, k + 1, o)
                    },
                }
            },
        },
    }
}

/// The modifier that the name `n` (lowercase) stands for, with its arguments from `pos` on.
pub open spec fn modifier_at(ts: Seq<TokV>, pos: int, n: Seq<char>) -> ArgsResult {
    match plain_modifier(n) {
        Some(m) => Ok((m, false, false)),
        None => if n == "replace"@ {
            args_replace(ts, pos)
        } else if n == "substr"@ || n == "substring"@ {
            args_substr(ts, pos)
        } else if n == "repeat"@ || n == "rep"@ || n == "times"@ {
            args_count(ts, pos, false)
        } else if n == "splitat"@ {
            args_count(ts, pos, true)
        } else if n == "split"@ {
            args_split(ts, pos)
        } else if n == "join"@ {
            args_join(ts, pos)
        } else if n == "padstart"@ || n == "padleft"@ || n == "padl"@ {
            args_pad(ts, pos, true)
        } else if n == "padend"@ || n == "padright"@ || n == "padr"@ {
            args_pad(ts, pos, false)
        } else if n == "slice"@ {
            args_slice(ts, pos)
        } else if n == "spliceout"@ || n == "splice_out"@ {
            args_splice(ts, pos, Some(Output::Removed))
        } else if n == "spliceinto"@ || n == "splice_into"@ {
            args_splice(ts, pos, Some(Output::Value))
        } else if n == "splice"@ {
            args_splice(ts, pos, None)
        } else {
            Err(DslError::UnknownModifier)
        },
    }
}

/// Whether a `|` stands at `pos`.
pub open spec fn pipe_at(ts: Seq<TokV>, pos: int) -> bool {
    0 <= pos < ts.len() && ts[pos] == TokV::Punct('|')
}

/// A modifier chain read from `pos` on (`parse_modifiers`): while a `|` follows, a modifier's
/// name and its arguments; a `|` at the very end ends the chain. `acc` holds the modifiers read
/// so far and `left` whether tokens were left over inside some braces. Gives the chain, where
/// it ends, and `left`.
pub open spec fn modifiers_from(ts: Seq<TokV>, pos: int, acc: Seq<ModifierV>, left: bool) -> Result<
    (Seq<ModifierV>, int, bool),
    DslError,
>
    decreases ts.len() - pos,
{
    if !pipe_at(ts, pos) {
        Ok((acc, pos, left))
    } else if pos + 1 >= ts.len() {
        Ok((acc, pos + 1, left))
    } else {
        match ts[pos + 1] {
            TokV::Ident(name) => if is_reserved(name) {
                Err(DslError::ExpectedIdent)
            } else {
                match modifier_at(ts, pos + 2, lowered(name)) {
                    Err(e) => Err(e),
                    Ok((m, used, l)) => modifiers_from(
                        ts,
                        pos + 2 + if used { 1int } else { 0int },
                        acc.push(m),
                        left || l,
                    ),
                }
            },
            _ => Err(DslError::ExpectedIdent),
        }
    }
}

/// The mathematical form of what reading a modifier's arguments gives.
pub open spec fn args_view(r: Result<(Modifier, bool, bool), DslError>) -> ArgsResult {
    match r {
        Ok((m, used, left)) => Ok((m@, used, left)),
        Err(e) => Err(e),
    }
}

/// Reads the arguments of `replace`, as [`args_replace`] states.
fn parse_replace_args(ts: &Vec<Tok>, pos: usize) -> (r: Result<(Modifier, bool, bool), DslError>)
    ensures
        args_view(r) == args_replace(toks_view(ts@), pos as int),
{
    let args = match braces(ts, pos) {
        Some(a) => a,
        None => return Err(DslError::ExpectedBraces),
    };
    let (from, k) = parse_lit_str_char(args, 0);
    let from = match from {
        Ok(f) => f,
        Err(e) => return Err(e),
    };
    if is_comma(args, k) {
        let (to, k2) = parse_lit_str_char(args, k + 1);
        match to {
            Ok(t) => Ok((Modifier::Replace(string_of(&from), string_of(&t)), true, k2 < args.len())),
            Err(e) => Err(e),
        }
    } else {
        let empty: Vec<char> = Vec::new();
        Ok((Modifier::Replace(string_of(&from), string_of(&empty)), true, k < args.len()))
    }
}

/// Reads the arguments of `substr`, as [`args_substr`] states.
fn parse_substr_args(ts: &Vec<Tok>, pos: usize) -> (r: Result<(Modifier, bool, bool), DslError>)
    ensures
        args_view(r) == args_substr(toks_view(ts@), pos as int),
{
    let args = match braces(ts, pos) {
        Some(a) => a,
        None => return Ok((Modifier::Substr(None, None), false, false)),
    };
    let (a, k) = read_usize(args, 0);
    if is_comma(args, k) {
        let (b, k2) = read_usize(args, k + 1);
        Ok((Modifier::Substr(a.ok(), b.ok()), true, k2 < args.len()))
    } else {
        Ok((Modifier::Substr(a.ok(), None), true, k < args.len()))
    }
}

/// Reads the argument of `repeat` or `splitat`, as [`args_count`] states.
fn parse_count_args(ts: &Vec<Tok>, pos: usize, split_at: bool) -> (r: Result<(Modifier, bool, bool), DslError>)
    ensures
        args_view(r) == args_count(toks_view(ts@), pos as int, split_at),
{
    let args = match braces(ts, pos) {
        Some(a) => a,
        None => return Err(DslError::ExpectedBraces),
    };
    match read_usize(args, 0) {
        (Err(e), _) => Err(e),
        (Ok(n), k) => Ok((
            if split_at {
                Modifier::SplitAt(n)
            } else {
                Modifier::Repeat(n)
            },
            true,
            k < args.len(),
        )),
    }
}

/// Reads the argument of `split`, as [`args_split`] states.
fn parse_split_args(ts: &Vec<Tok>, pos: usize) -> (r: Result<(Modifier, bool, bool), DslError>)
    ensures
        args_view(r) == args_split(toks_view(ts@), pos as int),
{
    let args = match braces(ts, pos) {
        Some(a) => a,
        None => return Err(DslError::ExpectedBraces),
    };
    match take_lit(args, 0) {
        None => Err(DslError::ExpectedLiteral),
        Some((LitTaken::Char(c), n)) => {
            let mut t: Vec<char> = Vec::new();
            t.push(c);
            assert(t@ =~= seq![c]);
            Ok((Modifier::Split(string_of(&t)), true, n < args.len()))
        },
        Some((LitTaken::Str(t), n)) => Ok((Modifier::Split(string_of(&t)), true, n < args.len())),
        Some((LitTaken::Int(d), n)) => match parse_usize(&d) {
            Some(mid) => Ok((Modifier::SplitAt(mid), true, n < args.len())),
            None => Err(DslError::InvalidInteger),
        },
        Some((LitTaken::Other, _)) => Err(DslError::UnsupportedSplitArgument),
    }
}

/// Reads the argument of `join`, as [`args_join`] states.
fn parse_join_args(ts: &Vec<Tok>, pos: usize) -> (r: Result<(Modifier, bool, bool), DslError>)
    ensures
        args_view(r) == args_join(toks_view(ts@), pos as int),
{
    let empty: Vec<char> = Vec::new();
    let args = match braces(ts, pos) {
        Some(a) => a,
        None => return Ok((Modifier::Join(string_of(&empty)), false, false)),
    };
    match parse_lit_str_char(args, 0) {
        (Ok(sep), k) => Ok((Modifier::Join(string_of(&sep)), true, k < args.len())),
        (Err(_), k) => Ok((Modifier::Join(string_of(&empty)), true, k < args.len())),
    }
}

/// The arguments of a padding (`parse_pad_args`), as [`args_pad`] states.
fn parse_pad_args(ts: &Vec<Tok>, pos: usize, at_start: bool) -> (r: Result<(Modifier, bool, bool), DslError>)
    ensures
        args_view(r) == args_pad(toks_view(ts@), pos as int, at_start),
{
    let args = match braces(ts, pos) {
        Some(a) => a,
        None => return Err(DslError::ExpectedBraces),
    };
    let (width, k) = read_usize(args, 0);
    let width = match width {
        Ok(w) => w,
        Err(e) => return Err(e),
    };
    if !is_comma(args, k) {
        return Err(DslError::ExpectedComma);
    }
    match parse_lit_str_char(args, k + 1) {
        (Err(e), _) => Err(e),
        (Ok(pad), k2) => {
            let pad = string_of(&pad);
            Ok((
                if at_start {
                    Modifier::PadStart(width, pad)
                } else {
                    Modifier::PadEnd(width, pad)
                },
                true,
                k2 < args.len(),
            ))
        },
    }
}

/// Reads the arguments of `slice`, as [`args_slice`] states.
fn parse_slice_args(ts: &Vec<Tok>, pos: usize) -> (r: Result<(Modifier, bool, bool), DslError>)
    ensures
        args_view(r) == args_slice(toks_view(ts@), pos as int),
{
    let args = match braces(ts, pos) {
        Some(a) => a,
        None => return Err(DslError::ExpectedBraces),
    };
    let (a, k) = read_i32(args, 0);
    if is_comma(args, k) {
        let (b, k2) = read_i32(args, k + 1);
        Ok((Modifier::Slice(a.ok(), b.ok()), true, k2 < args.len()))
    } else {
        Ok((Modifier::Slice(a.ok(), None), true, k < args.len()))
    }
}

/// Reads the start, end and replacement of a splice, as [`splice_rest`] states.
fn parse_splice_rest(args: &Vec<Tok>, k: usize, out: Output) -> (r: Result<(Modifier, bool, bool), DslError>)
    requires
        k <= args.len(),
    ensures
        args_view(r) == splice_rest(toks_view(args@), k as int, out),
{
    proof {
        lemma_toks_view(args@);
    }
    let (a, k1) = read_i32(args, k);
    if !is_comma(args, k1) {
        return Ok((Modifier::Splice(out, a.ok(), None, None), true, k1 < args.len()));
    }
    let (b, k2) = read_i32(args, k1 + 1);
    if !is_comma(args, k2) {
        return Ok((Modifier::Splice(out, a.ok(), b.ok(), None), true, k2 < args.len()));
    }
    let (rep, k3) = parse_lit_str_char(args, k2 + 1);
    let rep: Option<String> = match rep {
        Ok(t) => Some(string_of(&t)),
        Err(_) => None,
    };
    Ok((Modifier::Splice(out, a.ok(), b.ok(), rep), true, k3 < args.len()))
}

/// The arguments of a splice (`parse_splice`), as [`args_splice`] states.
fn parse_splice(ts: &Vec<Tok>, pos: usize, mode: Option<Output>) -> (r: Result<(Modifier, bool, bool), DslError>)
    ensures
        args_view(r) == args_splice(toks_view(ts@), pos as int, mode),
{
    let args = match braces(ts, pos) {
        Some(a) => a,
        None => return Err(DslError::ExpectedBraces),
    };
    proof {
        lemma_toks_view(args@);
    }
    match mode {
        Some(out) => parse_splice_rest(args, 0, out),
        None => {
            let mut named = false;
            let mut o: Output = Output::Value;
            if args.len() > 0 {
                match &args[0] {
                    Tok::Ident(s) => {
                        let name = chars_of(s.as_str());
                        if !is_reserved_text(&name) {
                            named = true;
                            match output_mode(&lowercase_text(&name)) {
                                Some(m) => {
                                    o = m;
                                },
                                None => return Err(DslError::InvalidSpliceOutput(make_word(&name))),
                            }
                        }
                    },
                    _ => {},
                }
            }
            let k: usize = if named { 1 } else { 0 };
            if !is_comma(args, k) {
                Ok((Modifier::Splice(o, None, None, None), true, k < args.len()))
            } else {
                parse_splice_rest(args, k + 1, o)
            }
        },
    }
}

/// The mode that a lowercase word names, as [`splice_mode`] states.
fn output_mode(n: &Vec<char>) -> (r: Option<Output>)
    ensures
        r == splice_mode(n@),
{
    if text_is(n, "into") || text_is(n, "value") || text_is(n, "val") {
        Some(Output::Value)
    } else if text_is(n, "out") || text_is(n, "rm") || text_is(n, "removed") {
        Some(Output::Removed)
    } else {
        None
    }
}

/// Whether `syn` refuses a word as an identifier, as [`is_reserved`] states.
pub fn is_reserved_text(s: &Vec<char>) -> (r: bool)
    ensures
        r == is_reserved(s@),
{
    text_is(s, "_") || text_is(s, "abstract") || text_is(s, "as") || text_is(s, "async")
        || text_is(s, "await") || text_is(s, "become") || text_is(s, "box") || text_is(s, "break")
        || text_is(s, "const") || text_is(s, "continue") || text_is(s, "crate") || text_is(s, "do")
        || text_is(s, "dyn") || text_is(s, "else") || text_is(s, "enum") || text_is(s, "extern")
        || text_is(s, "false") || text_is(s, "final") || text_is(s, "fn") || text_is(s, "for")
        || text_is(s, "if") || text_is(s, "impl") || text_is(s, "in") || text_is(s, "let")
        || text_is(s, "loop") || text_is(s, "macro") || text_is(s, "match") || text_is(s, "mod")
        || text_is(s, "move") || text_is(s, "mut") || text_is(s, "override") || text_is(s, "priv")
        || text_is(s, "pub") || text_is(s, "ref") || text_is(s, "return") || text_is(s, "Self")
        || text_is(s, "self") || text_is(s, "static") || text_is(s, "struct") || text_is(s, "super")
        || text_is(s, "trait") || text_is(s, "true") || text_is(s, "try") || text_is(s, "type")
        || text_is(s, "typeof") || text_is(s, "unsafe") || text_is(s, "unsized") || text_is(s, "use")
        || text_is(s, "virtual") || text_is(s, "where") || text_is(s, "while") || text_is(s, "yield")
}

/// The modifier that a lowercase name without arguments stands for, as [`plain_modifier`]
/// states.
fn plain_modifier_of(n: &Vec<char>) -> (r: Option<Modifier>)
    ensures
        match r {
            Some(m) => plain_modifier(n@) == Some(m@),
            None => plain_modifier(n@) is None,
        },
{
    if text_is(n, "singular") {
        Some(Modifier::Singular)
    } else if text_is(n, "plural") {
        Some(Modifier::Plural)
    } else if text_is(n, "lower") || text_is(n, "lowercase") {
        Some(Modifier::Lowercase)
    } else if text_is(n, "upper") || text_is(n, "uppercase") {
        Some(Modifier::Uppercase)
    } else if text_is(n, "pascal") || text_is(n, "pascalcase") || text_is(n, "uppercamelcase") {
        Some(Modifier::PascalCase)
    } else if text_is(n, "lowercamelcase") || text_is(n, "camelcase") || text_is(n, "camel") {
        Some(Modifier::LowerCamelCase)
    } else if text_is(n, "snakecase") || text_is(n, "snake") || text_is(n, "snekcase") || text_is(
        n,
        "snek",
    ) {
        Some(Modifier::SnakeCase)
    } else if text_is(n, "kebabcase") || text_is(n, "kebab") {
        Some(Modifier::KebabCase)
    } else if text_is(n, "shoutysnakecase") || text_is(n, "shoutysnake") || text_is(
        n,
        "shoutysnekcase",
    ) || text_is(n, "shoutysnek") {
        Some(Modifier::ShoutySnakeCase)
    } else if text_is(n, "titlecase") || text_is(n, "title") {
        Some(Modifier::TitleCase)
    } else if text_is(n, "shoutykebabcase") || text_is(n, "shoutykebab") {
        Some(Modifier::ShoutyKebabCase)
    } else if text_is(n, "traincase") || text_is(n, "train") {
        Some(Modifier::TrainCase)
    } else if text_is(n, "reverse") || text_is(n, "rev") {
        Some(Modifier::Reverse)
    } else {
        None
    }
}

/// The modifier that a lowercase name stands for, with its arguments from `pos` on, as
/// [`modifier_at`] states.
fn parse_modifier(ts: &Vec<Tok>, pos: usize, n: &Vec<char>) -> (r: Result<(Modifier, bool, bool), DslError>)
    ensures
        args_view(r) == modifier_at(toks_view(ts@), pos as int, n@),
{
    match plain_modifier_of(n) {
        Some(m) => Ok((m, false, false)),
        None => if text_is(n, "replace") {
            parse_replace_args(ts, pos)
        } else if text_is(n, "substr") || text_is(n, "substring") {
            parse_substr_args(ts, pos)
        } else if text_is(n, "repeat") || text_is(n, "rep") || text_is(n, "times") {
            parse_count_args(ts, pos, false)
        } else if text_is(n, "splitat") {
            parse_count_args(ts, pos, true)
        } else if text_is(n, "split") {
            parse_split_args(ts, pos)
        } else if text_is(n, "join") {
            parse_join_args(ts, pos)
        } else if text_is(n, "padstart") || text_is(n, "padleft") || text_is(n, "padl") {
            parse_pad_args(ts, pos, true)
        } else if text_is(n, "padend") || text_is(n, "padright") || text_is(n, "padr") {
            parse_pad_args(ts, pos, false)
        } else if text_is(n, "slice") {
            parse_slice_args(ts, pos)
        } else if text_is(n, "spliceout") || text_is(n, "splice_out") {
            parse_splice(ts, pos, Some(Output::Removed))
        } else if text_is(n, "spliceinto") || text_is(n, "splice_into") {
            parse_splice(ts, pos, Some(Output::Value))
        } else if text_is(n, "splice") {
            parse_splice(ts, pos, None)
        } else {
            Err(DslError::UnknownModifier)
        },
    }
}

/// Reads a modifier chain from `pos` on, as [`modifiers_from`] states: the chain, where it
/// ends, and whether tokens were left over inside some braces.
pub fn parse_modifiers(ts: &Vec<Tok>, pos: usize) -> (r: Result<(Vec<Modifier>, usize, bool), DslError>)
    requires
        pos <= ts.len(),
    ensures
        match r {
            Ok((ms, p, left)) => modifiers_from(toks_view(ts@), pos as int, seq![], false)
                == Ok::<_, DslError>((modifiers_view(ms@), p as int, left)) && p <= ts.len(),
            Err(e) => modifiers_from(toks_view(ts@), pos as int, seq![], false) == Err::<
                (Seq<ModifierV>, int, bool),
                DslError,
            >(e),
        },
{
    proof {
        lemma_toks_view(ts@);
    }
    let ghost tv = toks_view(ts@);
    let mut ms: Vec<Modifier> = Vec::new();
    let mut left = false;
    let mut p: usize = pos;
    assert(modifiers_view(ms@) =~= Seq::<ModifierV>::empty());
    loop
        invariant
            p <= ts.len(),
            tv == toks_view(ts@),
            tv.len() == ts.len(),
            forall|i: int| 0 <= i < ts.len() ==> #[trigger] tv[i] == ts@[i]@,
            modifiers_from(tv, pos as int, seq![], false) == modifiers_from(
                tv,
                p as int,
                modifiers_view(ms@),
                left,
            ),
        decreases ts.len() - p,
    {
        let is_pipe = p < ts.len() && match &ts[p] {
            Tok::Punct(c) => *c == '|',
            _ => false,
        };
        if !is_pipe {
            return Ok((ms, p, left));
        }
        if p + 1 >= ts.len() {
            return Ok((ms, p + 1, left));
        }
        let name = match &ts[p + 1] {
            Tok::Ident(s) => chars_of(s.as_str()),
            _ => return Err(DslError::ExpectedIdent),
        };
        if is_reserved_text(&name) {
            return Err(DslError::ExpectedIdent);
        }
        let lname = lowercase_text(&name);
        match parse_modifier(ts, p + 2, &lname) {
            Err(e) => return Err(e),
            Ok((m, used, l)) => {
                let ghost before = ms@;
                ms.push(m);
                assert(modifiers_view(ms@) =~= modifiers_view(before).push(m@));
                left = left || l;
                proof {
                    lemma_modifier_at_used(tv, p + 2, lname@);
                }
                p = p + 2 + if used { 1 } else { 0 };
            },
        }
    }
}

/// Arguments are taken only from braces that stand there.
proof fn lemma_modifier_at_used(ts: Seq<TokV>, pos: int, n: Seq<char>)
    ensures
        modifier_at(ts, pos, n) matches Ok((_, used, _)) && used ==> brace_at(ts, pos) is Some,
{
    if brace_at(ts, pos) is None {
        let args_fail = modifier_at(ts, pos, n) matches Ok((_, used, _)) && used;
        assert(!args_fail);
    }
}

} // verus!







