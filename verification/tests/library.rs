//! The library function by function: laws on concrete values, errors, and the outside calls.
use std::str::FromStr;

use proc_macro2::{Group, Ident, Literal, Span, TokenStream, TokenTree};
use tweld::builder::{build_string, modify_value, parse_pos, try_build_string};
use tweld::literals::weld_string;
use tweld::models::{Modifier, Output, TokenPart};
use tweld::parser::{dsl_message, word_from, DslError, RenderType, TweldDsl};
use tweld::literals::Lexeme;
use tweld::scanner::{render_answers, render_identifier, scan_source, scan_tokens, weld_message, Scanned, WeldError};
use tweld::tokens::{Delimiter, LitKind, Tok};

fn ts(src: &str) -> TokenStream {
    TokenStream::from_str(src).unwrap()
}

fn delimiter(d: proc_macro2::Delimiter) -> Delimiter {
    match d {
        proc_macro2::Delimiter::Parenthesis => Delimiter::Parenthesis,
        proc_macro2::Delimiter::Brace => Delimiter::Brace,
        proc_macro2::Delimiter::Bracket => Delimiter::Bracket,
        proc_macro2::Delimiter::None => Delimiter::Invisible,
    }
}

fn lit_kind(lit: &Literal) -> LitKind {
    match syn::Lit::new(lit.clone()) {
        syn::Lit::Str(s) => LitKind::Str(s.value()),
        syn::Lit::Char(c) => LitKind::Char(c.value()),
        syn::Lit::Int(i) => LitKind::Int(i.base10_digits().to_string()),
        syn::Lit::Float(_) => LitKind::Float,
        _ => LitKind::Other,
    }
}

fn to_toks(stream: &TokenStream) -> Vec<Tok> {
    stream
        .clone()
        .into_iter()
        .map(|t| match t {
            TokenTree::Ident(i) => Tok::Ident(i.to_string()),
            TokenTree::Punct(p) => Tok::Punct(p.as_char()),
            TokenTree::Literal(l) => Tok::Literal(lit_kind(&l)),
            TokenTree::Group(g) => Tok::Group(delimiter(g.delimiter()), to_toks(&g.stream())),
        })
        .collect()
}

fn render(scanned: &[Scanned], input: &TokenStream) -> TokenStream {
    let trees: Vec<TokenTree> = input.clone().into_iter().collect();
    scanned
        .iter()
        .map(|s| match s {
            Scanned::Keep(i) => trees[*i].clone(),
            Scanned::Group(i, inner) => match &trees[*i] {
                TokenTree::Group(g) => {
                    let mut group = Group::new(g.delimiter(), render(inner, &g.stream()));
                    group.set_span(g.span());
                    TokenTree::Group(group)
                }
                other => other.clone(),
            },
            Scanned::Ident(text) => TokenTree::Ident(match text.strip_prefix("r#") {
                Some(raw) => Ident::new_raw(raw, Span::call_site()),
                None => Ident::new(text, Span::call_site()),
            }),
            Scanned::Str(text) => TokenTree::Literal(Literal::string(text)),
            Scanned::Text(i, text) => {
                let mut lit = Literal::string(text);
                lit.set_span(trees[*i].span());
                TokenTree::Literal(lit)
            }
        })
        .collect()
}

fn weld(input: &TokenStream) -> Result<String, WeldError> {
    let out = scan_tokens(&to_toks(input))?;
    Ok(render(&out, input).to_string())
}

fn welds_to(src: &str, expected: &str) {
    assert_eq!(weld(&ts(src)).unwrap(), expected, "input: {src}");
}

fn fails_with(src: &str, expected: WeldError) {
    assert_eq!(weld(&ts(src)), Err(expected), "input: {src}");
}

fn chars(s: &str) -> Vec<char> {
    s.chars().collect()
}

fn modified(value: &str, m: Modifier) -> Option<String> {
    modify_value(&chars(value), &m).map(|v| v.into_iter().collect())
}

#[test]
fn reverse_twice_gives_back_the_value() {
    welds_to("@[(abc | rev | rev)]", "abc");
    welds_to(r#"@[["a" b c] | reverse | reverse | join{","}]"#, "\"a,b,c\"");
    welds_to(r#"@[["a" b c] | reverse | join{","}]"#, "\"c,b,a\"");
    welds_to("@[(abc | rev)]", "cba");
}

#[test]
fn split_then_join_gives_back_the_value() {
    welds_to(r#"@[("a-b--c" | split{"-"} | join{"-"})]"#, "\"a-b--c\"");
}

#[test]
fn join_passes_a_single_value_through() {
    welds_to(r#"@[(abc | join{"_"})]"#, "abc");
}

#[test]
fn singular_and_plural_undo_each_other() {
    welds_to("@[(Users | singular | plural)]", "Users");
    welds_to("@[(User | plural | singular)]", "User");
    welds_to("@[(Bus | plural)]", "Bus");
    welds_to("@[(Buss | singular)]", "Bus");
}

#[test]
fn padding_repeats_and_cuts_the_pattern() {
    welds_to(r#"@[(ab | padstart{5, "xy"})]"#, "xyxab");
    welds_to(r#"@[(ab | padend{5, "xy"})]"#, "abxyx");
    welds_to(r#"@[(abcdef | padstart{3, "xy"})]"#, "abcdef");
}

#[test]
fn positions_count_from_the_end_when_negative() {
    assert_eq!(parse_pos(6, 2), Some(2));
    assert_eq!(parse_pos(6, 9), Some(6));
    assert_eq!(parse_pos(6, -2), Some(4));
    assert_eq!(parse_pos(6, -6), Some(0));
    assert_eq!(parse_pos(i32::MIN + 1, -2), None);
    welds_to("@[(abcdef | slice{-2})]", "ef");
}

#[test]
fn slice_with_start_after_end_is_empty() {
    welds_to(r#"@[("abcdef" | slice{4, 2})]"#, "\"\"");
    assert_eq!(modified("abcdef", Modifier::Slice(Some(-1), Some(-3))), Some(String::new()));
}

#[test]
fn splice_value_and_removed_make_up_the_value() {
    welds_to(r#"@[("abcdef" | splice{val, 1, 3})]"#, "\"adef\"");
    welds_to(r#"@[("abcdef" | splice{out, 1, 3})]"#, "\"bc\"");
    welds_to(r#"@[("abcdef" | splice{val, 1, 3, "XY"})]"#, "\"aXYdef\"");
}

#[test]
fn repeat_writes_the_value_again() {
    welds_to("@[(ab | repeat{3})]", "ababab");
    welds_to(r#"@[("ab" | repeat{0})]"#, "\"\"");
    fails_with("@[(ab | repeat{0})]", WeldError::InvalidIdent);
}

#[test]
fn single_value_modifiers_act_on_each_item() {
    welds_to(r#"@[["ab" cd] | upper | join{","}]"#, "\"AB,CD\"");
    welds_to(r#"@[["ab" cd] | padstart{3, "_"} | join{","}]"#, "\"_ab,_cd\"");
    welds_to("@[[ab cd] | upper | join]", "ABCD");
}

#[test]
fn split_at_an_index_beyond_the_length_is_ignored() {
    welds_to(r#"@[("abc" | split{5} | join{"-"})]"#, "\"abc\"");
    welds_to(r#"@[("abc" | split{1} | join{"-"})]"#, "\"a-bc\"");
    welds_to(r#"@[("abc" | splitat{2} | join{"-"})]"#, "\"ab-c\"");
}

#[test]
fn strings_without_marker_keep_their_value() {
    assert_eq!(weld_string(&"plain [text] @ here".to_string()), Ok("plain [text] @ here".to_string()));
    assert_eq!(weld(&ts(r#"let s = "no marker";"#)).unwrap(), "let s = \"no marker\" ;");
}

#[test]
fn strings_are_welded_inside() {
    assert_eq!(
        weld_string(&"Fetching @[Users | singular | lower] {}...".to_string()),
        Ok("Fetching user {}...".to_string())
    );
    assert_eq!(
        weld(&ts(r#"println!("@[(get Items) | snek] and @[[a b] | reverse | join{\"+\"}]")"#)).unwrap(),
        "println ! (\"get_items and b+a\")"
    );
    assert_eq!(weld_string(&"open @[ only".to_string()), Ok("open @[ only".to_string()));
}

#[test]
fn tokens_outside_are_kept() {
    assert_eq!(weld(&ts("let x = 1 ;")).unwrap(), "let x = 1 ;");
    assert_eq!(weld(&ts("fn @[(get Name) | snek]() {}")).unwrap(), "fn get_name () { }");
    assert_eq!(weld(&ts("a @ b")).unwrap(), "a @ b");
    let out = scan_tokens(&to_toks(&ts("a + b"))).unwrap();
    assert!(matches!(out.as_slice(), [Scanned::Keep(0), Scanned::Keep(1), Scanned::Keep(2)]));
}

#[test]
fn welded_identifiers_are_identifiers() {
    assert!(matches!(render_identifier(&"get name".to_string()), Ok(Scanned::Ident(t)) if t == "getname"));
    assert!(matches!(render_identifier(&"loop".to_string()), Ok(Scanned::Ident(t)) if t == "r#loop"));
    assert_eq!(render_identifier(&"1abc".to_string()).err(), Some(WeldError::InvalidIdent));
    assert_eq!(render_identifier(&"self".to_string()).err(), Some(WeldError::InvalidIdent));
    welds_to("@[lo op]", "r#loop");
    welds_to("@[(get_test | title)]", "GetTest");
    welds_to("@[r#loop X]", "loopX");
}

#[test]
fn casings_are_done_by_heck_and_std() {
    let v = "get_TestStruct";
    assert_eq!(modified(v, Modifier::Lowercase).unwrap(), "get_teststruct");
    assert_eq!(modified(v, Modifier::Uppercase).unwrap(), "GET_TESTSTRUCT");
    assert_eq!(modified(v, Modifier::PascalCase).unwrap(), "GetTestStruct");
    assert_eq!(modified(v, Modifier::LowerCamelCase).unwrap(), "getTestStruct");
    assert_eq!(modified(v, Modifier::SnakeCase).unwrap(), "get_test_struct");
    assert_eq!(modified(v, Modifier::KebabCase).unwrap(), "get-test-struct");
    assert_eq!(modified(v, Modifier::ShoutySnakeCase).unwrap(), "GET_TEST_STRUCT");
    assert_eq!(modified(v, Modifier::TitleCase).unwrap(), "Get Test Struct");
    assert_eq!(modified(v, Modifier::ShoutyKebabCase).unwrap(), "GET-TEST-STRUCT");
    assert_eq!(modified(v, Modifier::TrainCase).unwrap(), "Get-Test-Struct");
}

#[test]
fn text_modifiers_give_exact_values() {
    assert_eq!(modified("a-b-a", Modifier::Replace("a".into(), "xy".into())).unwrap(), "xy-b-xy");
    assert_eq!(modified("abcdef", Modifier::Substr(Some(1), Some(4))).unwrap(), "bcd");
    assert_eq!(modified("abcdef", Modifier::Substr(Some(4), Some(1))), None);
    assert_eq!(modified("abc", Modifier::Substr(Some(9), None)), None);
    assert_eq!(modified("abc", Modifier::Reverse).unwrap(), "cba");
    assert_eq!(modified("ab", Modifier::Repeat(2)).unwrap(), "abab");
    assert_eq!(modified("items", Modifier::Singular).unwrap(), "item");
    assert_eq!(modified("item", Modifier::Singular).unwrap(), "item");
    assert_eq!(modified("item", Modifier::Plural).unwrap(), "items");
    assert_eq!(modified("abc", Modifier::PadStart(5, "".into())), None);
    assert_eq!(modified("abcdef", Modifier::Splice(Output::Removed, Some(-3), None, None)).unwrap(), "def");
    assert_eq!(modified("abc", Modifier::Splice(Output::Value, Some(1), Some(9), None)).unwrap(), "a");
    assert_eq!(modified("abc", Modifier::Splice(Output::Removed, Some(-9), None, None)).unwrap(), "");
    assert_eq!(modified("abc", Modifier::Splice(Output::Value, Some(-9), Some(-8), None)), None);
}

#[test]
fn build_string_runs_pieces_together_and_drops_raw_prefixes() {
    let parts = vec![TokenPart::Plain("r#as".into()), TokenPart::Plain("Name".into())];
    assert_eq!(try_build_string(&parts), Some("asName".to_string()));
    let parts = vec![
        TokenPart::Plain("a".into()),
        TokenPart::Modified(
            Box::new(TokenPart::ListGroup(vec![TokenPart::Plain("x".into()), TokenPart::Plain("y".into())])),
            vec![Modifier::Reverse, Modifier::Join("-".into())],
        ),
    ];
    assert_eq!(build_string(parts), "ay-x");
    let bad = vec![TokenPart::Modified(
        Box::new(TokenPart::Plain("abc".into())),
        vec![Modifier::Substr(Some(7), None)],
    )];
    assert_eq!(try_build_string(&bad), None);
}

#[test]
fn parser_reads_render_type_and_pieces() {
    let dsl = TweldDsl::parse(&to_toks(&ts(r#"get "Name""#))).unwrap();
    assert_eq!(dsl.render_type, RenderType::StringLiteral);
    let dsl = TweldDsl::parse(&to_toks(&ts("get Name"))).unwrap();
    assert_eq!(dsl.render_type, RenderType::Identifier);
    assert_eq!(dsl.tokens.len(), 2);
    assert!(matches!(&dsl.tokens[0], TokenPart::Plain(t) if t == "get"));
    let dsl = TweldDsl::parse(&to_toks(&ts("(a b) | snek"))).unwrap();
    assert!(matches!(&dsl.tokens[0], TokenPart::Modified(_, ms) if ms.len() == 1));
}

#[test]
fn each_parser_error_has_its_input() {
    let deep = format!("@[{}a{}]", "(".repeat(25), ")".repeat(25));
    fails_with(&deep, WeldError::Dsl(DslError::MaxDepth));
    fails_with("@[| lower]", WeldError::Dsl(DslError::MissingTarget));
    fails_with("@[a | 1]", WeldError::Dsl(DslError::ExpectedIdent));
    fails_with("@[a | fn]", WeldError::Dsl(DslError::ExpectedIdent));
    fails_with("@[a | frobnicate]", WeldError::Dsl(DslError::UnknownModifier));
    fails_with("@[a | replace]", WeldError::Dsl(DslError::ExpectedBraces));
    fails_with("@[a | replace{1, 2}]", WeldError::Dsl(DslError::ExpectedStringOrChar));
    fails_with(r#"@[a | repeat{"x"}]"#, WeldError::Dsl(DslError::ExpectedInteger));
    fails_with("@[a | repeat{99999999999999999999999999}]", WeldError::Dsl(DslError::InvalidInteger));
    fails_with(r#"@[a | padstart{3 "x"}]"#, WeldError::Dsl(DslError::ExpectedComma));
    fails_with("@[a | split{x}]", WeldError::Dsl(DslError::ExpectedLiteral));
    fails_with("@[a | split{1.5}]", WeldError::Dsl(DslError::UnsupportedSplitArgument));
    fails_with("@[a | splice{sideways, 1}]", WeldError::Dsl(DslError::InvalidSpliceOutput(word_from("sideways"))));
    fails_with("@[a | repeat{2 3}]", WeldError::Dsl(DslError::UnexpectedToken));
    fails_with("@[(a | lower b)]", WeldError::Dsl(DslError::ModifiersNotLast));
}

#[test]
fn each_weld_error_has_its_input() {
    fails_with("@[(a - b)]", WeldError::InvalidIdent);
    fails_with("@[(abc | substr{5})]", WeldError::BuildFailed);
    fails_with(r#"@[(a | padstart{3, ""})]"#, WeldError::BuildFailed);
    assert_eq!(weld_string(&"@[ ) ]".to_string()), Err(WeldError::InvalidTokens));
    assert_eq!(weld_string(&"@[ a | nope ]".to_string()), Err(WeldError::Dsl(DslError::UnknownModifier)));
    fails_with(r#"x("@[a | substr{9}]")"#, WeldError::BuildFailed);
}

#[test]
fn structural_modifiers_act_on_the_list() {
    welds_to(r#"@[["ab" cd] | reverse | join{","}]"#, "\"cd,ab\"");
    welds_to(r#"@[["ab" cd] | repeat{2} | join{","}]"#, "\"ab,cd,ab,cd\"");
    welds_to(r#"@[["a-b" "-c"] | split{"-"} | join{","}]"#, "\"a,b,c\"");
    welds_to(r#"@[["ab" cd] | join]"#, "\"abcd\"");
}

#[test]
fn positions_count_utf8_bytes() {
    assert_eq!(modified("é", Modifier::Substr(Some(0), Some(2))).unwrap(), "é");
    assert_eq!(modified("é", Modifier::Substr(Some(0), Some(1))), None);
    assert_eq!(modified("aéb", Modifier::Substr(Some(1), None)).unwrap(), "éb");
    assert_eq!(modified("aéb", Modifier::Slice(Some(1), Some(3))).unwrap(), "é");
    assert_eq!(modified("aéb", Modifier::Slice(Some(1), Some(2))).unwrap(), "");
    assert_eq!(modified("aéb", Modifier::Slice(Some(-1), None)).unwrap(), "b");
    assert_eq!(modified("aéb", Modifier::Splice(Output::Value, Some(1), Some(3), Some("e".into()))).unwrap(), "aeb");
    assert_eq!(modified("aéb", Modifier::Splice(Output::Value, Some(2), Some(3), None)), None);
    assert_eq!(modified("aéb", Modifier::Splice(Output::Removed, Some(1), Some(3), None)).unwrap(), "é");
    welds_to(r#"@[("éa" | splitat{2} | join{"-"})]"#, "\"é-a\"");
    fails_with(r#"@[("éa" | splitat{1} | join{"-"})]"#, WeldError::BuildFailed);
    welds_to(r#"@[("éa" | splitat{9} | join{"-"})]"#, "\"éa\"");
    welds_to(r#"@[["éa" "b"] | splitat{9} | join{"-"}]"#, "\"éa-b\"");
}

#[test]
fn modifier_names_are_read_in_any_case() {
    assert!(matches!(modifiers_of("|SUBSTRING{1, 2}")[0], Modifier::Substr(Some(1), Some(2))));
    assert!(matches!(modifiers_of("|Snek")[0], Modifier::SnakeCase));
    welds_to("@[(get_ TestStruct) | PadRight{16, \"_\"}]", "get_TestStruct__");
}

#[test]
fn invisible_groups_are_seen_through() {
    let inner = vec![Tok::Ident("get".into()), Tok::Ident("Name".into())];
    let toks = vec![
        Tok::Punct('@'),
        Tok::Group(Delimiter::Bracket, vec![
            Tok::Group(Delimiter::Invisible, inner),
            Tok::Punct('|'),
            Tok::Ident("snek".into()),
        ]),
    ];
    let out = scan_tokens(&toks).unwrap();
    assert!(matches!(out.as_slice(), [Scanned::Ident(t)] if t == "getname"));
    let dsl = TweldDsl::parse(&vec![Tok::Group(Delimiter::Invisible, vec![Tok::Ident("a".into())]), Tok::Ident("b".into())]).unwrap();
    assert_eq!(dsl.tokens.len(), 2);
}

#[test]
fn words_are_collected_into_pieces() {
    let mut dsl = TweldDsl { render_type: RenderType::Identifier, tokens: Vec::new() };
    tweld::parser::parse_words(&mut dsl, &vec![], true);
    assert_eq!(dsl.tokens.len(), 1);
    assert!(matches!(&dsl.tokens[0], TokenPart::Plain(t) if t.is_empty()));
    tweld::parser::parse_words(&mut dsl, &vec![chars("a"), chars("b")], true);
    assert!(matches!(&dsl.tokens[1], TokenPart::Plain(t) if t == "ab"));
    tweld::parser::parse_words(&mut dsl, &vec![chars("c"), chars("d")], false);
    assert_eq!(dsl.tokens.len(), 4);
    tweld::parser::parse_words(&mut dsl, &vec![], false);
    assert_eq!(dsl.tokens.len(), 4);
}

fn modifiers_of(src: &str) -> Vec<Modifier> {
    let toks = to_toks(&ts(src));
    tweld::parser::modifiers::parse_modifiers(&toks, 0).unwrap().0
}

#[test]
fn refusals_have_their_messages() {
    assert_eq!(dsl_message(&DslError::MaxDepth), "Maximum nesting exceeded!");
    assert_eq!(dsl_message(&DslError::MissingTarget), "Modifiers need a target");
    assert_eq!(dsl_message(&DslError::ExpectedComma), "expected `,`");
    let e = weld(&ts("@[a | splice{Sideways, 1}]")).unwrap_err();
    assert_eq!(weld_message(&e), Some("Splice output invalid \"Sideways\"".to_string()));
    assert_eq!(weld_message(&WeldError::BuildFailed), None);
    assert_eq!(weld_message(&WeldError::InvalidIdent), Some("expected identifier".to_string()));
}

#[test]
fn source_trees_are_read_and_scanned() {
    let trees = vec![
        Lexeme::Ident("let".into()),
        Lexeme::Punct('@'),
        Lexeme::Group(Delimiter::Bracket, vec![
            Lexeme::Ident("get".into()),
            Lexeme::Literal("\"Name\"".into()),
        ]),
        Lexeme::Literal("\"@[(a b) | upper]!\"".into()),
        Lexeme::Literal("42u8".into()),
    ];
    let out = scan_source(&trees).unwrap();
    assert!(matches!(out[0], Scanned::Keep(0)));
    assert!(matches!(&out[1], Scanned::Str(t) if t == "getName"));
    assert!(matches!(&out[2], Scanned::Text(3, t) if t == "AB!"));
    assert!(matches!(out[3], Scanned::Keep(4)));
}

#[test]
fn identifiers_come_from_the_answers() {
    assert!(matches!(render_answers(Some("a".into()), Some("r#a".into())), Ok(Scanned::Ident(t)) if t == "a"));
    assert!(matches!(render_answers(None, Some("r#fn".into())), Ok(Scanned::Ident(t)) if t == "r#fn"));
    assert_eq!(render_answers(None, None).err(), Some(WeldError::InvalidIdent));
}
