//! Welding scenarios: token streams in, rendered tokens out.
use std::str::FromStr;

use proc_macro2::{Group, Ident, Literal, Span, TokenStream, TokenTree};


use tweld::scanner::{scan_tokens, Scanned, WeldError};
use tweld::tokens::{Delimiter, LitKind, Tok};

fn ts(src: &str) -> TokenStream {
    TokenStream::from_str(src).unwrap()
}

fn delimiter(d: proc_macro2::Delimiter) -> Delimiter {
    match d {
        proc_macro2::Delimiter::Parenthesis => Delimiter::Parenthesis,
        proc_macro2::Delimiter::Brace => Delimiter::Brace,
        proc_macro2::Delimiter::Bracket => Delimiter::Bracket,
        proc_macro2::Delimiter::None => Delimiter::Invisible,
    }
}

fn lit_kind(lit: &Literal) -> LitKind {
    match syn::Lit::new(lit.clone()) {
        syn::Lit::Str(s) => LitKind::Str(s.value()),
        syn::Lit::Char(c) => LitKind::Char(c.value()),
        syn::Lit::Int(i) => LitKind::Int(i.base10_digits().to_string()),
        syn::Lit::Float(_) => LitKind::Float,
        _ => LitKind::Other,
    }
}

fn to_toks(stream: &TokenStream) -> Vec<Tok> {
    stream
        .clone()
        .into_iter()
        .map(|t| match t {
            TokenTree::Ident(i) => Tok::Ident(i.to_string()),
            TokenTree::Punct(p) => Tok::Punct(p.as_char()),
            TokenTree::Literal(l) => Tok::Literal(lit_kind(&l)),
            TokenTree::Group(g) => Tok::Group(delimiter(g.delimiter()), to_toks(&g.stream())),
        })
        .collect()
}

fn render(scanned: &[Scanned], input: &TokenStream) -> TokenStream {
    let trees: Vec<TokenTree> = input.clone().into_iter().collect();
    scanned
        .iter()
        .map(|s| match s {
            Scanned::Keep(i) => trees[*i].clone(),
            Scanned::Group(i, inner) => match &trees[*i] {
                TokenTree::Group(g) => {
                    let mut group = Group::new(g.delimiter(), render(inner, &g.stream()));
                    group.set_span(g.span());
                    TokenTree::Group(group)
                }
                other => other.clone(),
            },
            Scanned::Ident(text) => TokenTree::Ident(match text.strip_prefix("r#") {
                Some(raw) => Ident::new_raw(raw, Span::call_site()),
                None => Ident::new(text, Span::call_site()),
            }),
            Scanned::Str(text) => TokenTree::Literal(Literal::string(text)),
            Scanned::Text(i, text) => {
                let mut lit = Literal::string(text);
                lit.set_span(trees[*i].span());
                TokenTree::Literal(lit)
            }
        })
        .collect()
}

fn weld(input: &TokenStream) -> Result<String, WeldError> {
    let out = scan_tokens(&to_toks(input))?;
    Ok(render(&out, input).to_string())
}

fn assert_transformations(arguments: Vec<(TokenStream, &'static str)>) {
    for (input, expected) in arguments {
        let result = weld(&input).unwrap();
        assert_eq!(result, expected, "input: {input}");
    }
}

fn assert_transformations_same_output(arguments: Vec<TokenStream>, expected: &str) {
    for input in arguments {
        let result = weld(&input).unwrap();
        assert_eq!(result, expected, "input: {input}");
    }
}

fn assert_failure(arguments: Vec<(TokenStream, WeldError)>) {
    for (input, expected) in arguments {
        match weld(&input) {
            Ok(result) => panic!("This should've failed! {{{result}}}"),
            Err(err) => assert_eq!(err, expected, "input: {input}"),
        }
    }
}

#[test]
fn tests_should_concatenate_words_in_brackets_str() {
    let arguments = vec![
        ts(r##"@["get" Test Struct]"##),
        ts(r##"@["get" Te stSt ruct]"##),
        ts(r##"@["g" et TestStruct]"##),
        ts(r##"@["get" TestStruct]"##),
        ts(r##"@["getTest" Struct]"##),
        ts(r##"@["getT" estSt ruct]"##),
    ];

    assert_transformations_same_output(arguments, "\"getTestStruct\"");
}

#[test]
fn tests_should_concatenate_words_in_brackets() {
    let arguments = vec![
        ts(r##"@[get Test Struct]"##),
        ts(r##"@[get Te stSt ruct]"##),
        ts(r##"@[g et TestStruct]"##),
        ts(r##"@[get TestStruct]"##),
        ts(r##"@[getTest Struct]"##),
        ts(r##"@[getT estSt ruct]"##),
    ];

    assert_transformations_same_output(arguments, "getTestStruct");
}

#[test]
fn tests_should_concatenate_words_in_groups_str() {
    let arguments = vec![
        ts(r##"@[(get "Test" Struct)]"##),
        ts(r##"@[(get "Te" stSt ruct)]"##),
        ts(r##"@[(g "et" TestStruct)]"##),
        ts(r##"@[(get "TestStruct")]"##),
        ts(r##"@[(getTest "Struct")]"##),
        ts(r##"@[("get" TestStruct)]"##),
    ];

    assert_transformations_same_output(arguments, "\"getTestStruct\"");
}

#[test]
fn tests_should_concatenate_words_in_groups() {
    let arguments = vec![
        ts(r##"@[(get Test Struct)]"##),
        ts(r##"@[(get Te stSt ruct)]"##),
        ts(r##"@[(g et TestStruct)]"##),
        ts(r##"@[(get TestStruct)]"##),
        ts(r##"@[(getTest Struct)]"##),
        ts(r##"@[(getT estSt ruct)]"##),
    ];

    assert_transformations_same_output(arguments, "getTestStruct");
}

#[test]
fn tests_should_preserve_outside_str() {
    let arguments = vec![
        (ts(r##"@["Something  " ("get" Test Struct) " here!"]"##), "\"Something  getTestStruct here!\""),
        
        (ts(r##"@["Something " (get Te stSt ruct) " here!"]"##), "\"Something getTestStruct here!\""),
        (ts(r##"@["Something  " (g et TestStruct) " \"here\"!"]"##), "\"Something  getTestStruct \\\"here\\\"!\""),
        (ts(r##"@["Something  (\"" get TestStruct "\") here!"]"##), "\"Something  (\\\"getTestStruct\\\") here!\""),
        (ts(r##"@["Something  \"" (get TestStruct) "\" here!"]"##), "\"Something  \\\"getTestStruct\\\" here!\""),
        (ts(r##"@["Something - " (getTestStruct) " Here!"]"##), "\"Something - getTestStruct Here!\""),
        (ts(r##"@["Some thing  " (getT estSt ruct) "here!"]"##), "\"Some thing  getTestStructhere!\""),
    ];

    assert_transformations(arguments);
}

#[test]
fn tests_should_transform_to_lower_case() {
    let arguments = vec![
        ts(r##"@[((get_ Test) | lower) (Struct | lower)]"##),
        ts(r##"@[((get_ TestStruct) | lowercase) ]"##),
    ];

    assert_transformations_same_output(arguments, "get_teststruct");
}

#[test]
fn tests_should_transform_to_upper_case() {
    let arguments = vec![
        ts(r##"@[(get_ TestStruct )| uppercase ]"##),
        ts(r##"@[(get_ TestStruct) | upper ]"##),
    ];

    assert_transformations_same_output(arguments, "GET_TESTSTRUCT");
}

#[test]
fn tests_should_transform_to_pascal_case() {
    let arguments = vec![
        ts(r##"@[(get_ TestStruct) | pascal ]"##),
        ts(r##"@[(get_ TestStruct) | pascalcase ]"##),
        ts(r##"@[(get_ TestStruct) | uppercamelcase ]"##),
    ];

    assert_transformations_same_output(arguments, "GetTestStruct");
}

#[test]
fn tests_should_transform_to_camel_case() {
    let arguments = vec![
        ts(r##"@[(get_ TestStruct) | lowercamelcase ]"##),
        ts(r##"@[(get_ TestStruct) | camelcase ]"##),
        ts(r##"@[(get_ TestStruct) | camel ]"##),
    ];

    assert_transformations_same_output(arguments, "getTestStruct");
}

#[test]
fn tests_should_transform_to_snake_case() {
    let arguments = vec![
        ts(r##"@[get_ (TestStruct | snakecase) ]"##),
        ts(r##"@[get_ (TestStruct | snake) ]"##),
        ts(r##"@[get_ (TestStruct | snekcase) ]"##),
        ts(r##"@[get_ (TestStruct | snek) ]"##),
    ];

    assert_transformations_same_output(arguments, "get_test_struct");
}

#[test]
fn tests_should_transform_to_shouty_snake_case() {
    let arguments = vec![
        ts(r##"@[(get_ TestStruct) | shoutysnakecase ]"##),
        ts(r##"@[(get_ TestStruct) | shoutysnake ]"##),
        ts(r##"@[(get_ TestStruct) | shoutysnekcase ]"##),
        ts(r##"@[(get_ TestStruct) | shoutysnek ]"##),
    ];

    assert_transformations_same_output(arguments, "GET_TEST_STRUCT");
}

#[test]
fn tests_should_transform_to_kebab_case() {
    let arguments = vec![
        ts(r##"@[(("get_" Test) | kebab) - (Struct | kebabcase) ]"##),
        ts(r##"@[(("get_" TestStruct) | kebab) ]"##),
    ];

    assert_transformations_same_output(arguments, "\"get-test-struct\"");
}

#[test]
fn tests_should_transform_to_shouty_kebab_case() {
    let arguments = vec![
        (
            ts(r##"@["ge" t _ (TestStruct) | shoutykebabcase ]"##),
            "\"get_TEST-STRUCT\"",
        ),
        (
            ts(r##"@[("get_" TestStruct) | shoutykebabcase ]"##),
            "\"GET-TEST-STRUCT\"",
        ),
        (
            ts(r##"@[("get_" TestStruct) | shoutykebab ]"##),
            "\"GET-TEST-STRUCT\"",
        ),
    ];

    assert_transformations(arguments);
}

#[test]
fn tests_should_transform_to_title_case() {
    let arguments = vec![
        ts(r##"@[("get__" TestStruct)| titlecase ]"##),
        ts(r##"@[("get_" TestStruct) | title ]"##),
        ts(r##"@[("get"- TestStruct) | title ]"##),
        ts(r##"@[("get"-- TestStruct) | title ]"##),
        ts(r##"@[("get"--_ TestStruct) | title ]"##),
        ts(r##"@[("get" _TestStruct) | title ]"##),
        ts(r##"@[("get" -TestStruct) | title ]"##),
    ];

    assert_transformations_same_output(arguments, "\"Get Test Struct\"");
}

#[test]
fn tests_should_transform_to_train_case() {
    let arguments = vec![
        ts(r##"@[("get__" TestStruct) | traincase ]"##),
        ts(r##"@[("get_" TestStruct) | train ]"##),
        ts(r##"@[("get-" TestStruct) | train ]"##),
        ts(r##"@[("get--" TestStruct) | train ]"##),
        ts(r##"@[("get--" _ TestStruct) | train ]"##),
        ts(r##"@[("get" _TestStruct) | train ]"##),
        ts(r##"@[("get" -TestStruct) | train ]"##),
    ];

    assert_transformations_same_output(arguments, "\"Get-Test-Struct\"");
}

#[test]
fn tests_should_transform_to_singular() {
    let arguments = vec![
        ts(r##"@[(get_ TestItems | singular) ]"##),
        ts(r##"@[(get_ TestItem | singular) ]"##),
    ];

    assert_transformations_same_output(arguments, "get_TestItem");
}

#[test]
fn tests_should_transform_to_plural() {
    let arguments = vec![
        ts(r##"@[(get_ TestItems | plural) ]"##),
        ts(r##"@[(get_ TestItem | plural) ]"##),
    ];

    assert_transformations_same_output(arguments, "get_TestItems");
}

#[test]
fn tests_should_apply_replace() {
    let arguments = vec![
        (
            ts(r##"@[(get_ TestStruct | replace{"Struct", "_Info"} )]"##),
            "get_Test_Info",
        ),
        (
            ts(r##"@[(get_ TestStruct | replace{"Struct", "_Info"} ) ById]"##),
            "get_Test_InfoById",
        ),
        (
            ts(r##"@[(("get_" TestStruct) | replace{"Struct", "_Info"} ) ById]"##),
            "\"get_Test_InfoById\"",
        ),
        (
            ts(r##"@[(("get_" TestStruct) | replace{"Struct", "_Info"} ) ById]"##),
            "\"get_Test_InfoById\"",
        ),
        (
            ts(r##"@[("get_ TestStruct" | replace{"Struct", "_Info"}) - by -id]"##),
            "\"get_ Test_Info-by-id\"",
        ),
    ];

    assert_transformations(arguments);
}

#[test]
fn tests_should_apply_split() {
    let arguments = vec![
        (
            ts(r##"@[(get_ Test_Struct) | split{"_"} | title]"##),
            "GetTestStruct",
        ),
        (
            ts(r##"@[(get - Test-Struct) | split{"-"} | lower | join{"_"} ]"##),
            "get_test_struct",
        ),
        (
            ts(r##"@[(("get-" Test - Struct) | split{"-"} | lower | join{'_'}) -by-id]"##),
            "\"get_test_struct-by-id\"",
        ),
        (
            ts(r##"@[(("get-" Test - Struct) | split{"-"} | lower | join{"_"}) -by-id]"##),
            "\"get_test_struct-by-id\"",
        ),
    ];

    assert_transformations(arguments);
}

#[test]
fn should_split() {
    let arguments = vec![
        (
            ts(r##"@[getTestStruct  | snek | split{"_"} | title]"##),
            "GetTestStruct",
        ),
        (
            
            ts(r##"@[(get Test Struct) | snek | split{"_"} | reverse | join{"_"}| pascal ]"##),
            "StructTestGet",
        ), 
        (
            
            ts(r##"@[[get Test Struct] | reverse | join{"_"}| pascal ]"##),
            "StructTestGet",
        ), 
        (
            
            ts(r##"@[(get - Test - Struct) | split{"-"} | slice{1,3} ]"##),
            "TestStruct",
        ),      

        (
            
            ts(r##"@[(get - Test - Struct) | split{"-"} | splice{,1,2, "New"} ]"##),
            "getNewStruct",
        ),      
        (
            
            ts(r##"@[[get Test Struct] | splice{,1,2, "New"} ]"##),
            "getNewStruct",
        ),  
    ];

    assert_transformations(arguments);
}

#[test]
fn tests_should_apply_pad_on_left() {
    let arguments = vec![
        (
            ts(r##"@[(get_ Test_Struct) | padstart{20, "_"}]"##),
            
            "_____get_Test_Struct",
        ),
        (
            ts(r##"@[("get-" Test-Struct) | padleft{20, "-"} ]"##),
            
            "\"-----get-Test-Struct\"",
        ),
        (
            ts(r##"@[(get "-" Test-Struct) | padstart{20, "-"} | lower ]"##),
            
            "\"-----get-test-struct\"",
        ),
        (
            ts(r##"@[(get_ Test_Struct) | padstart{5, "_"}]"##),
            
            "get_Test_Struct",
        ),
        (
            ts(r##"@[("get-" Test-Struct) | padleft{5, "-"} ]"##),
            
            "\"get-Test-Struct\"",
        ),
        (
            ts(r##"@[(get "-" Test-Struct) | padstart{16, "-"} | lower ]"##),
            
            "\"-get-test-struct\"",
        ),
    ];

    assert_transformations(arguments);
}

#[test]
fn tests_should_apply_pad_on_right() {
    let arguments = vec![
        (
            ts(r##"@[(get_ Test_Struct) | padend{20, "_"}]"##),
            
            "get_Test_Struct_____",
        ),
        (
            ts(r##"@[("get-" Test-Struct) | padright{20, "-"} ]"##),
            
            "\"get-Test-Struct-----\"",
        ),
        (
            ts(r##"@[(get "-" Test-Struct) | padend{20, "-"} | lower ]"##),
            
            "\"get-test-struct-----\"",
        ),
        (
            ts(r##"@[(get_ Test_Struct) | padr{5, "_"}]"##),
            
            "get_Test_Struct",
        ),
        (
            ts(r##"@[("get-" Test-Struct) | padend{5, "-"} ]"##),
            
            "\"get-Test-Struct\"",
        ),
        (
            ts(r##"@[(get "-" Test-Struct) | padRight{16, "-"} | lower ]"##),
            
            "\"get-test-struct-\"",
        ),
    ];

    assert_transformations(arguments);
}

#[test]
fn should_apply_repeat() {
    let arguments = vec![
        (
            ts(r##"@[get_ Test_Struct | repeat{2}]"##),
            "get_Test_StructTest_Struct",
        ),
        (
            ts(r##"@["get-" (Test-Struct) | rep{2}]"##),
            "\"get-Test-StructTest-Struct\"",
        ),
        (
            ts(r##"@[("get-" Test-Struct) | times{2}]"##),
            "\"get-Test-Structget-Test-Struct\"",
        ),
    ];

    assert_transformations(arguments);
}

#[test]
fn should_apply_reverse() {
    let arguments = vec![
        (
            ts(r##"@[get_ Test_Struct | reverse]"##),
            "get_tcurtS_tseT",
        ),
        (
            ts(r##"@[("get-" Test-Struct) | reverse ]"##),
            "\"tcurtS-tseT-teg\"",
        ),
        (
            ts(r##"@[("get-" TestStruct) | reverse | pascal | reverse ]"##),
            "\"geTTestStrucT\"",
        ),
        (
            ts(r##"@[("get-" TestStruct | reverse | pascal | reverse )]"##),
            "\"get-TestStrucT\"",
        ),
    ];

    assert_transformations(arguments);
}

#[test]
fn should_apply_slice() {
    let arguments = vec![
        (
            ts(r##"@[get_ Test_Struct | slice{-4}]"##),
            "get_ruct",
        ),  
        (
            ts(r##"@[(get_ Test_Struct) | slice{-4}]"##),
            "ruct",
        ),  
        (
            ts(r##"@[get_ Test_Struct | slice{5}]"##),
            "get_Struct",
        ), 
        (
            ts(r##"@[(get_ Test_Struct)| slice{,8}]"##),                 
            "get_Test",
        ),       
        (
            ts(r##"@[(_get_ Test_Struct) | slice{1, -4}]"##),
            "get_Test_St",
        ),            
        (
            ts(r##"@[(_get_ Test_Struct) | slice{-6, -4}]"##),
            "St",
        ),      
                    
        (
            ts(r##"@[get_ Test_Struct| slice{-4,-6}]"##),
            "get_",
        ),       
    ];

    assert_transformations(arguments);
}

#[test]
fn tests_should_apply_splice_into() {
    let arguments = vec![
        (
            ts(r##"@[(get_ Test_Struct)| splice{into, 1}]"##),
            "g",
        ), 
        (
            ts(r##"@[(get_ Test_Struct)| splice{value, 1}]"##),
            "g",
        ), 
        (
            ts(r##"@[(get_ Test_Struct)| splice{val, 1}]"##),
            "g",
        ), 
        (
            ts(r##"@[(get_ Test_Struct)| splice{into, 1, 4}]"##),
            "gTest_Struct",
        ),        
        (
            ts(r##"@[(get_ Test_Struct)| splice{value, 1, 4}]"##),
            "gTest_Struct",
        ), 
        (
            ts(r##"@[(get_ Test_Struct)| splice{val, 1, 4}]"##),
            "gTest_Struct",
        ),        
        (
            ts(r##"@[(get_ Test_Struct)| splice{into, 1, 4, "ot_"}]"##),
            "got_Test_Struct",
        ),        
        (
            ts(r##"@[(get_ Test_Struct)| splice{value, 1, 4, "ot_"}]"##),
            "got_Test_Struct",
        ), 
        (
            ts(r##"@[(get_ Test_Struct)| splice{val,, 4, "got_"}]"##),
            "got_Test_Struct",
        ),
        (
            ts(r##"@[(get_ Test_Struct)| splice{into,, 4, "got_"}]"##),
            "got_Test_Struct",
        ),        
        (
            ts(r##"@[(get_ Test_Struct)| splice{value,, 4, "got_"}]"##),
            "got_Test_Struct",
        ), 
        (
            ts(r##"@[(get_ Test_Struct)| splice{val,, 4, "got_"}]"##),
            "got_Test_Struct",
        ),
        
        (
            ts(r##"@[(get_ Test_Struct)| splice{into, 1,, "ot_"}]"##),
            "got_",
        ),        
        (
            ts(r##"@[(get_ Test_Struct)| splice{value, 1,, "ot_"}]"##),
            "got_",
        ), 
        (
            ts(r##"@[(get_ Test_Struct)| splice{val, 1,, "ot_"}]"##),
            "got_",
        ),

        (
            ts(r##"@[(get_ Test_Struct)| splice{into,,, "new"}]"##),
            "new",
        ),        
        (
            ts(r##"@[(get_ Test_Struct)| splice{value,,, "new"}]"##),
            "new",
        ), 
        (
            ts(r##"@[(get_ Test_Struct)| splice{val,,, "new"}]"##),
            "new",
        ),
        (
            ts(r##"@[(get_ Test_Struct)| spliceinto{ 1}]"##),
            "g",
        ), 
        (
            ts(r##"@[(get_ Test_Struct)| spliceinto{ 1, 4}]"##),
            "gTest_Struct",
        ),        
        (
            ts(r##"@[(get_ Test_Struct)| spliceinto{ 1, 4, "ot_"}]"##),
            "got_Test_Struct",
        ),
        (
            ts(r##"@[(get_ Test_Struct)| spliceinto{, 4, "got_"}]"##),
            "got_Test_Struct",
        ),            
        (
            ts(r##"@[(get_ Test_Struct)| spliceinto{ 1,, "ot_"}]"##),
            "got_",
        ),
        (
            ts(r##"@[(get_ Test_Struct)| spliceinto{,, "new"}]"##),
            "new",
        ),
        (
            ts(r##"@[(get_ Test_Struct)| splice_into{ 1}]"##),
            "g",
        ), 
        (
            ts(r##"@[(get_ Test_Struct)| splice_into{ 1, 4}]"##),
            "gTest_Struct",
        ),        
        (
            ts(r##"@[(get_ Test_Struct)| splice_into{ 1, 4, "ot_"}]"##),
            "got_Test_Struct",
        ),
        (
            ts(r##"@[(get_ Test_Struct)| splice_into{, 4, "got_"}]"##),
            "got_Test_Struct",
        ),            
        (
            ts(r##"@[(get_ Test_Struct)| splice_into{ 1,, "ot_"}]"##),
            "got_",
        ),
        (
            ts(r##"@[(get_ Test_Struct)| splice_into{,, "new"}]"##),
            "new",
        ),
    ];

    assert_transformations(arguments);
}

#[test]
fn tests_should_apply_splice_out() {
    let arguments = vec![
        (
            ts(r##"@[(get_ Test_Struct)| splice{out, 1}]"##),
            "et_Test_Struct",
        ), 
        (
            ts(r##"@[(get_ Test_Struct)| splice{removed, 1}]"##),
            "et_Test_Struct",
        ), 
        (
            ts(r##"@[(get_ Test_Struct)| splice{rm, 1}]"##),
            "et_Test_Struct",
        ), 
        (
            ts(r##"@[(get_ Test_Struct)| splice{out, 1, 4}]"##),
            "et_",
        ),        
        (
            ts(r##"@[(get_ Test_Struct)| splice{removed, 1, 4}]"##),
            "et_",
        ), 
        (
            ts(r##"@[(get_ Test_Struct)| splice{rm, 1, 4}]"##),
            "et_",
        ),        
        (
            ts(r##"@[(get_ Test_Struct)| splice{out, 1, 4, "ot_"}]"##),
            "et_",
        ),        
        (
            ts(r##"@[(get_ Test_Struct)| splice{removed, 1, 4, "ot_"}]"##),
            "et_",
        ), 
        (
            ts(r##"@[(get_ Test_Struct)| splice{out,, 4, "got_"}]"##),
            "get_",
        ),        
        (
            ts(r##"@[(get_ Test_Struct)| splice{removed,, 4, "got_"}]"##),
            "get_",
        ), 
        (
            ts(r##"@[(get_ Test_Struct)| splice{rm,, 4, "got_"}]"##),
            "get_",
        ),
        
        (
            ts(r##"@[(get_ Test_Struct)| splice{out, 1,, "ot_"}]"##),
            "et_Test_Struct",
        ),        
        (
            ts(r##"@[(get_ Test_Struct)| splice{removed, 1,, "ot_"}]"##),
            "et_Test_Struct",
        ), 
        (
            ts(r##"@[(get_ Test_Struct)| splice{rm, 1,, "ot_"}]"##),
            "et_Test_Struct",
        ),

        (
            ts(r##"@[(get_ Test_Struct)| splice{out,,, "new"}]"##),
            "get_Test_Struct",
        ),        
        (
            ts(r##"@[(get_ Test_Struct)| splice{removed,,, "new"}]"##),
            "get_Test_Struct",
        ), 
        (
            ts(r##"@[(get_ Test_Struct)| splice{rm,,, "new"}]"##),
            "get_Test_Struct",
        ),
        (
            ts(r##"@[(get_ Test_Struct)| spliceout {1, } ]"##),
            "et_Test_Struct",
        ),             
        (
            ts(r##"@[(get_ Test_Struct)| spliceout{ 1, 4}]"##),
            "et_",
        ),                
        (
            ts(r##"@[(get_ Test_Struct)| spliceout{ 1, 4, "ot_"}]"##),
            "et_",
        ),        
        (
            ts(r##"@[(get_ Test_Struct)| spliceout{, 4, "got_"}]"##),
            "get_",
        ),
        (
            ts(r##"@[(get_ Test_Struct)| spliceout{ 1,, "ot_"}]"##),
            "et_Test_Struct",
        ), 
        (
            ts(r##"@[(get_ Test_Struct)| spliceout{,, "new"}]"##),
            "get_Test_Struct",
        ),        
        (
            ts(r##"@[(get_ Test_Struct)| splice_out {1, } ]"##),
            "et_Test_Struct",
        ),             
        (
            ts(r##"@[(get_ Test_Struct)| splice_out{ 1, 4}]"##),
            "et_",
        ),                
        (
            ts(r##"@[(get_ Test_Struct)| splice_out{ 1, 4, "ot_"}]"##),
            "et_",
        ),        
        (
            ts(r##"@[(get_ Test_Struct)| splice_out{, 4, "got_"}]"##),
            "get_",
        ),
        (
            ts(r##"@[(get_ Test_Struct)| splice_out{ 1,, "ot_"}]"##),
            "et_Test_Struct",
        ), 
        (
            ts(r##"@[(get_ Test_Struct)| splice_out{,, "new"}]"##),
            "get_Test_Struct",
        ),  
    ];

    assert_transformations(arguments);
}

#[test]
fn tests_should_apply_splice_no_output() {            
    let arguments = vec![
        (
            ts(r##"@[(get_ Test_Struct)| splice{,,, "new"}]"##),
            "new",
        ),
        (
            ts(r##"@[(get_ Test_Struct)| splice{, 1,, "ot_"}]"##),
            "got_",
        ),
        (
            ts(r##"@[(get_ Test_Struct)| splice{,, 4, "got_"}]"##),
            "got_Test_Struct",
        ),
        (
            ts(r##"@[(get_ Test_Struct)| splice{, 1, 4, "ot_"}]"##),
            "got_Test_Struct",
        ), 
        (
            ts(r##"@[(get_ Test_Struct)| splice{, 1, 4}]"##),
            "gTest_Struct",
        ), 
    ];

    assert_transformations(arguments);
}

#[test]
fn tests_should_ignore_invalid_ident_chars() {
    let arguments = vec![
        (
            ts(r##"@[(get "-" Test-Struct ^)| repeat{2} | lower ]"##),
            "\"get-test-structget-test-struct\"",
        ),
        (
            ts(r##"@[get "-" Test-Struct ^| repeat{2} | lower ]"##),
            "\"get-Test-structstruct\"",
        ),
        (
            ts(r##"@[(get > Test-Struct) | camel]"##),
            "getTestStruct",
        ),
                    (
            ts(r##"@[("get" -> Test-Struct ^)| repeat{2} | lower ]"##),
            "\"get-test-structget-test-struct\"",
        ),
    ];

    assert_transformations(arguments);
}

#[test]
fn tests_should_chain_piped_modifiers() {
    let arguments = vec![
        (
            ts(r##"@[(get__ TestStruct) | upper | snek ]"##),
            "get_teststruct",
        ),
        (
            ts(r##"@[((get__ TestStruct) | snek | upper) ]"##),
            "GET_TEST_STRUCT",
        ),
        (
            ts(r##"@[((get_ TestStruct) | replace{"Struct", "_Info"} | camel )]"##),
            "getTestInfo",
        ),
        (
            ts(r##"@[((get_ TestStruct) | replace{"Struct", "_Info"} | camel ) ById]"##),
            "getTestInfoById",
        ),
        (
            ts(r##"@[(("get_" TestStruct | replace{"Struct", "_Info"}) | camel ) ById]"##),
            "\"getTestInfoById\"",
        ),
        (
            ts(r##"@[(("get_" TestStruct) | snek | camel ) ById]"##),
            "\"getTestStructById\"",
        ),
        (
            ts(r##"@[((get_ "TestStruct") | replace{"Struct", "_Info"} | camel ) ById]"##),
            "\"getTestInfoById\"",
        ),
        (
            ts(r##"@[(("get_" TestStruct) | replace{ "Struct", "_Info"} | kebab) - by -id]"##),
            "\"get-test-info-by-id\"",
        ),
        (
            ts(r##"@[g "e" t _ testStruct | replace{"Struct", "_Info"} | pascal]"##),
            "\"get_TestInfo\"",
        ),
    ];

    assert_transformations(arguments);
}

#[test]
fn tests_should_transform_multiple_groups_in_a_str() {
    let arguments = vec![
        (
            ts(r##"@["The functions are diferent " get TestStruct " != " ((get TestStruct )| replace {"Struct", "Info"}| replace{" ", ""}) " !"]"##),
            "\"The functions are diferent getTestStruct != getTestInfo !\"",
        ),
        (
            ts(r##"@["The functions are diferent " (get TestStruct) " != " ((get TestStruct) | replace {"Struct", "Info"}) " !"]"##),
            "\"The functions are diferent getTestStruct != getTestInfo !\"",
        ),
        (
            ts(r##"@[(("get_" TestStruct) | replace{"Struct", "_Info"} | camel ) ById " != " ((_get_ TestStruct) | plural | substr{1,}) ById]"##),
            "\"getTestInfoById != get_TestStructsById\""
        ),
    ];

    assert_transformations(arguments);
}

#[test]
fn tests_should_handle_reserved_input_and_output() {
    let arguments = vec![            
        ( ts(r##"@[r#as]"##), "r#as"),
        ( ts(r##"@[r#break]"##), "r#break"),
        ( ts(r##"@[r#const]"##), "r#const"),
        ( ts(r##"@[r#continue]"##), "r#continue"),
        ( ts(r##"@[r#else]"##), "r#else"),
        ( ts(r##"@[r#enum]"##), "r#enum"),
        ( ts(r##"@[r#extern]"##), "r#extern"),
        ( ts(r##"@[r#false]"##), "r#false"),
        ( ts(r##"@[r#fn]"##), "r#fn"),
        ( ts(r##"@[r#for]"##), "r#for"),
        ( ts(r##"@[r#if]"##), "r#if"),
        ( ts(r##"@[r#impl]"##), "r#impl"),
        ( ts(r##"@[r#in]"##), "r#in"),
        ( ts(r##"@[r#let]"##), "r#let"),
        ( ts(r##"@[r#loop]"##), "r#loop"),
        ( ts(r##"@[r#match]"##), "r#match"),
        ( ts(r##"@[r#mod]"##), "r#mod"),
        ( ts(r##"@[r#move]"##), "r#move"),
        ( ts(r##"@[r#mut]"##), "r#mut"),
        ( ts(r##"@[r#pub]"##), "r#pub"),
        ( ts(r##"@[r#ref]"##), "r#ref"),
        ( ts(r##"@[r#return]"##), "r#return"),
        ( ts(r##"@[r#static]"##), "r#static"),
        ( ts(r##"@[r#struct]"##), "r#struct"),
        ( ts(r##"@[r#trait]"##), "r#trait"),
        ( ts(r##"@[r#true]"##), "r#true"),
        ( ts(r##"@[r#type]"##), "r#type"),
        ( ts(r##"@[r#unsafe]"##), "r#unsafe"),
        ( ts(r##"@[r#use]"##), "r#use"),
        ( ts(r##"@[r#where]"##), "r#where"),
        ( ts(r##"@[r#while]"##), "r#while"),
        ( ts(r##"@[r#async]"##), "r#async"),
        ( ts(r##"@[r#await]"##), "r#await"),
        ( ts(r##"@[r#dyn]"##), "r#dyn"),
        ( ts(r##"@[r#abstract]"##), "r#abstract"),
        ( ts(r##"@[r#become]"##), "r#become"),
        ( ts(r##"@[r#box]"##), "r#box"),
        ( ts(r##"@[r#do]"##), "r#do"),
        ( ts(r##"@[r#final]"##), "r#final"),
        ( ts(r##"@[r#macro]"##), "r#macro"),
        ( ts(r##"@[r#override]"##), "r#override"),
        ( ts(r##"@[r#priv]"##), "r#priv"),
        ( ts(r##"@[r#typeof]"##), "r#typeof"),
        ( ts(r##"@[r#unsized]"##), "r#unsized"),
        ( ts(r##"@[r#virtual]"##), "r#virtual"),
        ( ts(r##"@[r#yield]"##), "r#yield"),
        ( ts(r##"@[r#try]"##), "r#try"),
    ];

    assert_transformations(arguments);
}

#[test]
fn tests_should_handle_reserved_input_not_output() {
    let arguments = vec![            
        ( ts(r##"@[r#as Not Reserved]"##), "asNotReserved"),
        ( ts(r##"@[r#break Not Reserved]"##), "breakNotReserved"),
        ( ts(r##"@[r#const Not Reserved]"##), "constNotReserved"),
        ( ts(r##"@[r#continue Not Reserved]"##), "continueNotReserved"),
        ( ts(r##"@[r#else Not Reserved]"##), "elseNotReserved"),
        ( ts(r##"@[r#enum Not Reserved]"##), "enumNotReserved"),
        ( ts(r##"@[r#extern Not Reserved]"##), "externNotReserved"),
        ( ts(r##"@[r#false Not Reserved]"##), "falseNotReserved"),
        ( ts(r##"@[r#fn Not Reserved]"##), "fnNotReserved"),
        ( ts(r##"@[r#for Not Reserved]"##), "forNotReserved"),
        ( ts(r##"@[r#if Not Reserved]"##), "ifNotReserved"),
        ( ts(r##"@[r#impl Not Reserved]"##), "implNotReserved"),
        ( ts(r##"@[r#in Not Reserved]"##), "inNotReserved"),
        ( ts(r##"@[r#let Not Reserved]"##), "letNotReserved"),
        ( ts(r##"@[r#loop Not Reserved]"##), "loopNotReserved"),
        ( ts(r##"@[r#match Not Reserved]"##), "matchNotReserved"),
        ( ts(r##"@[r#mod Not Reserved]"##), "modNotReserved"),
        ( ts(r##"@[r#move Not Reserved]"##), "moveNotReserved"),
        ( ts(r##"@[r#mut Not Reserved]"##), "mutNotReserved"),
        ( ts(r##"@[r#pub Not Reserved]"##), "pubNotReserved"),
        ( ts(r##"@[r#ref Not Reserved]"##), "refNotReserved"),
        ( ts(r##"@[r#return Not Reserved]"##), "returnNotReserved"),
        ( ts(r##"@[r#static Not Reserved]"##), "staticNotReserved"),
        ( ts(r##"@[r#struct Not Reserved]"##), "structNotReserved"),
        ( ts(r##"@[r#trait Not Reserved]"##), "traitNotReserved"),
        ( ts(r##"@[r#true Not Reserved]"##), "trueNotReserved"),
        ( ts(r##"@[r#type Not Reserved]"##), "typeNotReserved"),
        ( ts(r##"@[r#unsafe Not Reserved]"##), "unsafeNotReserved"),
        ( ts(r##"@[r#use Not Reserved]"##), "useNotReserved"),
        ( ts(r##"@[r#where Not Reserved]"##), "whereNotReserved"),
        ( ts(r##"@[r#while Not Reserved]"##), "whileNotReserved"),
        ( ts(r##"@[r#async Not Reserved]"##), "asyncNotReserved"),
        ( ts(r##"@[r#async Not Reserved]"##), "asyncNotReserved"),
        ( ts(r##"@[r#await Not Reserved]"##), "awaitNotReserved"),
        ( ts(r##"@[r#dyn Not Reserved]"##), "dynNotReserved"),
        ( ts(r##"@[r#abstract Not Reserved]"##), "abstractNotReserved"),
        ( ts(r##"@[r#become Not Reserved]"##), "becomeNotReserved"),
        ( ts(r##"@[r#box Not Reserved]"##), "boxNotReserved"),
        ( ts(r##"@[r#do Not Reserved]"##), "doNotReserved"),
        ( ts(r##"@[r#final Not Reserved]"##), "finalNotReserved"),
        ( ts(r##"@[r#macro Not Reserved]"##), "macroNotReserved"),
        ( ts(r##"@[r#override Not Reserved]"##), "overrideNotReserved"),
        ( ts(r##"@[r#priv Not Reserved]"##), "privNotReserved"),
        ( ts(r##"@[r#typeof Not Reserved]"##), "typeofNotReserved"),
        ( ts(r##"@[r#unsized Not Reserved]"##), "unsizedNotReserved"),
        ( ts(r##"@[r#virtual Not Reserved]"##), "virtualNotReserved"),
        ( ts(r##"@[r#yield Not Reserved]"##), "yieldNotReserved"),
        ( ts(r##"@[r#try Not Reserved]"##), "tryNotReserved"),
    ];

    assert_transformations(arguments);
}

#[test]
fn tests_should_handle_normal_input_reserved_output() {
    let arguments = vec![            
        ( ts(r##"@[a s]"##), "r#as"),
        ( ts(r##"@[b reak]"##), "r#break"),
        ( ts(r##"@[c onst]"##), "r#const"),
        ( ts(r##"@[c ontinue]"##), "r#continue"),
        ( ts(r##"@[e lse]"##), "r#else"),
        ( ts(r##"@[e num]"##), "r#enum"),
        ( ts(r##"@[e xtern]"##), "r#extern"),
        ( ts(r##"@[f alse]"##), "r#false"),
        ( ts(r##"@[f n]"##), "r#fn"),
        ( ts(r##"@[f or]"##), "r#for"),
        ( ts(r##"@[i f]"##), "r#if"),
        ( ts(r##"@[i mpl]"##), "r#impl"),
        ( ts(r##"@[i n]"##), "r#in"),
        ( ts(r##"@[l et]"##), "r#let"),
        ( ts(r##"@[l oop]"##), "r#loop"),
        ( ts(r##"@[m atch]"##), "r#match"),
        ( ts(r##"@[m od]"##), "r#mod"),
        ( ts(r##"@[m ove]"##), "r#move"),
        ( ts(r##"@[m ut]"##), "r#mut"),
        ( ts(r##"@[p ub]"##), "r#pub"),
        ( ts(r##"@[r ef]"##), "r#ref"),
        ( ts(r##"@[r eturn]"##), "r#return"),
        ( ts(r##"@[s tatic]"##), "r#static"),
        ( ts(r##"@[s truct]"##), "r#struct"),
        ( ts(r##"@[t rait]"##), "r#trait"),
        ( ts(r##"@[t rue]"##), "r#true"),
        ( ts(r##"@[t ype]"##), "r#type"),
        ( ts(r##"@[u nsafe]"##), "r#unsafe"),
        ( ts(r##"@[u se]"##), "r#use"),
        ( ts(r##"@[w here]"##), "r#where"),
        ( ts(r##"@[w hile]"##), "r#while"),
        ( ts(r##"@[a sync]"##), "r#async"),
        ( ts(r##"@[a wait]"##), "r#await"),
        ( ts(r##"@[d yn]"##), "r#dyn"),
        ( ts(r##"@[a bstract]"##), "r#abstract"),
        ( ts(r##"@[b ecome]"##), "r#become"),
        ( ts(r##"@[b ox]"##), "r#box"),
        ( ts(r##"@[d o]"##), "r#do"),
        ( ts(r##"@[f inal]"##), "r#final"),
        ( ts(r##"@[m acro]"##), "r#macro"),
        ( ts(r##"@[o verride]"##), "r#override"),
        ( ts(r##"@[p riv]"##), "r#priv"),
        ( ts(r##"@[t ypeof]"##), "r#typeof"),
        ( ts(r##"@[u nsized]"##), "r#unsized"),
        ( ts(r##"@[v irtual]"##), "r#virtual"),
        ( ts(r##"@[y ield]"##), "r#yield"),
        ( ts(r##"@[t ry]"##), "r#try"),
    ];

    assert_transformations(arguments);
}

#[test]
fn tests_handling_forbidden_keywords() {
    let arguments = vec![            
        ( ts(r##"@[not cra te]"##), "notcrate"),            
        ( ts(r##"@[__ selfie | replace{"ie",""}]"##), "__self"),
        ( ts(r##"@[(sup er-duper)|camel]"##), "superDuper"),
    ];
    assert_transformations(arguments);
}

#[test]
fn tests_handling_nested_modifiers() {
    let arguments = vec![            
        ( ts(r##"@[((sup er-duper)|camel)| pascal ]"##), "SuperDuper"),
    ];
    assert_transformations(arguments);
}

