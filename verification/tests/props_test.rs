use dxc_macros::props::{
    impl_props, DeriveName, OptionalField, PropsField, PropsGroup, PropsMacroInput, PropsParseError,
    PropsToken,
};
use proc_macro2::Span;

fn ident(s: &str) -> syn::Ident {
    syn::Ident::new(s, Span::call_site())
}

fn name_token(s: &str) -> PropsToken {
    PropsToken::Ident { text: s.to_string(), keyword: false, ident: ident(s) }
}

fn keyword_token(s: &str) -> PropsToken {
    PropsToken::Ident { text: s.to_string(), keyword: true, ident: syn::Ident::new(s, Span::call_site()) }
}

fn field(name: &str, ty: &str) -> PropsField {
    PropsField { attrs: vec![], ident: Some(ident(name)), ty: syn::parse_str(ty).unwrap() }
}

fn test_fields() -> Vec<PropsField> {
    vec![field("type_", "String"), field("disabled", "bool")]
}

fn braces(fields: Vec<PropsField>) -> PropsToken {
    PropsToken::Group(PropsGroup::Brace(Ok(fields)))
}

fn path(s: &str) -> syn::Path {
    syn::parse_str(s).unwrap()
}

fn parens(paths: Vec<syn::Path>) -> PropsToken {
    PropsToken::Group(PropsGroup::Paren(Ok(paths)))
}

fn parse_ok(tokens: Vec<PropsToken>) -> PropsMacroInput {
    match PropsMacroInput::parse(tokens) {
        Ok(input) => input,
        Err(e) => panic!("refused: {:?}", e),
    }
}

/// `props! { TestProps { type_: String, disabled: bool } }` gives a struct
/// with both fields optional.
#[test]
fn props_test() {
    let input = parse_ok(vec![name_token("TestProps"), braces(test_fields())]);
    assert_eq!(input.name, ident("TestProps"));
    assert!(input.extra_derives.is_empty());
    let out = impl_props(input);
    assert_eq!(out.name, ident("TestProps"));
    assert_eq!(
        out.derives,
        vec![DeriveName::Clone, DeriveName::Props, DeriveName::Default, DeriveName::PartialEq, DeriveName::Debug]
    );
    assert_eq!(
        out.fields,
        vec![
            OptionalField { attrs: vec![], ident: ident("type_"), ty: syn::parse_str("String").unwrap() },
            OptionalField { attrs: vec![], ident: ident("disabled"), ty: syn::parse_str("bool").unwrap() },
        ]
    );
}

#[test]
fn extra_derives_follow_the_fixed_ones() {
    let input = parse_ok(vec![
        name_token("P"),
        braces(vec![]),
        PropsToken::Punct(','),
        name_token("derive"),
        parens(vec![path("PropsDefault"), path("serde::Serialize")]),
    ]);
    assert_eq!(input.extra_derives, vec![path("PropsDefault"), path("serde::Serialize")]);
    let out = impl_props(input);
    assert_eq!(
        out.derives,
        vec![
            DeriveName::Clone,
            DeriveName::Props,
            DeriveName::Default,
            DeriveName::PartialEq,
            DeriveName::Debug,
            DeriveName::Extra(path("PropsDefault")),
            DeriveName::Extra(path("serde::Serialize")),
        ]
    );
}

#[test]
fn field_attributes_are_kept() {
    let attr: syn::Attribute = syn::parse::Parser::parse_str(syn::Attribute::parse_outer, "#[doc = \"x\"]").unwrap().remove(0);
    let input = parse_ok(vec![
        name_token("P"),
        braces(vec![PropsField { attrs: vec![attr.clone()], ident: Some(ident("a")), ty: syn::parse_str("u8").unwrap() }]),
    ]);
    let out = impl_props(input);
    assert_eq!(out.fields[0].attrs, vec![attr]);
}

#[test]
fn trailing_comma_alone_is_accepted() {
    let input = parse_ok(vec![name_token("P"), braces(test_fields()), PropsToken::Punct(',')]);
    assert_eq!(input.fields.len(), 2);
    assert!(input.extra_derives.is_empty());
}

#[test]
fn missing_name_is_refused() {
    assert!(matches!(PropsMacroInput::parse(vec![]), Err(PropsParseError::ExpectedIdent { at: None })));
    assert!(matches!(
        PropsMacroInput::parse(vec![keyword_token("struct"), braces(vec![])]),
        Err(PropsParseError::ExpectedIdent { at: Some(0) })
    ));
    assert!(matches!(
        PropsMacroInput::parse(vec![PropsToken::Literal, braces(vec![])]),
        Err(PropsParseError::ExpectedIdent { at: Some(0) })
    ));
}

#[test]
fn missing_braces_are_refused() {
    assert!(matches!(
        PropsMacroInput::parse(vec![name_token("P")]),
        Err(PropsParseError::ExpectedBraces { at: None })
    ));
    assert!(matches!(
        PropsMacroInput::parse(vec![name_token("P"), parens(vec![])]),
        Err(PropsParseError::ExpectedBraces { at: Some(1) })
    ));
}

#[test]
fn unreadable_fields_are_refused() {
    let err = syn::Error::new(Span::call_site(), "expected `:`");
    assert!(matches!(
        PropsMacroInput::parse(vec![name_token("P"), PropsToken::Group(PropsGroup::Brace(Err(err)))]),
        Err(PropsParseError::Fields(_))
    ));
}

#[test]
fn other_word_than_derive_is_refused() {
    assert!(matches!(
        PropsMacroInput::parse(vec![
            name_token("P"),
            braces(vec![]),
            PropsToken::Punct(','),
            name_token("derives"),
            parens(vec![]),
        ]),
        Err(PropsParseError::ExpectedDerive { token: 3 })
    ));
}

#[test]
fn derive_without_parentheses_is_refused() {
    assert!(matches!(
        PropsMacroInput::parse(vec![name_token("P"), braces(vec![]), PropsToken::Punct(','), name_token("derive")]),
        Err(PropsParseError::ExpectedParens { at: None })
    ));
    assert!(matches!(
        PropsMacroInput::parse(vec![
            name_token("P"),
            braces(vec![]),
            PropsToken::Punct(','),
            name_token("derive"),
            PropsToken::Group(PropsGroup::Bracket),
        ]),
        Err(PropsParseError::ExpectedParens { at: Some(4) })
    ));
}

#[test]
fn unreadable_derives_are_refused() {
    let err = syn::Error::new(Span::call_site(), "expected identifier");
    assert!(matches!(
        PropsMacroInput::parse(vec![
            name_token("P"),
            braces(vec![]),
            PropsToken::Punct(','),
            name_token("derive"),
            PropsToken::Group(PropsGroup::Paren(Err(err))),
        ]),
        Err(PropsParseError::Derives(_))
    ));
}

#[test]
fn leftover_tokens_are_refused() {
    assert!(matches!(
        PropsMacroInput::parse(vec![name_token("P"), braces(vec![]), PropsToken::Punct(';')]),
        Err(PropsParseError::UnexpectedToken { token: 2 })
    ));
    assert!(matches!(
        PropsMacroInput::parse(vec![name_token("P"), braces(vec![]), PropsToken::Punct(','), PropsToken::Literal]),
        Err(PropsParseError::UnexpectedToken { token: 3 })
    ));
    assert!(matches!(
        PropsMacroInput::parse(vec![
            name_token("P"),
            braces(vec![]),
            PropsToken::Punct(','),
            name_token("derive"),
            parens(vec![]),
            PropsToken::Punct(','),
        ]),
        Err(PropsParseError::UnexpectedToken { token: 5 })
    ));
    // a keyword after the comma is not read as `derive`: it is left over
    assert!(matches!(
        PropsMacroInput::parse(vec![name_token("P"), braces(vec![]), PropsToken::Punct(','), keyword_token("struct")]),
        Err(PropsParseError::UnexpectedToken { token: 3 })
    ));
}
