//! The `props!` macro: `Name { field: Type, ... }`, optionally followed by
//! `, derive(Path, ...)`, becomes a struct whose fields are all optional,
//! with a fixed set of derives and the extra ones asked for.

use vstd::prelude::*;

use crate::text::str_equals;

verus! {

/// A field inside the braces of `props!`.
#[derive(Debug, PartialEq)]
pub struct PropsField {
    pub attrs: Vec<syn::Attribute>,
    pub ident: Option<syn::Ident>,
    pub ty: syn::Type,
}

/// A delimited group at the top level of the input, with its content read
/// as the macro would read it in its place: the content of braces as fields,
/// that of parentheses as paths.
#[derive(Debug)]
pub enum PropsGroup {
    /// `{ ... }`, with its content read as comma-separated named fields.
    Brace(Result<Vec<PropsField>, syn::Error>),
    /// `( ... )`, with its content read as comma-separated paths.
    Paren(Result<Vec<syn::Path>, syn::Error>),
    /// `[ ... ]`.
    Bracket,
}

/// A token at the top level of the input of `props!`.
#[derive(Debug)]
pub enum PropsToken {
    /// An identifier; `keyword` when it is a Rust keyword (or `_`), which
    /// cannot stand as a name.
    Ident { text: String, keyword: bool, ident: syn::Ident },
    /// A punctuation character.
    Punct(char),
    /// A literal.
    Literal,
    /// A delimited group.
    Group(PropsGroup),
}

/// The parsed input of `props!`.
#[derive(Debug, PartialEq)]
pub struct PropsMacroInput {
    pub name: syn::Ident,
    pub fields: Vec<PropsField>,
    pub extra_derives: Vec<syn::Path>,
}

/// Why the input of `props!` was refused; `at` and `token` give the index
/// of the offending token, `at` being `None` for the end of the input.
#[derive(Debug)]
pub enum PropsParseError {
    /// The struct's name is missing.
    ExpectedIdent { at: Option<usize> },
    /// The braces holding the fields are missing.
    ExpectedBraces { at: Option<usize> },
    /// The fields inside the braces could not be read.
    Fields(syn::Error),
    /// "expected `derive`": another identifier follows the comma.
    ExpectedDerive { token: usize },
    /// The parentheses after `derive` are missing.
    ExpectedParens { at: Option<usize> },
    /// The paths inside `derive(...)` could not be read.
    Derives(syn::Error),
    /// A token is left over.
    UnexpectedToken { token: usize },
}

/// The position of token `i` of `tokens`, or `None` past the end.
pub open spec fn position(tokens: Seq<PropsToken>, i: int) -> Option<usize> {
    if i < tokens.len() {
        Some(i as usize)
    } else {
        None
    }
}

/// Whether token `i` exists and is an identifier that is not a keyword.
pub open spec fn is_name_at(tokens: Seq<PropsToken>, i: int) -> bool {
    0 <= i < tokens.len() && (tokens[i] matches PropsToken::Ident { keyword, .. } && !keyword)
}

/// Whether `i` is past the end of `tokens`, or else the error for the
/// token left over there.
pub open spec fn end_at(tokens: Seq<PropsToken>, i: int) -> Result<(), PropsParseError> {
    if i < tokens.len() {
        Err(PropsParseError::UnexpectedToken { token: i as usize })
    } else {
        Ok(())
    }
}

/// Whether `r` accepts the input with these parts, provided nothing is left
/// from token `end` on; else whether it is the error for the leftover token.
pub open spec fn accepted(
    tokens: Seq<PropsToken>,
    r: Result<PropsMacroInput, PropsParseError>,
    name: syn::Ident,
    fields: Seq<PropsField>,
    derives: Seq<syn::Path>,
    end: int,
) -> bool {
    match end_at(tokens, end) {
        Ok(_) => r matches Ok(out) && out.name == name && out.fields@ == fields
            && out.extra_derives@ == derives,
        Err(e) => r == Err::<PropsMacroInput, PropsParseError>(e),
    }
}

/// Whether `r` is what reading `tokens` as the input of `props!` gives:
/// a name, braces holding the fields, then optionally a comma, then
/// optionally `derive(...)`, and nothing more.
pub open spec fn parse_result(tokens: Seq<PropsToken>, r: Result<PropsMacroInput, PropsParseError>) -> bool {
    if !is_name_at(tokens, 0) {
        r == Err::<PropsMacroInput, PropsParseError>(
            PropsParseError::ExpectedIdent { at: position(tokens, 0) },
        )
    } else if !(tokens.len() > 1 && tokens[1] matches PropsToken::Group(PropsGroup::Brace(_))) {
        r == Err::<PropsMacroInput, PropsParseError>(
            PropsParseError::ExpectedBraces { at: position(tokens, 1) },
        )
    } else {
        let name = tokens[0]->ident;
        let fields = tokens[1]->Group_0->Brace_0;
        match fields {
            Err(e) => r == Err::<PropsMacroInput, PropsParseError>(PropsParseError::Fields(e)),
            Ok(fields) => {
                if tokens.len() > 2 && tokens[2] == PropsToken::Punct(',') {
                    if is_name_at(tokens, 3) {
                        if tokens[3]->text@ != "derive"@ {
                            r == Err::<PropsMacroInput, PropsParseError>(
                                PropsParseError::ExpectedDerive { token: 3 },
                            )
                        } else if !(tokens.len() > 4 && tokens[4] matches PropsToken::Group(
                            PropsGroup::Paren(_),
                        )) {
                            r == Err::<PropsMacroInput, PropsParseError>(
                                PropsParseError::ExpectedParens { at: position(tokens, 4) },
                            )
                        } else {
                            match tokens[4]->Group_0->Paren_0 {
                                Err(e) => r == Err::<PropsMacroInput, PropsParseError>(
                                    PropsParseError::Derives(e),
                                ),
                                Ok(paths) => accepted(tokens, r, name, fields@, paths@, 5),
                            }
                        }
                    } else {
                        accepted(tokens, r, name, fields@, Seq::empty(), 3)
                    }
                } else {
                    accepted(tokens, r, name, fields@, Seq::empty(), 2)
                }
            },
        }
    }
}

/// An accepted input of `props!` has the name of its first token, exactly
/// the fields read from the braces of its second token, nothing dropped or
/// added, and as extra derives exactly the paths read from the parentheses
/// after `derive` when they are given, none otherwise.
pub proof fn law_parse_keeps_what_was_read(tokens: Seq<PropsToken>, out: PropsMacroInput)
    requires
        parse_result(tokens, Ok(out)),
    ensures
        tokens.len() >= 2,
        tokens[0] matches PropsToken::Ident { ident, keyword, .. } && !keyword && out.name == ident,
        tokens[1] matches PropsToken::Group(PropsGroup::Brace(Ok(fields))) && out.fields@ == fields@,
        tokens.len() == 5 ==> (tokens[4] matches PropsToken::Group(PropsGroup::Paren(Ok(paths)))
            && out.extra_derives@ == paths@),
        tokens.len() < 5 ==> out.extra_derives@.len() == 0,
        tokens.len() <= 5,
{
}

/// Whether a token is a comma.
fn is_comma(t: &PropsToken) -> (r: bool)
    ensures
        r == (*t == PropsToken::Punct(',')),
{
    match t {
        PropsToken::Punct(c) => *c == ',',
        _ => false,
    }
}

/// Whether a token is an identifier that is not a keyword.
fn is_name(t: &PropsToken) -> (r: bool)
    ensures
        r == (*t matches PropsToken::Ident { keyword, .. } && !keyword),
{
    match t {
        PropsToken::Ident { text: _, keyword, ident: _ } => !*keyword,
        _ => false,
    }
}

impl PropsMacroInput {
    /// Reads the input of `props!` from its top-level tokens.
    pub fn parse(tokens: Vec<PropsToken>) -> (r: Result<PropsMacroInput, PropsParseError>)
        ensures
            parse_result(tokens@, r),
    {
        let ghost t = tokens@;
        let n = tokens.len();
        let mut rest = tokens;
        if n == 0 {
            return Err(PropsParseError::ExpectedIdent { at: None });
        }
        let first = rest.remove(0);
        assert(first == t[0]);
        let name = match first {
            PropsToken::Ident { text: _, keyword, ident } => {
                if keyword {
                    return Err(PropsParseError::ExpectedIdent { at: Some(0) });
                }
                ident
            },
            _ => {
                return Err(PropsParseError::ExpectedIdent { at: Some(0) });
            },
        };
        if n < 2 {
            return Err(PropsParseError::ExpectedBraces { at: None });
        }
        let second = rest.remove(0);
        assert(second == t[1]);
        let fields = match second {
            PropsToken::Group(PropsGroup::Brace(read)) => match read {
                Ok(fields) => fields,
                Err(e) => {
                    return Err(PropsParseError::Fields(e));
                },
            },
            _ => {
                return Err(PropsParseError::ExpectedBraces { at: Some(1) });
            },
        };
        assert(rest@ =~= t.skip(2));
        let mut extra_derives: Vec<syn::Path> = Vec::new();
        let mut end: usize = 2;
        if n > 2 && is_comma(&rest[0]) {
            let _comma = rest.remove(0);
            end = 3;
            assert(rest@ =~= t.skip(3));
            if n > 3 && is_name(&rest[0]) {
                let word = rest.remove(0);
                assert(word == t[3]);
                let is_derive = match &word {
                    PropsToken::Ident { text, keyword: _, ident: _ } => str_equals(
                        text.as_str(),
                        "derive",
                    ),
                    _ => false,
                };
                if !is_derive {
                    return Err(PropsParseError::ExpectedDerive { token: 3 });
                }
                if n < 5 {
                    return Err(PropsParseError::ExpectedParens { at: None });
                }
                let group = rest.remove(0);
                assert(group == t[4]);
                match group {
                    PropsToken::Group(PropsGroup::Paren(read)) => match read {
                        Ok(paths) => {
                            extra_derives = paths;
                        },
                        Err(e) => {
                            return Err(PropsParseError::Derives(e));
                        },
                    },
                    _ => {
                        return Err(PropsParseError::ExpectedParens { at: Some(4) });
                    },
                }
                end = 5;
            }
        }
        if end < n {
            return Err(PropsParseError::UnexpectedToken { token: end });
        }
        Ok(PropsMacroInput { name, fields, extra_derives })
    }
}

/// A derive of the generated struct.
#[derive(Debug, PartialEq)]
pub enum DeriveName {
    /// `Clone`
    Clone,
    /// `Props`
    Props,
    /// `Default`
    Default,
    /// `PartialEq`
    PartialEq,
    /// `Debug`
    Debug,
    /// A derive asked for in `derive(...)`.
    Extra(syn::Path),
}

/// A field of the generated struct:
/// `<attrs> #[props(default)] pub <ident>: Option<<ty>>`.
#[derive(Debug, PartialEq)]
pub struct OptionalField {
    pub attrs: Vec<syn::Attribute>,
    pub ident: syn::Ident,
    pub ty: syn::Type,
}

/// The generated `#[derive(<derives>)] pub struct <name> { <fields>, }`.
#[derive(Debug, PartialEq)]
pub struct PropsStruct {
    pub name: syn::Ident,
    pub derives: Vec<DeriveName>,
    pub fields: Vec<OptionalField>,
}

/// The derives every generated struct has, in order.
pub open spec fn fixed_derives() -> Seq<DeriveName> {
    seq![
        DeriveName::Clone,
        DeriveName::Props,
        DeriveName::Default,
        DeriveName::PartialEq,
        DeriveName::Debug,
    ]
}

/// The derives of the generated struct: the fixed ones, then the extra ones
/// in the order given.
pub open spec fn all_derives(extra: Seq<syn::Path>) -> Seq<DeriveName> {
    fixed_derives() + extra.map_values(|p: syn::Path| DeriveName::Extra(p))
}

/// Whether every field of the input has a name.
pub open spec fn fields_named(fields: Seq<PropsField>) -> bool {
    forall|i: int| 0 <= i < fields.len() ==> (#[trigger] fields[i]).ident is Some
}

/// Whether `out` is the field of the generated struct for the input field
/// `f`: the same attributes, name and type.
pub open spec fn optional_field_of(f: PropsField, out: OptionalField) -> bool {
    out.attrs == f.attrs && f.ident == Some(out.ident) && out.ty == f.ty
}

/// The struct that `props!` expands to.
pub fn impl_props(input: PropsMacroInput) -> (r: PropsStruct)
    requires
        fields_named(input.fields@),
    ensures
        r.name == input.name,
        r.derives@ == all_derives(input.extra_derives@),
        r.fields@.len() == input.fields@.len(),
        forall|i: int|
            0 <= i < input.fields@.len() ==> #[trigger] optional_field_of(
                input.fields@[i],
                r.fields@[i],
            ),
{
    let PropsMacroInput { name, fields, extra_derives } = input;
    let mut derives: Vec<DeriveName> = Vec::new();
    derives.push(DeriveName::Clone);
    derives.push(DeriveName::Props);
    derives.push(DeriveName::Default);
    derives.push(DeriveName::PartialEq);
    derives.push(DeriveName::Debug);
    assert(derives@ =~= fixed_derives());
    let ghost extra = extra_derives@;
    let mut rest = extra_derives;
    let n = rest.len();
    let mut i: usize = 0;
    while i < n
        invariant
            n == extra.len(),
            i <= n,
            rest@ == extra.skip(i as int),
            derives@ =~= fixed_derives() + extra.take(i as int).map_values(
                |p: syn::Path| DeriveName::Extra(p),
            ),
        decreases n - i,
    {
        let p = rest.remove(0);
        assert(p == extra[i as int]);
        assert(rest@ =~= extra.skip(i + 1));
        derives.push(DeriveName::Extra(p));
        assert(extra.take(i + 1).map_values(|p: syn::Path| DeriveName::Extra(p)) =~= extra.take(
            i as int,
        ).map_values(|p: syn::Path| DeriveName::Extra(p)).push(DeriveName::Extra(p)));
        i = i + 1;
    }
    assert(extra.take(n as int) =~= extra);
    let ghost orig = fields@;
    let mut rest = fields;
    let mut out: Vec<OptionalField> = Vec::new();
    let m = rest.len();
    let mut j: usize = 0;
    while j < m
        invariant
            m == orig.len(),
            j <= m,
            rest@ == orig.skip(j as int),
            fields_named(orig),
            out@.len() == j,
            forall|k: int| 0 <= k < j ==> #[trigger] optional_field_of(orig[k], out@[k]),
        decreases m - j,
    {
        let f = rest.remove(0);
        assert(f == orig[j as int]);
        assert(rest@ =~= orig.skip(j + 1));
        let PropsField { attrs, ident, ty } = f;
        match ident {
            Some(ident) => {
                out.push(OptionalField { attrs, ident, ty });
            },
            None => {
                // every field is named (precondition)
                return PropsStruct { name, derives, fields: out };
            },
        }
        j = j + 1;
    }
    PropsStruct { name, derives, fields: out }
}

} // verus!
