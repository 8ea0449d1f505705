use dxc_macros::props_default::{
    get_inner_type, parse_field_attrs, reads_value, FieldInfo, AttrError, AttrModel, CustomDefault, DataModel,
    DeriveInputModel, FieldsModel, GenericArgModel, Getter, GetterDefault, MetaItem, NamedField,
    PathArgsModel, PropsDefaultError, PropsDefaultInput, SegmentModel, TypeModel, ValueExpr,
    ValueParse,
};
use dxc_macros::props::{
    impl_props, DeriveName, PropsField, PropsGroup, PropsMacroInput, PropsStruct, PropsToken,
};
use proc_macro2::Span;

fn ident(s: &str) -> syn::Ident {
    syn::Ident::new(s, Span::call_site())
}

fn ty(s: &str) -> syn::Type {
    syn::parse_str(s).unwrap()
}

fn lit_str(text: &str) -> syn::LitStr {
    syn::LitStr::new(text, Span::call_site())
}

fn path(s: &str) -> syn::Path {
    syn::parse_str(s).unwrap()
}

/// `Wrapper<T>` as one path segment.
fn wrapped(wrapper: &str, inner: &str) -> TypeModel {
    TypeModel::Path(vec![SegmentModel {
        ident: wrapper.to_string(),
        arguments: PathArgsModel::AngleBracketed(vec![GenericArgModel::Type(ty(inner))]),
    }])
}

fn item(name: &str) -> MetaItem {
    MetaItem { path: path(name), ident: Some(name.to_string()), value: ValueParse::NotParsed }
}

fn value_str(text: &str) -> MetaItem {
    MetaItem {
        path: path("value"),
        ident: Some("value".to_string()),
        value: ValueParse::Parsed(ValueExpr::Str(text.to_string(), lit_str(text))),
    }
}

fn value_expr(e: &str) -> MetaItem {
    MetaItem {
        path: path("value"),
        ident: Some("value".to_string()),
        value: ValueParse::Parsed(ValueExpr::Other(syn::parse_str(e).unwrap())),
    }
}

fn props_default(items: Vec<MetaItem>) -> AttrModel {
    AttrModel { path_ident: Some("props_default".to_string()), items, error: None }
}

fn other_attr(name: &str) -> AttrModel {
    AttrModel { path_ident: Some(name.to_string()), items: vec![], error: None }
}

fn field(name: &str, t: TypeModel, attrs: Vec<AttrModel>) -> NamedField {
    NamedField { ident: Some(ident(name)), ty: t, attrs }
}

/// The fields that `props!` gives the `PropsDefault` derive for
/// `TestProps { #[props_default(value = "button")] type_: String, disabled:
/// bool, #[props_default(skip)] skipped_field: String }`.
fn test_props() -> DeriveInputModel {
    DeriveInputModel {
        ident: ident("TestProps"),
        data: DataModel::Struct(FieldsModel::Named(vec![
            field("type_", wrapped("Option", "String"), vec![props_default(vec![value_str("button")]), other_attr("props")]),
            field("disabled", wrapped("Option", "bool"), vec![other_attr("props")]),
            field("skipped_field", wrapped("Option", "String"), vec![props_default(vec![item("skip")]), other_attr("props")]),
        ])),
    }
}

/// What `props!` makes of `TestProps { ... }, derive(PropsDefault)`.
fn test_struct() -> PropsStruct {
    let fields = vec![
        PropsField { attrs: vec![], ident: Some(ident("type_")), ty: ty("String") },
        PropsField { attrs: vec![], ident: Some(ident("disabled")), ty: ty("bool") },
        PropsField { attrs: vec![], ident: Some(ident("skipped_field")), ty: ty("String") },
    ];
    let tokens = vec![
        PropsToken::Ident { text: "TestProps".to_string(), keyword: false, ident: ident("TestProps") },
        PropsToken::Group(PropsGroup::Brace(Ok(fields))),
        PropsToken::Punct(','),
        PropsToken::Ident { text: "derive".to_string(), keyword: false, ident: ident("derive") },
        PropsToken::Group(PropsGroup::Paren(Ok(vec![path("PropsDefault")]))),
    ];
    impl_props(PropsMacroInput::parse(tokens).unwrap())
}

fn test_getters() -> Vec<Getter> {
    match PropsDefaultInput::from_derive_input(test_props()) {
        Ok(input) => {
            assert_eq!(input.struct_name, ident("TestProps"));
            input.into_getters().getters
        },
        Err(e) => panic!("refused: {:?}", e),
    }
}

fn getter<'a>(getters: &'a [Getter], name: &str) -> Option<&'a Getter> {
    getters.iter().find(|g| g.field == ident(name))
}

/// When the field is not set, the getter returns the default value.
#[test]
fn default_values_are_used_when_none() {
    let getters = test_getters();
    let type_ = getter(&getters, "type_").unwrap();
    assert_eq!(type_.default, GetterDefault::Custom(CustomDefault::StringFrom("button".to_string(), lit_str("button"))));
    let disabled = getter(&getters, "disabled").unwrap();
    assert_eq!(disabled.default, GetterDefault::TypeDefault);
    assert_eq!(disabled.inner_type, ty("bool"));
}

/// The getter returns the field's own type and reads the field itself.
#[test]
fn custom_values_are_respected() {
    let getters = test_getters();
    let type_ = getter(&getters, "type_").unwrap();
    assert_eq!(type_.inner_type, ty("String"));
    assert_eq!(type_.field, ident("type_"));
}

/// Each field gets its own getter, whatever the others hold.
#[test]
fn partial_initialization_works() {
    let getters = test_getters();
    assert_eq!(getters.len(), 2);
    assert_eq!(getters[0].field, ident("type_"));
    assert_eq!(getters[1].field, ident("disabled"));
}

/// `disabled` has no custom default: its getter falls back on the type's
/// default, that of `bool`.
#[test]
fn disabled_falls_back_to_false() {
    let getters = test_getters();
    let disabled = getter(&getters, "disabled").unwrap();
    assert_eq!(disabled.default, GetterDefault::TypeDefault);
    assert_eq!(disabled.inner_type, ty("bool"));
}

/// `props!` makes every field, the skipped one too, a public `Option` field
/// that is set directly; the skipped field gets no getter, the others do.
#[test]
fn custom_values_via_field_work() {
    let out = test_struct();
    let skipped = out.fields.iter().find(|f| f.ident == ident("skipped_field")).unwrap();
    assert_eq!(skipped.ty, ty("String"));
    let getters = test_getters();
    assert!(getter(&getters, "type_").is_some());
    assert!(getter(&getters, "disabled").is_some());
    assert!(getter(&getters, "skipped_field").is_none());
}

/// The struct derives `Default`, and the skipped field is an `Option` field,
/// so it is `None` by default; the derive leaves it alone.
#[test]
fn skipped_field_is_none_by_default() {
    let out = test_struct();
    assert!(out.derives.contains(&DeriveName::Default));
    assert!(out.fields.iter().any(|f| f.ident == ident("skipped_field")));
    let input = PropsDefaultInput::from_derive_input(test_props()).unwrap();
    let skipped = input.fields.iter().find(|f| f.name == ident("skipped_field")).unwrap();
    assert!(skipped.skip);
    assert!(skipped.custom_default.is_none());
}

/// The struct derives `Clone`, and its getters are those of its fields.
#[test]
fn props_can_be_cloned() {
    let out = test_struct();
    assert!(out.derives.contains(&DeriveName::Clone));
    assert!(out.derives.contains(&DeriveName::Extra(path("PropsDefault"))));
    let getters = test_getters();
    assert_eq!(getter(&getters, "type_").unwrap().inner_type, ty("String"));
    assert_eq!(getter(&getters, "disabled").unwrap().inner_type, ty("bool"));
}

#[test]
fn inner_type_of_option() {
    assert_eq!(get_inner_type(wrapped("Option", "u8"), "Option"), Some(ty("u8")));
    assert_eq!(get_inner_type(wrapped("Vec", "u8"), "Option"), None);
    assert_eq!(get_inner_type(TypeModel::Other, "Option"), None);
    let two_segments = TypeModel::Path(vec![
        SegmentModel { ident: "std".to_string(), arguments: PathArgsModel::Empty },
        SegmentModel {
            ident: "Option".to_string(),
            arguments: PathArgsModel::AngleBracketed(vec![GenericArgModel::Type(ty("u8"))]),
        },
    ]);
    assert_eq!(get_inner_type(two_segments, "Option"), None);
    let lifetime_first = TypeModel::Path(vec![SegmentModel {
        ident: "Option".to_string(),
        arguments: PathArgsModel::AngleBracketed(vec![GenericArgModel::Other, GenericArgModel::Type(ty("u8"))]),
    }]);
    assert_eq!(get_inner_type(lifetime_first, "Option"), None);
    let no_args = TypeModel::Path(vec![SegmentModel { ident: "Option".to_string(), arguments: PathArgsModel::Empty }]);
    assert_eq!(get_inner_type(no_args, "Option"), None);
    let empty_args = TypeModel::Path(vec![SegmentModel {
        ident: "Option".to_string(),
        arguments: PathArgsModel::AngleBracketed(vec![]),
    }]);
    assert_eq!(get_inner_type(empty_args, "Option"), None);
}

#[test]
fn documented_shape_settles_what_is_given() {
    assert!(matches!(parse_field_attrs(vec![other_attr("doc"), props_default(vec![item("skip")])]), Ok((true, None))));
    assert!(matches!(
        parse_field_attrs(vec![props_default(vec![value_expr("3")]), other_attr("doc")]),
        Ok((false, Some(CustomDefault::Expr(_))))
    ));
    assert!(matches!(parse_field_attrs(vec![props_default(vec![])]), Ok((false, None))));
}

#[test]
fn attrs_without_props_default_settle_nothing() {
    assert!(matches!(parse_field_attrs(vec![]), Ok((false, None))));
    assert!(matches!(parse_field_attrs(vec![other_attr("doc"), other_attr("serde")]), Ok((false, None))));
}

#[test]
fn skip_and_values() {
    assert!(matches!(parse_field_attrs(vec![props_default(vec![item("skip")])]), Ok((true, None))));
    assert!(matches!(
        parse_field_attrs(vec![props_default(vec![value_str("x")])]),
        Ok((false, Some(CustomDefault::StringFrom(ref s, _)))) if s == "x"
    ));
    match parse_field_attrs(vec![props_default(vec![value_expr("1 + 2")])]) {
        Ok((false, Some(CustomDefault::Expr(e)))) => assert_eq!(e, syn::parse_str::<syn::Expr>("1 + 2").unwrap()),
        other => panic!("{:?}", other),
    }
}

#[test]
fn duplicate_attribute_is_refused() {
    let r = parse_field_attrs(vec![other_attr("doc"), props_default(vec![]), props_default(vec![item("skip")])]);
    assert!(matches!(r, Err(AttrError::DuplicateAttribute { attr: 2 })));
}

#[test]
fn duplicate_items_are_refused() {
    assert!(matches!(
        parse_field_attrs(vec![props_default(vec![item("skip"), item("skip")])]),
        Err(AttrError::DuplicateSkip { attr: 0, item: 1 })
    ));
    assert!(matches!(
        parse_field_attrs(vec![props_default(vec![value_str("a"), value_str("b")])]),
        Err(AttrError::DuplicateValue { attr: 0, item: 1 })
    ));
}

#[test]
fn unsupported_item_is_refused() {
    assert!(matches!(
        parse_field_attrs(vec![other_attr("doc"), props_default(vec![item("skip"), item("default")])]),
        Err(AttrError::Unsupported { attr: 1, item: 1 })
    ));
}

#[test]
fn skip_with_value_is_refused() {
    assert!(matches!(
        parse_field_attrs(vec![other_attr("doc"), props_default(vec![item("skip"), value_str("a")])]),
        Err(AttrError::SkipAndValue { attr: 1 })
    ));
}

#[test]
fn syntax_errors_are_passed_on() {
    let failed = MetaItem {
        path: path("value"),
        ident: Some("value".to_string()),
        value: ValueParse::Failed(syn::Error::new(Span::call_site(), "expected `=`")),
    };
    assert!(matches!(
        parse_field_attrs(vec![props_default(vec![failed])]),
        Err(AttrError::Syntax { attr: 0, .. })
    ));
    let trailing = AttrModel {
        path_ident: Some("props_default".to_string()),
        items: vec![item("skip")],
        error: Some(syn::Error::new(Span::call_site(), "expected `,`")),
    };
    assert!(matches!(parse_field_attrs(vec![trailing]), Err(AttrError::Syntax { attr: 0, .. })));
}

#[test]
fn first_error_wins() {
    // the duplicate `skip` comes before the unsupported item
    assert!(matches!(
        parse_field_attrs(vec![props_default(vec![item("skip"), item("skip"), item("bad")])]),
        Err(AttrError::DuplicateSkip { attr: 0, item: 1 })
    ));
    // an error inside the first attribute comes before the duplicate attribute
    assert!(matches!(
        parse_field_attrs(vec![props_default(vec![item("bad")]), props_default(vec![])]),
        Err(AttrError::Unsupported { attr: 0, item: 0 })
    ));
}

#[test]
fn non_struct_inputs_are_refused() {
    let enum_input = DeriveInputModel { ident: ident("E"), data: DataModel::Enum };
    assert!(matches!(PropsDefaultInput::from_derive_input(enum_input), Err(PropsDefaultError::OnlyStructs)));
    let union_input = DeriveInputModel { ident: ident("U"), data: DataModel::Union };
    assert!(matches!(PropsDefaultInput::from_derive_input(union_input), Err(PropsDefaultError::OnlyStructs)));
    let tuple = DeriveInputModel { ident: ident("T"), data: DataModel::Struct(FieldsModel::Unnamed) };
    assert!(matches!(PropsDefaultInput::from_derive_input(tuple), Err(PropsDefaultError::OnlyNamedFields)));
    let unit = DeriveInputModel { ident: ident("T"), data: DataModel::Struct(FieldsModel::Unit) };
    assert!(matches!(PropsDefaultInput::from_derive_input(unit), Err(PropsDefaultError::OnlyNamedFields)));
}

#[test]
fn non_option_fields_are_passed_over() {
    let input = DeriveInputModel {
        ident: ident("S"),
        data: DataModel::Struct(FieldsModel::Named(vec![
            // its attributes are not even looked at
            field("plain", TypeModel::Other, vec![props_default(vec![item("bad")])]),
            field("opt", wrapped("Option", "i32"), vec![]),
        ])),
    };
    let settled = PropsDefaultInput::from_derive_input(input).unwrap();
    assert_eq!(settled.fields.len(), 1);
    assert_eq!(settled.fields[0].name, ident("opt"));
    assert_eq!(settled.fields[0].inner_type, ty("i32"));
}

#[test]
fn field_errors_name_the_field() {
    let input = DeriveInputModel {
        ident: ident("S"),
        data: DataModel::Struct(FieldsModel::Named(vec![
            field("a", wrapped("Option", "i32"), vec![]),
            field("b", wrapped("Option", "i32"), vec![props_default(vec![item("skip"), value_str("x")])]),
        ])),
    };
    assert!(matches!(
        PropsDefaultInput::from_derive_input(input),
        Err(PropsDefaultError::Field { field: 1, error: AttrError::SkipAndValue { attr: 0 } })
    ));
}

#[test]
fn getter_for_custom_expression() {
    let input = DeriveInputModel {
        ident: ident("S"),
        data: DataModel::Struct(FieldsModel::Named(vec![field(
            "size",
            wrapped("Option", "u32"),
            vec![props_default(vec![value_expr("16")])],
        )])),
    };
    let getters = PropsDefaultInput::from_derive_input(input).unwrap().into_getters().getters;
    assert_eq!(
        getters,
        vec![Getter {
            field: ident("size"),
            inner_type: ty("u32"),
            default: GetterDefault::Custom(CustomDefault::Expr(syn::parse_str("16").unwrap())),
        }]
    );
}

#[test]
fn value_is_read_only_after_value() {
    assert!(reads_value(&Some("value".to_string())));
    assert!(!reads_value(&Some("skip".to_string())));
    assert!(!reads_value(&Some("values".to_string())));
    assert!(!reads_value(&None));
}

#[test]
fn getters_follow_the_fields_not_skipped() {
    let info = |name: &str, skip: bool, custom: Option<&str>| FieldInfo {
        name: ident(name),
        inner_type: ty("i32"),
        skip,
        custom_default: custom.map(|e| CustomDefault::Expr(syn::parse_str(e).unwrap())),
    };
    let input = PropsDefaultInput {
        struct_name: ident("S"),
        fields: vec![info("a", false, Some("1")), info("b", true, None), info("c", false, None), info("d", true, None)],
    };
    let getters = input.into_getters().getters;
    assert_eq!(
        getters,
        vec![
            Getter {
                field: ident("a"),
                inner_type: ty("i32"),
                default: GetterDefault::Custom(CustomDefault::Expr(syn::parse_str("1").unwrap())),
            },
            Getter { field: ident("c"), inner_type: ty("i32"), default: GetterDefault::TypeDefault },
        ]
    );
}
