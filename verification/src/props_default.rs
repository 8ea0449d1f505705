//! The `PropsDefault` derive: for each `Option<T>` field of a struct, a
//! getter that returns the field's value, or a default when it is `None`.
//!
//! A field may carry one `#[props_default(...)]` attribute, holding `skip`
//! (no getter for this field) or `value = <expr>` (the default the getter
//! falls back on; a string literal there stands for a `String`). Without
//! `value`, the getter falls back on the type's `Default`.

use vstd::prelude::*;

use crate::text::str_equals;

verus! {

/// The expression after `value =`, as far as the derive looks at it.
#[derive(Debug, PartialEq)]
pub enum ValueExpr {
    /// A string literal: the text it denotes, and the literal itself,
    /// carried for its location.
    Str(String, syn::LitStr),
    /// Any other expression.
    Other(syn::Expr),
}

/// What became of the `= <expr>` after a nested item: it is read only after
/// `value`, and reading it may fail.
#[derive(Debug)]
pub enum ValueParse {
    /// Not read (the item is not `value`).
    NotParsed,
    /// Read.
    Parsed(ValueExpr),
    /// Reading `=` or the expression failed with this error.
    Failed(syn::Error),
}

/// One nested item of a `#[props_default(...)]` attribute, in order.
#[derive(Debug)]
pub struct MetaItem {
    /// The item's path, carried for error locations.
    pub path: syn::Path,
    /// The text of the path when it is a single identifier.
    pub ident: Option<String>,
    /// The value after `value`.
    pub value: ValueParse,
}

/// One attribute of a field.
///
/// `items` are the nested items read from the attribute's parentheses, in
/// order, and `error` is the syntax error met after the last of them, if
/// reading stopped on one. Only those of an attribute named `props_default`
/// are looked at.
#[derive(Debug)]
pub struct AttrModel {
    /// The text of the attribute's path when it is a single identifier.
    pub path_ident: Option<String>,
    pub items: Vec<MetaItem>,
    pub error: Option<syn::Error>,
}

/// The default a getter falls back on, given by `value = <expr>`.
#[derive(Debug, PartialEq)]
pub enum CustomDefault {
    /// `::std::string::String::from("<text>")`, for a string literal; the
    /// new literal takes the location of the one written.
    StringFrom(String, syn::LitStr),
    /// The expression itself.
    Expr(syn::Expr),
}

/// Why the attributes of a field were refused; `attr` is the index of the
/// attribute among the field's attributes, `item` that of the nested item
/// within it.
#[derive(Debug)]
pub enum AttrError {
    /// "Duplicate `props_default` attribute"
    DuplicateAttribute { attr: usize },
    /// "Duplicate `skip`"
    DuplicateSkip { attr: usize, item: usize },
    /// "Duplicate `value`"
    DuplicateValue { attr: usize, item: usize },
    /// "Unsupported attribute"
    Unsupported { attr: usize, item: usize },
    /// A syntax error inside the attribute.
    Syntax { attr: usize, error: syn::Error },
    /// "Cannot specify both `skip` and `value`", at the `props_default`
    /// attribute.
    SkipAndValue { attr: usize },
}

/// Whether an optional identifier text is `name`.
pub open spec fn names(id: Option<String>, name: Seq<char>) -> bool {
    id matches Some(s) && s@ == name
}

/// The default that `value = v` gives.
pub open spec fn custom_default_of(v: ValueExpr) -> CustomDefault {
    match v {
        ValueExpr::Str(s, l) => CustomDefault::StringFrom(s, l),
        ValueExpr::Other(e) => CustomDefault::Expr(e),
    }
}

/// Whether every `value` item of the attributes carries the outcome of
/// reading its `= <expr>`. Reading nested items reads that part exactly after
/// the items for which [`reads_value`] holds, so every attribute read that
/// way is well formed.
pub open spec fn attrs_well_formed(attrs: Seq<AttrModel>) -> bool {
    forall|i: int, j: int|
        0 <= i < attrs.len() && 0 <= j < attrs[i].items@.len() && names(
            #[trigger] attrs[i].items@[j].ident,
            "value"@,
        ) ==> !(attrs[i].items@[j].value is NotParsed)
}

/// Whether the `= <expr>` after a nested item is read: exactly after `value`.
pub fn reads_value(ident: &Option<String>) -> (r: bool)
    ensures
        r == names(*ident, "value"@),
{
    ident_is(ident, "value")
}

/// The settings so far, `(skip, value)`, after one more nested item, the
/// `k`-th of attribute `attr`.
pub open spec fn item_step(
    st: (bool, Option<CustomDefault>),
    item: MetaItem,
    attr: int,
    k: int,
) -> Result<(bool, Option<CustomDefault>), AttrError> {
    if names(item.ident, "skip"@) {
        if st.0 {
            Err(AttrError::DuplicateSkip { attr: attr as usize, item: k as usize })
        } else {
            Ok((true, st.1))
        }
    } else if names(item.ident, "value"@) {
        if st.1 is Some {
            Err(AttrError::DuplicateValue { attr: attr as usize, item: k as usize })
        } else {
            match item.value {
                ValueParse::Parsed(v) => Ok((st.0, Some(custom_default_of(v)))),
                ValueParse::Failed(e) => Err(AttrError::Syntax { attr: attr as usize, error: e }),
                ValueParse::NotParsed => Ok(st),
            }
        }
    } else {
        Err(AttrError::Unsupported { attr: attr as usize, item: k as usize })
    }
}

/// The settings after the nested items `items`, the first of which has
/// index `k`, starting from `st`; the first refused item ends the scan.
pub open spec fn items_scan(
    items: Seq<MetaItem>,
    st: (bool, Option<CustomDefault>),
    attr: int,
    k: int,
) -> Result<(bool, Option<CustomDefault>), AttrError>
    decreases items.len(),
{
    if items.len() == 0 {
        Ok(st)
    } else {
        match item_step(st, items[0], attr, k) {
            Ok(next) => items_scan(items.drop_first(), next, attr, k + 1),
            Err(e) => Err(e),
        }
    }
}

/// The settings `(skip, value, props_default attribute seen)` after one
/// more attribute, the `idx`-th: other attributes change nothing, a second
/// `props_default` is refused, and a first one has its items scanned.
pub open spec fn attr_step(
    st: (bool, Option<CustomDefault>, Option<usize>),
    a: AttrModel,
    idx: int,
) -> Result<(bool, Option<CustomDefault>, Option<usize>), AttrError> {
    if !names(a.path_ident, "props_default"@) {
        Ok(st)
    } else if st.2 is Some {
        Err(AttrError::DuplicateAttribute { attr: idx as usize })
    } else {
        match items_scan(a.items@, (st.0, st.1), idx, 0) {
            Ok(next) => match a.error {
                Some(e) => Err(AttrError::Syntax { attr: idx as usize, error: e }),
                None => Ok((next.0, next.1, Some(idx as usize))),
            },
            Err(e) => Err(e),
        }
    }
}

/// The settings after the attributes `attrs`, the first of which has index
/// `idx`, starting from `st`; the first refused attribute ends the scan.
pub open spec fn attrs_scan(
    attrs: Seq<AttrModel>,
    st: (bool, Option<CustomDefault>, Option<usize>),
    idx: int,
) -> Result<(bool, Option<CustomDefault>, Option<usize>), AttrError>
    decreases attrs.len(),
{
    if attrs.len() == 0 {
        Ok(st)
    } else {
        match attr_step(st, attrs[0], idx) {
            Ok(next) => attrs_scan(attrs.drop_first(), next, idx + 1),
            Err(e) => Err(e),
        }
    }
}

/// What the attributes of a field settle: `(skip, value)`, or why they are
/// refused.
pub open spec fn spec_field_attrs(attrs: Seq<AttrModel>) -> Result<
    (bool, Option<CustomDefault>),
    AttrError,
> {
    match attrs_scan(attrs, (false, None, None), 0) {
        Ok(st) => if st.0 && st.1 is Some {
            Err(AttrError::SkipAndValue { attr: st.2.unwrap() })
        } else {
            Ok((st.0, st.1))
        },
        Err(e) => Err(e),
    }
}

/// Whether an optional identifier text is `name`.
fn ident_is(id: &Option<String>, name: &str) -> (r: bool)
    ensures
        r == names(*id, name@),
{
    match id {
        Some(s) => str_equals(s.as_str(), name),
        None => false,
    }
}

/// Scans the nested items of one `props_default` attribute.
fn scan_items(
    items: Vec<MetaItem>,
    skip: bool,
    custom_default: Option<CustomDefault>,
    attr: usize,
) -> (r: Result<(bool, Option<CustomDefault>), AttrError>)
    requires
        forall|j: int|
            0 <= j < items@.len() && names(#[trigger] items@[j].ident, "value"@) ==> !(
            items@[j].value is NotParsed),
    ensures
        r == items_scan(items@, (skip, custom_default), attr as int, 0),
{
    let ghost orig = items@;
    let ghost goal = items_scan(items@, (skip, custom_default), attr as int, 0);
    assert(orig.skip(0) =~= orig);
    let mut rest = items;
    let mut cur_skip = skip;
    let mut cur_default = custom_default;
    let n = rest.len();
    let mut k: usize = 0;
    while k < n
        invariant
            n == orig.len(),
            k <= n,
            orig == items@,
            goal == items_scan(items@, (skip, custom_default), attr as int, 0),
            rest@ == orig.skip(k as int),
            goal == items_scan(orig.skip(k as int), (cur_skip, cur_default), attr as int, k as int),
        decreases n - k,
    {
        let item = rest.remove(0);
        assert(item == orig[k as int]);
        assert(rest@ =~= orig.skip(k + 1));
        assert(orig.skip(k as int)[0] == orig[k as int]);
        assert(orig.skip(k as int).drop_first() =~= orig.skip(k + 1));
        if ident_is(&item.ident, "skip") {
            if cur_skip {
                return Err(AttrError::DuplicateSkip { attr, item: k });
            }
            cur_skip = true;
        } else if ident_is(&item.ident, "value") {
            if cur_default.is_some() {
                return Err(AttrError::DuplicateValue { attr, item: k });
            }
            match item.value {
                ValueParse::Parsed(v) => {
                    cur_default = Some(
                        match v {
                            ValueExpr::Str(s, l) => CustomDefault::StringFrom(s, l),
                            ValueExpr::Other(e) => CustomDefault::Expr(e),
                        },
                    );
                },
                ValueParse::Failed(e) => {
                    return Err(AttrError::Syntax { attr, error: e });
                },
                ValueParse::NotParsed => {},
            }
        } else {
            return Err(AttrError::Unsupported { attr, item: k });
        }
        k = k + 1;
    }
    Ok((cur_skip, cur_default))
}

/// Settles the attributes of a field: whether to skip its getter, and the
/// default its getter falls back on.
pub fn parse_field_attrs(attrs: Vec<AttrModel>) -> (r: Result<
    (bool, Option<CustomDefault>),
    AttrError,
>)
    requires
        attrs_well_formed(attrs@),
    ensures
        r == spec_field_attrs(attrs@),
        r matches Ok((skip, custom_default)) ==> !(skip && custom_default is Some),
{
    let ghost orig = attrs@;
    let ghost goal = attrs_scan(attrs@, (false, None, None), 0);
    assert(orig.skip(0) =~= orig);
    let mut rest = attrs;
    let mut skip = false;
    let mut custom_default: Option<CustomDefault> = None;
    let mut props_default_attr: Option<usize> = None;
    let n = rest.len();
    let mut i: usize = 0;
    while i < n
        invariant
            n == orig.len(),
            i <= n,
            orig == attrs@,
            goal == attrs_scan(attrs@, (false, None, None), 0),
            rest@ == orig.skip(i as int),
            goal == attrs_scan(orig.skip(i as int), (skip, custom_default, props_default_attr), i as int),
            (skip || custom_default is Some) ==> props_default_attr is Some,
            attrs_well_formed(orig),
        decreases n - i,
    {
        let a = rest.remove(0);
        assert(a == orig[i as int]);
        assert(rest@ =~= orig.skip(i + 1));
        assert(orig.skip(i as int)[0] == orig[i as int]);
        assert(orig.skip(i as int).drop_first() =~= orig.skip(i + 1));
        if ident_is(&a.path_ident, "props_default") {
            if props_default_attr.is_some() {
                return Err(AttrError::DuplicateAttribute { attr: i });
            }
            let AttrModel { path_ident: _, items, error } = a;
            assert forall|j: int|
                0 <= j < items@.len() && names(#[trigger] items@[j].ident, "value"@) implies !(
            items@[j].value is NotParsed) by {
                assert(items@[j] == orig[i as int].items@[j]);
            }
            match scan_items(items, skip, custom_default, i) {
                Ok(st) => {
                    skip = st.0;
                    custom_default = st.1;
                },
                Err(e) => {
                    return Err(e);
                },
            }
            match error {
                Some(e) => {
                    return Err(AttrError::Syntax { attr: i, error: e });
                },
                None => {},
            }
            props_default_attr = Some(i);
        }
        i = i + 1;
    }
    assert(orig.skip(n as int).len() == 0);
    if skip && custom_default.is_some() {
        match props_default_attr {
            Some(attr) => {
                return Err(AttrError::SkipAndValue { attr });
            },
            None => {},
        }
    }
    Ok((skip, custom_default))
}

proof fn lemma_seen_attribute_then_duplicate(
    attrs: Seq<AttrModel>,
    st: (bool, Option<CustomDefault>, Option<usize>),
    idx: int,
    j: int,
)
    requires
        st.2 is Some,
        0 <= j < attrs.len(),
        names(attrs[j].path_ident, "props_default"@),
    ensures
        attrs_scan(attrs, st, idx) is Err,
    decreases attrs.len(),
{
    if !names(attrs[0].path_ident, "props_default"@) {
        assert(attrs.drop_first()[j - 1] == attrs[j]);
        lemma_seen_attribute_then_duplicate(attrs.drop_first(), st, idx + 1, j - 1);
    }
}

proof fn lemma_two_attributes_refused(
    attrs: Seq<AttrModel>,
    st: (bool, Option<CustomDefault>, Option<usize>),
    idx: int,
    i: int,
    j: int,
)
    requires
        0 <= i < j < attrs.len(),
        names(attrs[i].path_ident, "props_default"@),
        names(attrs[j].path_ident, "props_default"@),
    ensures
        attrs_scan(attrs, st, idx) is Err,
    decreases attrs.len(),
{
    assert(attrs.drop_first()[j - 1] == attrs[j]);
    if i == 0 {
        if let Ok(next) = attr_step(st, attrs[0], idx) {
            lemma_seen_attribute_then_duplicate(attrs.drop_first(), next, idx + 1, j - 1);
        }
    } else {
        assert(attrs.drop_first()[i - 1] == attrs[i]);
        if let Ok(next) = attr_step(st, attrs[0], idx) {
            lemma_two_attributes_refused(attrs.drop_first(), next, idx + 1, i - 1, j - 1);
        }
    }
}

/// A field's attributes are refused when two of them are `props_default`:
/// a field carries at most one.
pub proof fn law_single_props_default_attribute(attrs: Seq<AttrModel>, i: int, j: int)
    requires
        0 <= i < j < attrs.len(),
        names(attrs[i].path_ident, "props_default"@),
        names(attrs[j].path_ident, "props_default"@),
    ensures
        spec_field_attrs(attrs) is Err,
{
    lemma_two_attributes_refused(attrs, (false, None, None), 0, i, j);
}

/// Whether the nested items are each `skip` or `value`, with neither twice.
pub open spec fn items_accepted_shape(items: Seq<MetaItem>) -> bool {
    &&& forall|k: int|
        0 <= k < items.len() ==> names(#[trigger] items[k].ident, "skip"@) || names(
            items[k].ident,
            "value"@,
        )
    &&& forall|k: int, l: int|
        0 <= k < l < items.len() && names(#[trigger] items[k].ident, "skip"@) ==> !names(
            #[trigger] items[l].ident,
            "skip"@,
        )
    &&& forall|k: int, l: int|
        0 <= k < l < items.len() && names(#[trigger] items[k].ident, "value"@) ==> !names(
            #[trigger] items[l].ident,
            "value"@,
        )
}

proof fn lemma_items_accepted(
    items: Seq<MetaItem>,
    st: (bool, Option<CustomDefault>),
    attr: int,
    k: int,
)
    requires
        items_scan(items, st, attr, k) is Ok,
        forall|j: int|
            0 <= j < items.len() && names(#[trigger] items[j].ident, "value"@) ==> !(
            items[j].value is NotParsed),
    ensures
        items_accepted_shape(items),
        st.0 ==> forall|j: int| 0 <= j < items.len() ==> !names(#[trigger] items[j].ident, "skip"@),
        st.1 is Some ==> forall|j: int|
            0 <= j < items.len() ==> !names(#[trigger] items[j].ident, "value"@),
    decreases items.len(),
{
    if items.len() > 0 {
        reveal_strlit("skip");
        reveal_strlit("value");
        assert("skip"@.len() == 4);
        assert("value"@.len() == 5);
        let rest = items.drop_first();
        assert forall|j: int|
            0 <= j < rest.len() && names(#[trigger] rest[j].ident, "value"@) implies !(
        rest[j].value is NotParsed) by {
            assert(rest[j] == items[j + 1]);
        }
        let next = item_step(st, items[0], attr, k).unwrap();
        lemma_items_accepted(rest, next, attr, k + 1);
        assert forall|j: int| 1 <= j < items.len() implies #[trigger] items[j] == rest[j - 1] by {}
    }
}

/// Whether every `props_default` attribute among `attrs` was read without a
/// syntax error and holds items of the accepted shape.
pub open spec fn attrs_accepted_shape(attrs: Seq<AttrModel>) -> bool {
    forall|k: int|
        0 <= k < attrs.len() && names(#[trigger] attrs[k].path_ident, "props_default"@) ==> {
            &&& attrs[k].error is None
            &&& items_accepted_shape(attrs[k].items@)
        }
}

proof fn lemma_attrs_accepted(
    attrs: Seq<AttrModel>,
    st: (bool, Option<CustomDefault>, Option<usize>),
    idx: int,
)
    requires
        attrs_scan(attrs, st, idx) is Ok,
        attrs_well_formed(attrs),
    ensures
        attrs_accepted_shape(attrs),
    decreases attrs.len(),
{
    if attrs.len() > 0 {
        let rest = attrs.drop_first();
        assert(attrs_well_formed(rest)) by {
            assert forall|i: int, j: int|
                0 <= i < rest.len() && 0 <= j < rest[i].items@.len() && names(
                    #[trigger] rest[i].items@[j].ident,
                    "value"@,
                ) implies !(rest[i].items@[j].value is NotParsed) by {
                assert(rest[i] == attrs[i + 1]);
            }
        }
        let next = attr_step(st, attrs[0], idx).unwrap();
        lemma_attrs_accepted(rest, next, idx + 1);
        if names(attrs[0].path_ident, "props_default"@) {
            assert forall|j: int|
                0 <= j < attrs[0].items@.len() && names(
                    #[trigger] attrs[0].items@[j].ident,
                    "value"@,
                ) implies !(attrs[0].items@[j].value is NotParsed) by {}
            lemma_items_accepted(attrs[0].items@, (st.0, st.1), idx, 0);
        }
        assert forall|k: int|
            0 <= k < attrs.len() && names(
                #[trigger] attrs[k].path_ident,
                "props_default"@,
            ) implies attrs[k].error is None && items_accepted_shape(attrs[k].items@) by {
            if k > 0 {
                assert(attrs[k] == rest[k - 1]);
            }
        }
    }
}

/// Accepted attributes have the documented shape: each `props_default`
/// attribute holds only `skip` and `value` items, neither of them twice, and
/// reading it met no syntax error.
pub proof fn law_accepted_attributes_shape(attrs: Seq<AttrModel>)
    requires
        attrs_well_formed(attrs),
        spec_field_attrs(attrs) is Ok,
    ensures
        attrs_accepted_shape(attrs),
{
    lemma_attrs_accepted(attrs, (false, None, None), 0);
}

/// Whether the attribute is named `props_default`.
pub open spec fn is_props_default(a: AttrModel) -> bool {
    names(a.path_ident, "props_default"@)
}

/// Whether one of the nested items is named `name`.
pub open spec fn items_have(items: Seq<MetaItem>, name: Seq<char>) -> bool {
    exists|j: int| 0 <= j < items.len() && names(#[trigger] items[j].ident, name)
}

/// Whether a `props_default` attribute among `attrs` holds an item named
/// `name`.
pub open spec fn attrs_have(attrs: Seq<AttrModel>, name: Seq<char>) -> bool {
    exists|k: int|
        0 <= k < attrs.len() && is_props_default(attrs[k]) && items_have(
            #[trigger] attrs[k].items@,
            name,
        )
}

/// Whether one of the attributes is named `props_default`.
pub open spec fn attrs_have_props_default(attrs: Seq<AttrModel>) -> bool {
    exists|k: int| 0 <= k < attrs.len() && #[trigger] is_props_default(attrs[k])
}

/// Whether at most one of the attributes is named `props_default`.
pub open spec fn single_props_default(attrs: Seq<AttrModel>) -> bool {
    forall|i: int, j: int|
        0 <= i < j < attrs.len() && #[trigger] is_props_default(attrs[i]) ==> !#[trigger] is_props_default(
            attrs[j],
        )
}

/// Whether the expression after every `value` item was read.
pub open spec fn values_read(items: Seq<MetaItem>) -> bool {
    forall|j: int|
        0 <= j < items.len() && names(#[trigger] items[j].ident, "value"@) ==> items[j].value is Parsed
}

/// Whether the attributes have the documented shape: at most one
/// `props_default` attribute, read without a syntax error, holding `skip`
/// and `value = <expr>` items, each at most once and not both.
pub open spec fn attrs_documented(attrs: Seq<AttrModel>) -> bool {
    &&& single_props_default(attrs)
    &&& attrs_accepted_shape(attrs)
    &&& forall|k: int|
        0 <= k < attrs.len() && #[trigger] is_props_default(attrs[k]) ==> values_read(
            attrs[k].items@,
        )
    &&& !(attrs_have(attrs, "skip"@) && attrs_have(attrs, "value"@))
}

proof fn lemma_items_have_split(items: Seq<MetaItem>, name: Seq<char>)
    requires
        items.len() > 0,
    ensures
        items_have(items, name) == (names(items[0].ident, name) || items_have(
            items.drop_first(),
            name,
        )),
{
    let rest = items.drop_first();
    if items_have(items, name) && !names(items[0].ident, name) {
        let j = choose|j: int| 0 <= j < items.len() && names(#[trigger] items[j].ident, name);
        assert(rest[j - 1] == items[j]);
    }
    if items_have(rest, name) {
        let j = choose|j: int| 0 <= j < rest.len() && names(#[trigger] rest[j].ident, name);
        assert(rest[j] == items[j + 1]);
    }
}

proof fn lemma_attrs_have_split(attrs: Seq<AttrModel>, name: Seq<char>)
    requires
        attrs.len() > 0,
    ensures
        attrs_have(attrs, name) == ((is_props_default(attrs[0]) && items_have(attrs[0].items@, name))
            || attrs_have(attrs.drop_first(), name)),
        attrs_have_props_default(attrs) == (is_props_default(attrs[0]) || attrs_have_props_default(
            attrs.drop_first(),
        )),
{
    let rest = attrs.drop_first();
    if attrs_have(attrs, name) && !(is_props_default(attrs[0]) && items_have(attrs[0].items@, name)) {
        let k = choose|k: int|
            0 <= k < attrs.len() && is_props_default(attrs[k]) && items_have(
                #[trigger] attrs[k].items@,
                name,
            );
        assert(rest[k - 1] == attrs[k]);
    }
    if attrs_have(rest, name) {
        let k = choose|k: int|
            0 <= k < rest.len() && is_props_default(rest[k]) && items_have(
                #[trigger] rest[k].items@,
                name,
            );
        assert(rest[k] == attrs[k + 1]);
    }
    if attrs_have_props_default(attrs) && !is_props_default(attrs[0]) {
        let k = choose|k: int| 0 <= k < attrs.len() && #[trigger] is_props_default(attrs[k]);
        assert(rest[k - 1] == attrs[k]);
    }
    if attrs_have_props_default(rest) {
        let k = choose|k: int| 0 <= k < rest.len() && #[trigger] is_props_default(rest[k]);
        assert(rest[k] == attrs[k + 1]);
    }
}

/// What an accepted scan of nested items settles: `skip` exactly when given
/// (or already set), a default exactly when `value` is given (or already
/// set), and every `value` read.
proof fn lemma_items_flags(
    items: Seq<MetaItem>,
    st: (bool, Option<CustomDefault>),
    attr: int,
    k: int,
)
    requires
        items_scan(items, st, attr, k) is Ok,
        forall|j: int|
            0 <= j < items.len() && names(#[trigger] items[j].ident, "value"@) ==> !(
            items[j].value is NotParsed),
    ensures
        items_scan(items, st, attr, k).unwrap().0 == (st.0 || items_have(items, "skip"@)),
        (items_scan(items, st, attr, k).unwrap().1 is Some) == (st.1 is Some || items_have(
            items,
            "value"@,
        )),
        values_read(items),
    decreases items.len(),
{
    reveal_strlit("skip");
    reveal_strlit("value");
    assert("skip"@.len() == 4);
    assert("value"@.len() == 5);
    if items.len() > 0 {
        let rest = items.drop_first();
        assert forall|j: int|
            0 <= j < rest.len() && names(#[trigger] rest[j].ident, "value"@) implies !(
        rest[j].value is NotParsed) by {
            assert(rest[j] == items[j + 1]);
        }
        let next = item_step(st, items[0], attr, k).unwrap();
        lemma_items_flags(rest, next, attr, k + 1);
        lemma_items_have_split(items, "skip"@);
        lemma_items_have_split(items, "value"@);
        assert forall|j: int|
            0 <= j < items.len() && names(#[trigger] items[j].ident, "value"@) implies items[j].value is Parsed by {
            if j > 0 {
                assert(items[j] == rest[j - 1]);
            }
        }
    } else {
        assert(!items_have(items, "skip"@));
        assert(!items_have(items, "value"@));
    }
}

/// Items of the documented shape are accepted when `skip` is not already
/// set or not given, and likewise for `value`.
proof fn lemma_items_complete(
    items: Seq<MetaItem>,
    st: (bool, Option<CustomDefault>),
    attr: int,
    k: int,
)
    requires
        items_accepted_shape(items),
        values_read(items),
        st.0 ==> !items_have(items, "skip"@),
        st.1 is Some ==> !items_have(items, "value"@),
    ensures
        items_scan(items, st, attr, k) is Ok,
    decreases items.len(),
{
    reveal_strlit("skip");
    reveal_strlit("value");
    assert("skip"@.len() == 4);
    assert("value"@.len() == 5);
    if items.len() > 0 {
        let rest = items.drop_first();
        lemma_items_have_split(items, "skip"@);
        lemma_items_have_split(items, "value"@);
        assert forall|j: int| 0 <= j < rest.len() implies #[trigger] rest[j] == items[j + 1] by {}
        assert(items_accepted_shape(rest)) by {
            assert forall|a: int, b: int|
                0 <= a < b < rest.len() && names(#[trigger] rest[a].ident, "skip"@) implies !names(
                #[trigger] rest[b].ident,
                "skip"@,
            ) by {
                assert(names(items[a + 1].ident, "skip"@));
            }
            assert forall|a: int, b: int|
                0 <= a < b < rest.len() && names(#[trigger] rest[a].ident, "value"@) implies !names(
                #[trigger] rest[b].ident,
                "value"@,
            ) by {
                assert(names(items[a + 1].ident, "value"@));
            }
            assert forall|a: int| 0 <= a < rest.len() implies names(
                #[trigger] rest[a].ident,
                "skip"@,
            ) || names(rest[a].ident, "value"@) by {
                assert(names(items[a + 1].ident, "skip"@) || names(items[a + 1].ident, "value"@));
            }
        }
        assert(values_read(rest)) by {
            assert forall|j: int|
                0 <= j < rest.len() && names(#[trigger] rest[j].ident, "value"@) implies rest[j].value is Parsed by {
                assert(names(items[j + 1].ident, "value"@));
            }
        }
        assert(names(items[0].ident, "skip"@) || names(items[0].ident, "value"@));
        if names(items[0].ident, "skip"@) {
            assert(!items_have(rest, "skip"@)) by {
                if items_have(rest, "skip"@) {
                    let j = choose|j: int| 0 <= j < rest.len() && names(#[trigger] rest[j].ident, "skip"@);
                    assert(names(items[j + 1].ident, "skip"@));
                }
            }
        } else {
            assert(!items_have(rest, "value"@)) by {
                if items_have(rest, "value"@) {
                    let j = choose|j: int| 0 <= j < rest.len() && names(#[trigger] rest[j].ident, "value"@);
                    assert(names(items[j + 1].ident, "value"@));
                }
            }
        }
        let next = item_step(st, items[0], attr, k).unwrap();
        lemma_items_complete(rest, next, attr, k + 1);
    }
}

proof fn lemma_attrs_flags(
    attrs: Seq<AttrModel>,
    st: (bool, Option<CustomDefault>, Option<usize>),
    idx: int,
)
    requires
        attrs_scan(attrs, st, idx) is Ok,
        attrs_well_formed(attrs),
    ensures
        attrs_scan(attrs, st, idx).unwrap().0 == (st.0 || attrs_have(attrs, "skip"@)),
        (attrs_scan(attrs, st, idx).unwrap().1 is Some) == (st.1 is Some || attrs_have(
            attrs,
            "value"@,
        )),
        forall|k: int|
            0 <= k < attrs.len() && #[trigger] is_props_default(attrs[k]) ==> values_read(
                attrs[k].items@,
            ),
    decreases attrs.len(),
{
    if attrs.len() > 0 {
        let rest = attrs.drop_first();
        assert forall|k: int| 0 <= k < rest.len() implies #[trigger] rest[k] == attrs[k + 1] by {}
        assert(attrs_well_formed(rest)) by {
            assert forall|i: int, j: int|
                0 <= i < rest.len() && 0 <= j < rest[i].items@.len() && names(
                    #[trigger] rest[i].items@[j].ident,
                    "value"@,
                ) implies !(rest[i].items@[j].value is NotParsed) by {
                assert(rest[i] == attrs[i + 1]);
            }
        }
        lemma_attrs_have_split(attrs, "skip"@);
        lemma_attrs_have_split(attrs, "value"@);
        let next = attr_step(st, attrs[0], idx).unwrap();
        lemma_attrs_flags(rest, next, idx + 1);
        if is_props_default(attrs[0]) {
            assert forall|j: int|
                0 <= j < attrs[0].items@.len() && names(
                    #[trigger] attrs[0].items@[j].ident,
                    "value"@,
                ) implies !(attrs[0].items@[j].value is NotParsed) by {}
            lemma_items_flags(attrs[0].items@, (st.0, st.1), idx, 0);
        }
        assert forall|k: int|
            0 <= k < attrs.len() && #[trigger] is_props_default(attrs[k]) implies values_read(
            attrs[k].items@,
        ) by {
            if k > 0 {
                assert(attrs[k] == rest[k - 1]);
            }
        }
    } else {
        assert(!attrs_have(attrs, "skip"@));
        assert(!attrs_have(attrs, "value"@));
    }
}

proof fn lemma_attrs_complete(
    attrs: Seq<AttrModel>,
    st: (bool, Option<CustomDefault>, Option<usize>),
    idx: int,
)
    requires
        single_props_default(attrs),
        attrs_accepted_shape(attrs),
        forall|k: int|
            0 <= k < attrs.len() && #[trigger] is_props_default(attrs[k]) ==> values_read(
                attrs[k].items@,
            ),
        st.2 is Some ==> !attrs_have_props_default(attrs),
        st.0 ==> !attrs_have(attrs, "skip"@),
        st.1 is Some ==> !attrs_have(attrs, "value"@),
    ensures
        attrs_scan(attrs, st, idx) is Ok,
    decreases attrs.len(),
{
    if attrs.len() > 0 {
        let rest = attrs.drop_first();
        assert forall|k: int| 0 <= k < rest.len() implies #[trigger] rest[k] == attrs[k + 1] by {}
        lemma_attrs_have_split(attrs, "skip"@);
        lemma_attrs_have_split(attrs, "value"@);
        assert(single_props_default(rest)) by {
            assert forall|i: int, j: int|
                0 <= i < j < rest.len() && #[trigger] is_props_default(rest[i]) implies !#[trigger] is_props_default(
                rest[j],
            ) by {
                assert(is_props_default(attrs[i + 1]));
                assert(rest[j] == attrs[j + 1]);
            }
        }
        assert(attrs_accepted_shape(rest)) by {
            assert forall|k: int|
                0 <= k < rest.len() && names(
                    #[trigger] rest[k].path_ident,
                    "props_default"@,
                ) implies rest[k].error is None && items_accepted_shape(rest[k].items@) by {
                assert(names(attrs[k + 1].path_ident, "props_default"@));
            }
        }
        assert forall|k: int|
            0 <= k < rest.len() && #[trigger] is_props_default(rest[k]) implies values_read(
            rest[k].items@,
        ) by {
            assert(is_props_default(attrs[k + 1]));
        }
        if is_props_default(attrs[0]) {
            assert(attrs_have_props_default(attrs)) by {
                assert(is_props_default(attrs[0]));
            }
            assert(names(attrs[0].path_ident, "props_default"@));
            assert(values_read(attrs[0].items@));
            lemma_items_complete(attrs[0].items@, (st.0, st.1), idx, 0);
            assert(!attrs_have_props_default(rest)) by {
                if attrs_have_props_default(rest) {
                    let k = choose|k: int| 0 <= k < rest.len() && #[trigger] is_props_default(rest[k]);
                    assert(is_props_default(attrs[k + 1]));
                }
            }
            assert(!attrs_have(rest, "skip"@)) by {
                if attrs_have(rest, "skip"@) {
                    let k = choose|k: int|
                        0 <= k < rest.len() && is_props_default(rest[k]) && items_have(
                            #[trigger] rest[k].items@,
                            "skip"@,
                        );
                    assert(is_props_default(attrs[k + 1]));
                }
            }
            assert(!attrs_have(rest, "value"@)) by {
                if attrs_have(rest, "value"@) {
                    let k = choose|k: int|
                        0 <= k < rest.len() && is_props_default(rest[k]) && items_have(
                            #[trigger] rest[k].items@,
                            "value"@,
                        );
                    assert(is_props_default(attrs[k + 1]));
                }
            }
        }
        let next = attr_step(st, attrs[0], idx).unwrap();
        lemma_attrs_complete(rest, next, idx + 1);
    }
}

/// A field's attributes are accepted exactly when they have the documented
/// shape (at most one `props_default` attribute, holding `skip` and
/// `value = <expr>` items, each at most once and not both), and then the
/// settings follow what was given: `skip` is set exactly when a `skip` item
/// is given, and a default exactly when a `value` item is.
pub proof fn law_documented_attributes_accepted(attrs: Seq<AttrModel>)
    requires
        attrs_well_formed(attrs),
    ensures
        spec_field_attrs(attrs) is Ok <==> attrs_documented(attrs),
        spec_field_attrs(attrs) matches Ok((skip, custom_default)) ==> skip == attrs_have(
            attrs,
            "skip"@,
        ) && (custom_default is Some) == attrs_have(attrs, "value"@),
{
    let init: (bool, Option<CustomDefault>, Option<usize>) = (false, None, None);
    if spec_field_attrs(attrs) is Ok {
        lemma_attrs_flags(attrs, init, 0);
        law_accepted_attributes_shape(attrs);
        assert forall|i: int, j: int|
            0 <= i < j < attrs.len() && #[trigger] is_props_default(attrs[i]) implies !#[trigger] is_props_default(
            attrs[j],
        ) by {
            if is_props_default(attrs[j]) {
                law_single_props_default_attribute(attrs, i, j);
            }
        }
    }
    if attrs_documented(attrs) {
        lemma_attrs_complete(attrs, init, 0);
        lemma_attrs_flags(attrs, init, 0);
    }
}

/// The default that a `value` item's expression stands for: a string
/// literal with text `t` for `String::from` of exactly `t`, any other
/// expression for itself.
pub open spec fn default_for_value(v: ValueExpr) -> CustomDefault {
    match v {
        ValueExpr::Str(t, l) => CustomDefault::StringFrom(t, l),
        ValueExpr::Other(e) => CustomDefault::Expr(e),
    }
}

proof fn lemma_items_keep_default(
    items: Seq<MetaItem>,
    st: (bool, Option<CustomDefault>),
    attr: int,
    k: int,
)
    requires
        items_scan(items, st, attr, k) is Ok,
        st.1 is Some,
    ensures
        items_scan(items, st, attr, k).unwrap().1 == st.1,
    decreases items.len(),
{
    if items.len() > 0 {
        let next = item_step(st, items[0], attr, k).unwrap();
        lemma_items_keep_default(items.drop_first(), next, attr, k + 1);
    }
}

proof fn lemma_items_value_default(
    items: Seq<MetaItem>,
    st: (bool, Option<CustomDefault>),
    attr: int,
    k: int,
    j: int,
    v: ValueExpr,
)
    requires
        items_scan(items, st, attr, k) is Ok,
        st.1 is None,
        0 <= j < items.len(),
        names(items[j].ident, "value"@),
        items[j].value == ValueParse::Parsed(v),
    ensures
        items_scan(items, st, attr, k).unwrap().1 == Some(default_for_value(v)),
    decreases items.len(),
{
    reveal_strlit("skip");
    reveal_strlit("value");
    assert("skip"@.len() == 4);
    assert("value"@.len() == 5);
    let rest = items.drop_first();
    let next = item_step(st, items[0], attr, k).unwrap();
    if j == 0 {
        lemma_items_keep_default(rest, next, attr, k + 1);
    } else {
        assert(rest[j - 1] == items[j]);
        if next.1 is Some {
            // items[0] set the default: a second `value` would be refused
            lemma_items_keep_default(rest, next, attr, k + 1);
            assert(names(items[0].ident, "value"@));
            lemma_value_then_duplicate(rest, next, attr, k + 1, j - 1);
        } else {
            lemma_items_value_default(rest, next, attr, k + 1, j - 1, v);
        }
    }
}

proof fn lemma_value_then_duplicate(
    items: Seq<MetaItem>,
    st: (bool, Option<CustomDefault>),
    attr: int,
    k: int,
    j: int,
)
    requires
        st.1 is Some,
        0 <= j < items.len(),
        names(items[j].ident, "value"@),
    ensures
        items_scan(items, st, attr, k) is Err,
    decreases items.len(),
{
    reveal_strlit("skip");
    reveal_strlit("value");
    assert("skip"@.len() == 4);
    assert("value"@.len() == 5);
    if j > 0 {
        let rest = items.drop_first();
        assert(rest[j - 1] == items[j]);
        if let Ok(next) = item_step(st, items[0], attr, k) {
            lemma_value_then_duplicate(rest, next, attr, k + 1, j - 1);
        }
    }
}

proof fn lemma_attrs_keep_default(
    attrs: Seq<AttrModel>,
    st: (bool, Option<CustomDefault>, Option<usize>),
    idx: int,
)
    requires
        attrs_scan(attrs, st, idx) is Ok,
        st.1 is Some,
    ensures
        attrs_scan(attrs, st, idx).unwrap().1 == st.1,
    decreases attrs.len(),
{
    if attrs.len() > 0 {
        if is_props_default(attrs[0]) && st.2 is None {
            lemma_items_keep_default(attrs[0].items@, (st.0, st.1), idx, 0);
        }
        let next = attr_step(st, attrs[0], idx).unwrap();
        lemma_attrs_keep_default(attrs.drop_first(), next, idx + 1);
    }
}

proof fn lemma_attrs_value_default(
    attrs: Seq<AttrModel>,
    st: (bool, Option<CustomDefault>, Option<usize>),
    idx: int,
    a: int,
    j: int,
    v: ValueExpr,
)
    requires
        attrs_scan(attrs, st, idx) is Ok,
        st.1 is None,
        st.2 is None,
        0 <= a < attrs.len(),
        is_props_default(attrs[a]),
        0 <= j < attrs[a].items@.len(),
        names(attrs[a].items@[j].ident, "value"@),
        attrs[a].items@[j].value == ValueParse::Parsed(v),
    ensures
        attrs_scan(attrs, st, idx).unwrap().1 == Some(default_for_value(v)),
    decreases attrs.len(),
{
    let rest = attrs.drop_first();
    let next = attr_step(st, attrs[0], idx).unwrap();
    if a == 0 {
        lemma_items_value_default(attrs[0].items@, (st.0, st.1), idx, 0, j, v);
        lemma_attrs_keep_default(rest, next, idx + 1);
    } else {
        assert(rest[a - 1] == attrs[a]);
        if is_props_default(attrs[0]) {
            // a second `props_default` attribute would be refused
            lemma_seen_attribute_then_duplicate(rest, next, idx + 1, a - 1);
        } else {
            lemma_attrs_value_default(rest, next, idx + 1, a - 1, j, v);
        }
    }
}

/// When a field's attributes are accepted and hold a `value` item, the
/// settled default is what that item's expression stands for: for a string
/// literal with text `t`, `String::from` of exactly `t`, whatever its
/// length; for any other expression, that expression.
pub proof fn law_value_sets_its_default(attrs: Seq<AttrModel>, a: int, j: int, v: ValueExpr)
    requires
        spec_field_attrs(attrs) is Ok,
        0 <= a < attrs.len(),
        names(attrs[a].path_ident, "props_default"@),
        0 <= j < attrs[a].items@.len(),
        names(attrs[a].items@[j].ident, "value"@),
        attrs[a].items@[j].value == ValueParse::Parsed(v),
    ensures
        spec_field_attrs(attrs).unwrap().1 == Some(
            match v {
                ValueExpr::Str(t, l) => CustomDefault::StringFrom(t, l),
                ValueExpr::Other(e) => CustomDefault::Expr(e),
            },
        ),
        v matches ValueExpr::Str(t, _) ==> (spec_field_attrs(attrs).unwrap().1 matches Some(
            CustomDefault::StringFrom(u, _),
        ) && u@ == t@),
{
    lemma_attrs_value_default(attrs, (false, None, None), 0, a, j, v);
}

/// One generic argument of a path segment, as far as the derive looks at it.
#[derive(Debug, PartialEq)]
pub enum GenericArgModel {
    /// A type argument.
    Type(syn::Type),
    /// A lifetime, a constant, a binding or a constraint.
    Other,
}

/// The arguments of a path segment.
#[derive(Debug, PartialEq)]
pub enum PathArgsModel {
    /// No arguments.
    Empty,
    /// `<...>`, with its arguments in order.
    AngleBracketed(Vec<GenericArgModel>),
    /// `(...) -> ...`.
    Parenthesized,
}

/// One segment of a type's path.
#[derive(Debug, PartialEq)]
pub struct SegmentModel {
    /// The text of the segment's identifier.
    pub ident: String,
    pub arguments: PathArgsModel,
}

/// A field's type, as far as the derive looks at it.
#[derive(Debug, PartialEq)]
pub enum TypeModel {
    /// A path type, by the segments of its path.
    Path(Vec<SegmentModel>),
    /// Any other type.
    Other,
}

/// The type that `ty` wraps when it is `<wrapper><T, ...>` written as a
/// single path segment: the first generic argument, when that is a type.
pub open spec fn spec_inner_type(ty: TypeModel, wrapper: Seq<char>) -> Option<syn::Type> {
    match ty {
        TypeModel::Path(segs) => if segs@.len() == 1 && segs@[0].ident@ == wrapper {
            match segs@[0].arguments {
                PathArgsModel::AngleBracketed(args) => if args@.len() > 0 {
                    match args@[0] {
                        GenericArgModel::Type(t) => Some(t),
                        GenericArgModel::Other => None,
                    }
                } else {
                    None
                },
                _ => None,
            }
        } else {
            None
        },
        TypeModel::Other => None,
    }
}

/// A type is taken to wrap `T` exactly when it is a single path segment
/// whose identifier reads as the wrapper's name, with angle-bracketed
/// arguments whose first is the type `T`.
pub proof fn law_inner_type_only_of_wrapper(ty: TypeModel, wrapper: Seq<char>)
    ensures
        spec_inner_type(ty, wrapper) matches Some(t) ==> (ty matches TypeModel::Path(segs) && segs@.len()
            == 1 && segs@[0].ident@ == wrapper && (segs@[0].arguments matches PathArgsModel::AngleBracketed(args)
            && args@.len() > 0 && args@[0] == GenericArgModel::Type(t))),
        (ty matches TypeModel::Path(segs) && segs@.len() == 1 && segs@[0].ident@ == wrapper && (
        segs@[0].arguments matches PathArgsModel::AngleBracketed(args) && args@.len() > 0 && (
        args@[0] matches GenericArgModel::Type(t)))) ==> spec_inner_type(ty, wrapper) is Some,
{
}

/// The type that `ty` wraps, when `ty` is `wrapper<T>`.
pub fn get_inner_type(ty: TypeModel, wrapper: &str) -> (r: Option<syn::Type>)
    ensures
        r == spec_inner_type(ty, wrapper@),
{
    match ty {
        TypeModel::Path(segs) => {
            if segs.len() == 1 && str_equals(segs[0].ident.as_str(), wrapper) {
                let mut segs = segs;
                let seg = segs.remove(0);
                match seg.arguments {
                    PathArgsModel::AngleBracketed(args) => {
                        if args.len() > 0 {
                            let mut args = args;
                            match args.remove(0) {
                                GenericArgModel::Type(t) => Some(t),
                                GenericArgModel::Other => None,
                            }
                        } else {
                            None
                        }
                    },
                    _ => None,
                }
            } else {
                None
            }
        },
        TypeModel::Other => None,
    }
}

/// A named field of the struct.
#[derive(Debug)]
pub struct NamedField {
    pub ident: Option<syn::Ident>,
    pub ty: TypeModel,
    pub attrs: Vec<AttrModel>,
}

/// The fields of a struct.
#[derive(Debug)]
pub enum FieldsModel {
    /// `{ ... }`
    Named(Vec<NamedField>),
    /// `( ... )`
    Unnamed,
    /// No fields.
    Unit,
}

/// What the derive was put on.
#[derive(Debug)]
pub enum DataModel {
    Struct(FieldsModel),
    Enum,
    Union,
}

/// The item the derive was put on.
#[derive(Debug)]
pub struct DeriveInputModel {
    pub ident: syn::Ident,
    pub data: DataModel,
}

/// A field that gets a getter (unless skipped).
#[derive(Debug, PartialEq)]
pub struct FieldInfo {
    pub name: syn::Ident,
    /// The `T` of the field's `Option<T>`.
    pub inner_type: syn::Type,
    pub skip: bool,
    pub custom_default: Option<CustomDefault>,
}

/// The settled input of the derive.
#[derive(Debug, PartialEq)]
pub struct PropsDefaultInput {
    pub struct_name: syn::Ident,
    pub fields: Vec<FieldInfo>,
}

/// Why the derive refused its input.
#[derive(Debug)]
pub enum PropsDefaultError {
    /// "Only named fields are supported"
    OnlyNamedFields,
    /// "Only structs are supported"
    OnlyStructs,
    /// The attributes of the `field`-th named field were refused.
    Field { field: usize, error: AttrError },
}

/// The fields that get a getter, from the named fields `fields` (the first
/// of which has index `k`): those with an identifier and an `Option<T>`
/// type, with their settled attributes; the first field whose attributes are
/// refused ends the scan.
pub open spec fn fields_scan(fields: Seq<NamedField>, k: int) -> Result<
    Seq<FieldInfo>,
    PropsDefaultError,
>
    decreases fields.len(),
{
    if fields.len() == 0 {
        Ok(Seq::empty())
    } else {
        let f = fields[0];
        let rest = fields_scan(fields.drop_first(), k + 1);
        match (f.ident, spec_inner_type(f.ty, "Option"@)) {
            (Some(name), Some(inner)) => match spec_field_attrs(f.attrs@) {
                Ok(st) => match rest {
                    Ok(infos) => Ok(
                        seq![FieldInfo { name, inner_type: inner, skip: st.0, custom_default: st.1 }]
                            + infos,
                    ),
                    Err(e) => Err(e),
                },
                Err(e) => Err(PropsDefaultError::Field { field: k as usize, error: e }),
            },
            _ => rest,
        }
    }
}

/// Whether a named field gets into the settled input: it has an identifier
/// and an `Option<T>` type.
pub open spec fn option_field(f: NamedField) -> bool {
    f.ident is Some && spec_inner_type(f.ty, "Option"@) is Some
}

/// How many of the fields have an identifier and an `Option<T>` type.
pub open spec fn option_field_count(fields: Seq<NamedField>) -> nat
    decreases fields.len(),
{
    if fields.len() == 0 {
        0
    } else {
        (if option_field(fields[0]) {
            1nat
        } else {
            0nat
        }) + option_field_count(fields.drop_first())
    }
}

/// Whether `info` is built from the field `f`: its name, the `T` of its
/// `Option<T>`, and the settings of its attributes.
pub open spec fn info_from_field(info: FieldInfo, f: NamedField) -> bool {
    &&& f.ident == Some(info.name)
    &&& spec_inner_type(f.ty, "Option"@) == Some(info.inner_type)
    &&& spec_field_attrs(f.attrs@) == Ok::<(bool, Option<CustomDefault>), AttrError>(
        (info.skip, info.custom_default),
    )
}

proof fn lemma_fields_scan_keeps_option_fields(fields: Seq<NamedField>, k: int)
    requires
        fields_scan(fields, k) is Ok,
    ensures
        fields_scan(fields, k).unwrap().len() == option_field_count(fields),
        forall|j: int|
            0 <= j < fields.len() && option_field(#[trigger] fields[j]) ==> option_field_count(
                fields.take(j),
            ) < fields_scan(fields, k).unwrap().len() && info_from_field(
                fields_scan(fields, k).unwrap()[option_field_count(fields.take(j)) as int],
                fields[j],
            ),
    decreases fields.len(),
{
    if fields.len() > 0 {
        let rest = fields.drop_first();
        lemma_fields_scan_keeps_option_fields(rest, k + 1);
        let infos = fields_scan(fields, k).unwrap();
        assert forall|j: int|
            0 <= j < fields.len() && option_field(#[trigger] fields[j]) implies option_field_count(
            fields.take(j),
        ) < infos.len() && info_from_field(
            infos[option_field_count(fields.take(j)) as int],
            fields[j],
        ) by {
            if j == 0 {
                assert(fields.take(0).len() == 0);
            } else {
                assert(fields.take(j).drop_first() =~= rest.take(j - 1));
                assert(fields.take(j)[0] == fields[0]);
                assert(rest[j - 1] == fields[j]);
            }
        }
    }
}

/// The derive keeps every named field that has an identifier and an
/// `Option<T>` type, wherever it stands, and no other: the settled fields
/// are as many as those fields, and the field before which `i` such fields
/// stand gives the `i`-th settled field, with its name, its `T` and the
/// settings of its attributes.
pub proof fn law_every_option_field_is_kept(input: DeriveInputModel)
    requires
        spec_from_derive_input(input) is Ok,
    ensures
        input.data matches DataModel::Struct(FieldsModel::Named(fields)) && ({
            let infos = spec_from_derive_input(input).unwrap().1;
            &&& infos.len() == option_field_count(fields@)
            &&& forall|j: int|
                0 <= j < fields@.len() && option_field(#[trigger] fields@[j]) ==> option_field_count(
                    fields@.take(j),
                ) < infos.len() && info_from_field(
                    infos[option_field_count(fields@.take(j)) as int],
                    fields@[j],
                )
        }),
{
    if let DataModel::Struct(FieldsModel::Named(fields)) = input.data {
        lemma_fields_scan_keeps_option_fields(fields@, 0);
    }
}

/// What the derive settles from its input.
pub open spec fn spec_from_derive_input(input: DeriveInputModel) -> Result<
    (syn::Ident, Seq<FieldInfo>),
    PropsDefaultError,
> {
    match input.data {
        DataModel::Struct(FieldsModel::Named(fields)) => match fields_scan(fields@, 0) {
            Ok(infos) => Ok((input.ident, infos)),
            Err(e) => Err(e),
        },
        DataModel::Struct(_) => Err(PropsDefaultError::OnlyNamedFields),
        _ => Err(PropsDefaultError::OnlyStructs),
    }
}

/// Whether the attributes of every named field are well formed.
pub open spec fn derive_input_well_formed(input: DeriveInputModel) -> bool {
    input.data matches DataModel::Struct(FieldsModel::Named(fields)) ==> forall|i: int|
        0 <= i < fields@.len() ==> #[trigger] attrs_well_formed(fields@[i].attrs@)
}

impl PropsDefaultInput {
    /// Settles the derive's input: the struct's name and the fields that get
    /// a getter.
    pub fn from_derive_input(input: DeriveInputModel) -> (r: Result<
        PropsDefaultInput,
        PropsDefaultError,
    >)
        requires
            derive_input_well_formed(input),
        ensures
            match spec_from_derive_input(input) {
                Ok((name, infos)) => r matches Ok(out) && out.struct_name == name && out.fields@
                    == infos,
                Err(e) => r == Err::<PropsDefaultInput, PropsDefaultError>(e),
            },
    {
        let struct_name = input.ident;
        let fields = match input.data {
            DataModel::Struct(FieldsModel::Named(fields)) => fields,
            DataModel::Struct(_) => {
                return Err(PropsDefaultError::OnlyNamedFields);
            },
            _ => {
                return Err(PropsDefaultError::OnlyStructs);
            },
        };
        let ghost orig = fields@;
        let ghost goal = fields_scan(fields@, 0);
        assert(orig.skip(0) =~= orig);
        let mut rest = fields;
        let mut infos: Vec<FieldInfo> = Vec::new();
        let n = rest.len();
        let mut i: usize = 0;
        while i < n
            invariant
                n == orig.len(),
                i <= n,
                rest@ == orig.skip(i as int),
                goal == fields_scan(orig, 0),
                forall|k: int| 0 <= k < orig.len() ==> #[trigger] attrs_well_formed(orig[k].attrs@),
                spec_from_derive_input(input) == (match goal {
                    Ok(all) => Ok((struct_name, all)),
                    Err(e) => Err(e),
                }),
                goal == (match fields_scan(orig.skip(i as int), i as int) {
                    Ok(tail) => Ok(infos@ + tail),
                    Err(e) => Err(e),
                }),
            decreases n - i,
        {
            let f = rest.remove(0);
            assert(f == orig[i as int]);
            assert(rest@ =~= orig.skip(i + 1));
            assert(orig.skip(i as int)[0] == orig[i as int]);
            assert(orig.skip(i as int).drop_first() =~= orig.skip(i + 1));
            assert(attrs_well_formed(orig[i as int].attrs@));
            let NamedField { ident, ty, attrs } = f;
            let inner = get_inner_type(ty, "Option");
            match (ident, inner) {
                (Some(name), Some(inner_type)) => {
                    match parse_field_attrs(attrs) {
                        Ok(st) => {
                            let ghost before = infos@;
                            let info = FieldInfo {
                                name,
                                inner_type,
                                skip: st.0,
                                custom_default: st.1,
                            };
                            infos.push(info);
                            proof {
                                match fields_scan(orig.skip(i + 1), i + 1) {
                                    Ok(tail) => {
                                        assert(before + (seq![info] + tail) =~= infos@ + tail);
                                    },
                                    Err(e) => {},
                                }
                            }
                        },
                        Err(e) => {
                            return Err(PropsDefaultError::Field { field: i, error: e });
                        },
                    }
                },
                _ => {},
            }
            i = i + 1;
        }
        assert(orig.skip(n as int).len() == 0);
        assert(infos@ + Seq::<FieldInfo>::empty() =~= infos@);
        Ok(PropsDefaultInput { struct_name, fields: infos })
    }
}

proof fn lemma_fields_never_skip_and_value(fields: Seq<NamedField>, k: int)
    requires
        fields_scan(fields, k) is Ok,
    ensures
        forall|i: int|
            0 <= i < fields_scan(fields, k).unwrap().len() ==> !(#[trigger] fields_scan(
                fields,
                k,
            ).unwrap()[i].skip && fields_scan(fields, k).unwrap()[i].custom_default is Some),
    decreases fields.len(),
{
    if fields.len() > 0 {
        lemma_fields_never_skip_and_value(fields.drop_first(), k + 1);
    }
}

/// No field that the derive accepts is both skipped and given a default:
/// `skip` and `value` exclude each other on every field.
pub proof fn law_no_field_skipped_with_default(input: DeriveInputModel)
    requires
        spec_from_derive_input(input) is Ok,
    ensures
        forall|i: int|
            0 <= i < spec_from_derive_input(input).unwrap().1.len() ==> !(
            #[trigger] spec_from_derive_input(input).unwrap().1[i].skip && spec_from_derive_input(
                input,
            ).unwrap().1[i].custom_default is Some),
{
    if let DataModel::Struct(FieldsModel::Named(fields)) = input.data {
        lemma_fields_never_skip_and_value(fields@, 0);
    }
}

/// What a getter falls back on when its field is `None`.
#[derive(Debug, PartialEq)]
pub enum GetterDefault {
    /// `self.<field>.clone().unwrap_or_else(|| <default>)`
    Custom(CustomDefault),
    /// `self.<field>.clone().unwrap_or_default()`
    TypeDefault,
}

/// A getter `pub fn <field>(&self) -> <inner type>` of the generated impl.
#[derive(Debug, PartialEq)]
pub struct Getter {
    /// The field read, whose name the getter also takes.
    pub field: syn::Ident,
    pub inner_type: syn::Type,
    pub default: GetterDefault,
}

/// The generated `impl <struct_name> { <getters> }`.
#[derive(Debug, PartialEq)]
pub struct PropsDefaultImpl {
    pub struct_name: syn::Ident,
    pub getters: Vec<Getter>,
}

/// The getter of a field.
pub open spec fn getter_of(f: FieldInfo) -> Getter {
    Getter {
        field: f.name,
        inner_type: f.inner_type,
        default: match f.custom_default {
            Some(c) => GetterDefault::Custom(c),
            None => GetterDefault::TypeDefault,
        },
    }
}

/// The getters of the fields that are not skipped, in order.
pub open spec fn getters_of(fields: Seq<FieldInfo>) -> Seq<Getter>
    decreases fields.len(),
{
    if fields.len() == 0 {
        Seq::empty()
    } else {
        let rest = getters_of(fields.drop_first());
        if fields[0].skip {
            rest
        } else {
            seq![getter_of(fields[0])] + rest
        }
    }
}

// What a generated getter returns.
//
// A getter runs on a value of the struct: `field_value` is what its field
// holds, `custom` gives the value a custom default evaluates to, and
// `type_default` the value of `Default::default()` for a type. Cloning the
// field gives an equal value.

/// What the getter `g` returns when its field holds `field_value`:
/// `self.<field>.clone().unwrap_or_else(|| <default>)`, or
/// `self.<field>.clone().unwrap_or_default()`.
pub open spec fn getter_returns<V>(
    g: Getter,
    field_value: Option<V>,
    custom: spec_fn(CustomDefault) -> V,
    type_default: spec_fn(syn::Type) -> V,
) -> V {
    match field_value {
        Some(v) => v,
        None => match g.default {
            GetterDefault::Custom(c) => custom(c),
            GetterDefault::TypeDefault => type_default(g.inner_type),
        },
    }
}

/// What reading the field `f` is documented to give when it holds
/// `field_value`: that value, else the `value` given for it, else its type's
/// default.
pub open spec fn field_value_or_default<V>(
    f: FieldInfo,
    field_value: Option<V>,
    custom: spec_fn(CustomDefault) -> V,
    type_default: spec_fn(syn::Type) -> V,
) -> V {
    match field_value {
        Some(v) => v,
        None => match f.custom_default {
            Some(c) => custom(c),
            None => type_default(f.inner_type),
        },
    }
}

/// How many of the fields are not skipped.
pub open spec fn kept_count(fields: Seq<FieldInfo>) -> nat
    decreases fields.len(),
{
    if fields.len() == 0 {
        0
    } else {
        (if fields[0].skip {
            0nat
        } else {
            1nat
        }) + kept_count(fields.drop_first())
    }
}

proof fn lemma_getters_positions(fields: Seq<FieldInfo>)
    ensures
        getters_of(fields).len() == kept_count(fields),
        forall|i: int|
            0 <= i < fields.len() && !(#[trigger] fields[i]).skip ==> kept_count(fields.take(i))
                < getters_of(fields).len() && getters_of(fields)[kept_count(fields.take(i)) as int]
                == getter_of(fields[i]),
        forall|j: int|
            0 <= j < getters_of(fields).len() ==> exists|i: int|
                0 <= i < fields.len() && !fields[i].skip && #[trigger] getters_of(fields)[j]
                    == getter_of(fields[i]),
    decreases fields.len(),
{
    if fields.len() > 0 {
        let rest = fields.drop_first();
        lemma_getters_positions(rest);
        let g = getters_of(fields);
        let gr = getters_of(rest);
        assert forall|i: int| 0 <= i < fields.len() && !(#[trigger] fields[i]).skip implies kept_count(
            fields.take(i),
        ) < g.len() && g[kept_count(fields.take(i)) as int] == getter_of(fields[i]) by {
            if i == 0 {
                assert(fields.take(0).len() == 0);
                assert(kept_count(fields.take(0)) == 0);
            } else {
                assert(fields.take(i).drop_first() =~= rest.take(i - 1));
                assert(fields.take(i)[0] == fields[0]);
                assert(rest[i - 1] == fields[i]);
                assert(!rest[i - 1].skip);
            }
        }
        assert forall|j: int| 0 <= j < g.len() implies exists|i: int|
            0 <= i < fields.len() && !fields[i].skip && #[trigger] g[j] == getter_of(fields[i]) by {
            if fields[0].skip {
                assert(g[j] == gr[j]);
                let i = choose|i: int|
                    0 <= i < rest.len() && !rest[i].skip && #[trigger] gr[j] == getter_of(rest[i]);
                assert(rest[i] == fields[i + 1]);
            } else if j == 0 {
                assert(g[0] == getter_of(fields[0]));
            } else {
                assert(g[j] == gr[j - 1]);
                let i = choose|i: int|
                    0 <= i < rest.len() && !rest[i].skip && #[trigger] gr[j - 1] == getter_of(rest[i]);
                assert(rest[i] == fields[i + 1]);
            }
        }
    }
}

/// The generated getters are one per field that is not skipped, in the
/// fields' order; each is named after its field and returns what reading
/// the field is documented to give: the field's value when it holds one,
/// else the `value` given for it, else its type's default. When the fields'
/// names are distinct, as in a struct, no getter is named after a skipped
/// field.
pub proof fn law_getters_return_field_or_default<V>(
    fields: Seq<FieldInfo>,
    value_of: spec_fn(syn::Ident) -> Option<V>,
    custom: spec_fn(CustomDefault) -> V,
    type_default: spec_fn(syn::Type) -> V,
)
    ensures
        getters_of(fields).len() == kept_count(fields),
        forall|i: int|
            0 <= i < fields.len() && !(#[trigger] fields[i]).skip ==> {
                let g = getters_of(fields)[kept_count(fields.take(i)) as int];
                &&& kept_count(fields.take(i)) < getters_of(fields).len()
                &&& g.field == fields[i].name
                &&& g.inner_type == fields[i].inner_type
                &&& getter_returns(g, value_of(g.field), custom, type_default)
                    == field_value_or_default(fields[i], value_of(fields[i].name), custom, type_default)
            },
        (forall|a: int, b: int|
            0 <= a < b < fields.len() ==> #[trigger] fields[a].name != #[trigger] fields[b].name)
            ==> forall|i: int, j: int|
            0 <= i < fields.len() && (#[trigger] fields[i]).skip && 0 <= j < getters_of(fields).len()
                ==> #[trigger] getters_of(fields)[j].field != fields[i].name,
{
    lemma_getters_positions(fields);
    if forall|a: int, b: int|
        0 <= a < b < fields.len() ==> #[trigger] fields[a].name != #[trigger] fields[b].name {
        assert forall|i: int, j: int|
            0 <= i < fields.len() && (#[trigger] fields[i]).skip && 0 <= j < getters_of(fields).len()
                implies #[trigger] getters_of(fields)[j].field != fields[i].name by {
            let k = choose|k: int|
                0 <= k < fields.len() && !fields[k].skip && #[trigger] getters_of(fields)[j]
                    == getter_of(fields[k]);
            assert(k != i);
            if k < i {
                assert(fields[k].name != fields[i].name);
            } else {
                assert(fields[i].name != fields[k].name);
            }
        }
    }
}

impl PropsDefaultInput {
    /// The impl that the derive expands to: one getter per field that is not
    /// skipped.
    pub fn into_getters(self) -> (r: PropsDefaultImpl)
        ensures
            r.struct_name == self.struct_name,
            r.getters@ == getters_of(self.fields@),
    {
        let ghost orig = self.fields@;
        assert(orig.skip(0) =~= orig);
        let PropsDefaultInput { struct_name, fields } = self;
        let mut rest = fields;
        let mut getters: Vec<Getter> = Vec::new();
        let n = rest.len();
        let mut i: usize = 0;
        while i < n
            invariant
                n == orig.len(),
                i <= n,
                rest@ == orig.skip(i as int),
                getters_of(orig) == getters@ + getters_of(orig.skip(i as int)),
            decreases n - i,
        {
            let f = rest.remove(0);
            assert(f == orig[i as int]);
            assert(rest@ =~= orig.skip(i + 1));
            assert(orig.skip(i as int)[0] == orig[i as int]);
            assert(orig.skip(i as int).drop_first() =~= orig.skip(i + 1));
            let ghost before = getters@;
            if !f.skip {
                let FieldInfo { name, inner_type, skip: _, custom_default } = f;
                let default = match custom_default {
                    Some(c) => GetterDefault::Custom(c),
                    None => GetterDefault::TypeDefault,
                };
                getters.push(Getter { field: name, inner_type, default });
                assert(before + (seq![getter_of(f)] + getters_of(orig.skip(i + 1))) =~= getters@
                    + getters_of(orig.skip(i + 1)));
            }
            i = i + 1;
        }
        assert(orig.skip(n as int).len() == 0);
        assert(getters@ + Seq::<Getter>::empty() =~= getters@);
        PropsDefaultImpl { struct_name, getters }
    }
}

} // verus!
