//! What the declaration of a type says of its database side: the
//! enumeration that an `enum` stands for, and the record that a `struct`
//! with named fields is read from.

use vstd::prelude::*;

use crate::names::{sorted_names, sorted_set};
use crate::rename::{renamed, rule_named, RenameAll};
use crate::shape::{Field, FieldView, RecordType, RecordTypeView};
use crate::text::{str_eq, string_views};
use crate::types::{Enum, SqlType, SqlTypeView};

verus! {

/// One option of an attribute: `key`, or `key = value`.
#[derive(Debug, PartialEq, Eq)]
pub struct OptionExpr {
    pub key: String,
    pub value: Option<String>,
}

/// What an [`OptionExpr`] stands for in contracts.
pub struct OptionExprView {
    pub key: Seq<char>,
    pub value: Option<Seq<char>>,
}

impl View for OptionExpr {
    type V = OptionExprView;

    open spec fn view(&self) -> OptionExprView {
        OptionExprView {
            key: self.key@,
            value: match self.value {
                Some(v) => Some(v@),
                None => None,
            },
        }
    }
}

/// The views of a list of options.
pub open spec fn option_views(options: Seq<OptionExpr>) -> Seq<OptionExprView> {
    options.map_values(|o: OptionExpr| o@)
}

/// An attribute: the name it goes by, and its options in their order.
#[derive(Debug, PartialEq, Eq)]
pub struct Attribute {
    pub path: String,
    pub options: Vec<OptionExpr>,
}

/// What an [`Attribute`] stands for in contracts.
pub struct AttributeView {
    pub path: Seq<char>,
    pub options: Seq<OptionExprView>,
}

impl View for Attribute {
    type V = AttributeView;

    open spec fn view(&self) -> AttributeView {
        AttributeView { path: self.path@, options: option_views(self.options@) }
    }
}

/// The views of a list of attributes.
pub open spec fn attribute_views(attrs: Seq<Attribute>) -> Seq<AttributeView> {
    attrs.map_values(|a: Attribute| a@)
}

/// Why a declaration gives no description.
#[derive(Debug, PartialEq, Eq)]
pub enum DeriveError {
    /// The declaration is no `enum`.
    NotAnEnum,
    /// The declaration is no `struct` with named fields.
    NotANamedStruct,
    /// `rename_all` stands without a value.
    RenameAllWithoutValue,
    /// The value of `rename_all` names no rule.
    InvalidRenameAll,
    /// `name` stands without a value.
    RenameWithoutValue,
    /// `default` stands without a value.
    DefaultWithoutValue,
    /// A field's attribute has an option of this key, which is not known.
    UnknownOption(String),
}

/// What a [`DeriveError`] stands for in contracts.
pub enum DeriveErrorView {
    NotAnEnum,
    NotANamedStruct,
    RenameAllWithoutValue,
    InvalidRenameAll,
    RenameWithoutValue,
    DefaultWithoutValue,
    UnknownOption(Seq<char>),
}

impl View for DeriveError {
    type V = DeriveErrorView;

    open spec fn view(&self) -> DeriveErrorView {
        match self {
            DeriveError::NotAnEnum => DeriveErrorView::NotAnEnum,
            DeriveError::NotANamedStruct => DeriveErrorView::NotANamedStruct,
            DeriveError::RenameAllWithoutValue => DeriveErrorView::RenameAllWithoutValue,
            DeriveError::InvalidRenameAll => DeriveErrorView::InvalidRenameAll,
            DeriveError::RenameWithoutValue => DeriveErrorView::RenameWithoutValue,
            DeriveError::DefaultWithoutValue => DeriveErrorView::DefaultWithoutValue,
            DeriveError::UnknownOption(key) => DeriveErrorView::UnknownOption(key@),
        }
    }
}

/// The message of each error.
pub open spec fn derive_message(e: DeriveErrorView) -> Seq<char> {
    match e {
        DeriveErrorView::NotAnEnum => "Enum can only be derived from enums"@,
        DeriveErrorView::NotANamedStruct => "FromRow can only be derived from named structs"@,
        DeriveErrorView::RenameAllWithoutValue => "rename_all must have a value"@,
        DeriveErrorView::InvalidRenameAll => "invalid rename_all rule"@,
        DeriveErrorView::RenameWithoutValue => "rename must have a value"@,
        DeriveErrorView::DefaultWithoutValue => "default must have a value"@,
        DeriveErrorView::UnknownOption(_) => "unknown option"@,
    }
}

impl DeriveError {
    /// The message of this error.
    pub fn message(&self) -> (r: &'static str)
        ensures
            r@ == derive_message(self@),
    {
        match self {
            DeriveError::NotAnEnum => "Enum can only be derived from enums",
            DeriveError::NotANamedStruct => "FromRow can only be derived from named structs",
            DeriveError::RenameAllWithoutValue => "rename_all must have a value",
            DeriveError::InvalidRenameAll => "invalid rename_all rule",
            DeriveError::RenameWithoutValue => "rename must have a value",
            DeriveError::DefaultWithoutValue => "default must have a value",
            DeriveError::UnknownOption(_) => "unknown option",
        }
    }
}

/// The options of the attributes that go by `path`, in their order.
pub open spec fn options_of(attrs: Seq<AttributeView>, path: Seq<char>) -> Seq<OptionExprView>
    decreases attrs.len(),
{
    if attrs.len() == 0 {
        Seq::empty()
    } else if attrs.last().path == path {
        options_of(attrs.drop_last(), path) + attrs.last().options
    } else {
        options_of(attrs.drop_last(), path)
    }
}

fn copy_option(option: &OptionExpr) -> (r: OptionExpr)
    ensures
        r@ == option@,
{
    OptionExpr {
        key: option.key.clone(),
        value: match &option.value {
            Some(v) => Some(v.clone()),
            None => None,
        },
    }
}

fn collect_options(attrs: &Vec<Attribute>, path: &str) -> (r: Vec<OptionExpr>)
    ensures
        option_views(r@) == options_of(attribute_views(attrs@), path@),
{
    let ghost av = attribute_views(attrs@);
    let mut r: Vec<OptionExpr> = Vec::new();
    let mut i: usize = 0;
    proof {
        assert(av.take(0) =~= Seq::<AttributeView>::empty());
        assert(option_views(r@) =~= Seq::<OptionExprView>::empty());
    }
    while i < attrs.len()
        invariant
            i <= attrs@.len(),
            av == attribute_views(attrs@),
            option_views(r@) == options_of(av.take(i as int), path@),
        decreases attrs@.len() - i,
    {
        proof {
            assert(av.take(i + 1).drop_last() =~= av.take(i as int));
            assert(av.take(i + 1).last() == attrs@[i as int]@);
        }
        let attr = &attrs[i];
        if str_eq(attr.path.as_str(), path) {
            let ghost before = option_views(r@);
            let mut j: usize = 0;
            while j < attr.options.len()
                invariant
                    j <= attr.options@.len(),
                    option_views(r@) =~= before + option_views(attr.options@).take(j as int),
                decreases attr.options@.len() - j,
            {
                let ghost so_far = option_views(r@);
                r.push(copy_option(&attr.options[j]));
                proof {
                    let all = option_views(attr.options@);
                    assert(all[j as int] == attr.options@[j as int]@);
                    assert(option_views(r@) =~= so_far.push(all[j as int]));
                    assert(all.take(j + 1) =~= all.take(j as int).push(all[j as int]));
                }
                j += 1;
            }
            proof {
                let all = option_views(attr.options@);
                assert(all.take(attr.options@.len() as int) =~= all);
            }
        }
        i += 1;
    }
    proof {
        assert(av.take(attrs@.len() as int) =~= av);
    }
    r
}

/// What the attributes of a type say of all its variants.
#[derive(Debug, Clone, Copy, PartialEq, Eq)]
pub struct Options {
    pub rename_all: Option<RenameAll>,
}

/// The rule after one more option: `rename_all` sets it and must have a
/// value that names a rule; any other option leaves it.
pub open spec fn rule_after(before: Option<RenameAll>, option: OptionExprView) -> Result<
    Option<RenameAll>,
    DeriveErrorView,
> {
    if option.key == "rename_all"@ {
        match option.value {
            None => Err(DeriveErrorView::RenameAllWithoutValue),
            Some(value) => match rule_named(value) {
                Some(rule) => Ok(Some(rule)),
                None => Err(DeriveErrorView::InvalidRenameAll),
            },
        }
    } else {
        Ok(before)
    }
}

/// The rule that a list of options leaves: the last `rename_all` decides,
/// and the first option at fault is the error.
pub open spec fn rule_of(options: Seq<OptionExprView>) -> Result<
    Option<RenameAll>,
    DeriveErrorView,
>
    decreases options.len(),
{
    if options.len() == 0 {
        Ok(None)
    } else {
        match rule_of(options.drop_last()) {
            Ok(before) => rule_after(before, options.last()),
            Err(e) => Err(e),
        }
    }
}

/// An error among the first options stays the outcome.
pub proof fn lemma_rule_error(options: Seq<OptionExprView>, j: int)
    requires
        0 <= j <= options.len(),
        rule_of(options.take(j)) is Err,
    ensures
        rule_of(options) == rule_of(options.take(j)),
    decreases options.len() - j,
{
    if j < options.len() {
        assert(options.take(j + 1).drop_last() =~= options.take(j));
        lemma_rule_error(options, j + 1);
    } else {
        assert(options.take(j) =~= options);
    }
}

/// Reads the options of the `postgres` attributes of a type.
pub fn extract_options(attrs: &Vec<Attribute>) -> (r: Result<Options, DeriveError>)
    ensures
        match r {
            Ok(options) => rule_of(options_of(attribute_views(attrs@), "postgres"@)) == Ok::<
                Option<RenameAll>,
                DeriveErrorView,
            >(options.rename_all),
            Err(e) => rule_of(options_of(attribute_views(attrs@), "postgres"@)) == Err::<
                Option<RenameAll>,
                DeriveErrorView,
            >(e@),
        },
{
    let options = collect_options(attrs, "postgres");
    let ghost ov = option_views(options@);
    let mut rename_all: Option<RenameAll> = None;
    let mut i: usize = 0;
    proof {
        assert(ov.take(0) =~= Seq::<OptionExprView>::empty());
    }
    while i < options.len()
        invariant
            i <= options@.len(),
            ov == option_views(options@),
            ov == options_of(attribute_views(attrs@), "postgres"@),
            rule_of(ov.take(i as int)) == Ok::<Option<RenameAll>, DeriveErrorView>(rename_all),
        decreases options@.len() - i,
    {
        proof {
            assert(ov.take(i + 1).drop_last() =~= ov.take(i as int));
            assert(ov.take(i + 1).last() == options@[i as int]@);
        }
        if str_eq(options[i].key.as_str(), "rename_all") {
            match &options[i].value {
                None => {
                    proof {
                        lemma_rule_error(ov, i + 1);
                    }
                    return Err(DeriveError::RenameAllWithoutValue);
                },
                Some(value) => match RenameAll::from_name(value.as_str()) {
                    Ok(rule) => {
                        rename_all = Some(rule);
                    },
                    Err(_) => {
                        proof {
                            lemma_rule_error(ov, i + 1);
                        }
                        return Err(DeriveError::InvalidRenameAll);
                    },
                },
            }
        }
        i += 1;
    }
    proof {
        assert(ov.take(options@.len() as int) =~= ov);
    }
    Ok(Options { rename_all })
}

/// What the attributes of a variant say of it.
#[derive(Debug, PartialEq, Eq)]
pub struct VariantOptions {
    pub rename: Option<String>,
}

/// The name after one more option: `name` sets it and must have a value;
/// any other option leaves it.
pub open spec fn rename_after(before: Option<Seq<char>>, option: OptionExprView) -> Result<
    Option<Seq<char>>,
    DeriveErrorView,
> {
    if option.key == "name"@ {
        match option.value {
            None => Err(DeriveErrorView::RenameWithoutValue),
            Some(value) => Ok(Some(value)),
        }
    } else {
        Ok(before)
    }
}

/// The name that a list of options leaves: the last `name` decides, and
/// the first option at fault is the error.
pub open spec fn rename_of(options: Seq<OptionExprView>) -> Result<
    Option<Seq<char>>,
    DeriveErrorView,
>
    decreases options.len(),
{
    if options.len() == 0 {
        Ok(None)
    } else {
        match rename_of(options.drop_last()) {
            Ok(before) => rename_after(before, options.last()),
            Err(e) => Err(e),
        }
    }
}

/// An error among the first options stays the outcome.
pub proof fn lemma_rename_error(options: Seq<OptionExprView>, j: int)
    requires
        0 <= j <= options.len(),
        rename_of(options.take(j)) is Err,
    ensures
        rename_of(options) == rename_of(options.take(j)),
    decreases options.len() - j,
{
    if j < options.len() {
        assert(options.take(j + 1).drop_last() =~= options.take(j));
        lemma_rename_error(options, j + 1);
    } else {
        assert(options.take(j) =~= options);
    }
}

/// The view of an optional string.
pub open spec fn optional_view(s: Option<String>) -> Option<Seq<char>> {
    match s {
        Some(v) => Some(v@),
        None => None,
    }
}

/// Reads the options of the `postgres` attributes of a variant.
pub fn extract_variant_options(attrs: &Vec<Attribute>) -> (r: Result<VariantOptions, DeriveError>)
    ensures
        match r {
            Ok(options) => rename_of(options_of(attribute_views(attrs@), "postgres"@)) == Ok::<
                Option<Seq<char>>,
                DeriveErrorView,
            >(optional_view(options.rename)),
            Err(e) => rename_of(options_of(attribute_views(attrs@), "postgres"@)) == Err::<
                Option<Seq<char>>,
                DeriveErrorView,
            >(e@),
        },
{
    let options = collect_options(attrs, "postgres");
    let ghost ov = option_views(options@);
    let mut rename: Option<String> = None;
    let mut i: usize = 0;
    proof {
        assert(ov.take(0) =~= Seq::<OptionExprView>::empty());
    }
    while i < options.len()
        invariant
            i <= options@.len(),
            ov == option_views(options@),
            ov == options_of(attribute_views(attrs@), "postgres"@),
            rename_of(ov.take(i as int)) == Ok::<Option<Seq<char>>, DeriveErrorView>(
                optional_view(rename),
            ),
        decreases options@.len() - i,
    {
        proof {
            assert(ov.take(i + 1).drop_last() =~= ov.take(i as int));
            assert(ov.take(i + 1).last() == options@[i as int]@);
        }
        if str_eq(options[i].key.as_str(), "name") {
            match &options[i].value {
                None => {
                    proof {
                        lemma_rename_error(ov, i + 1);
                    }
                    return Err(DeriveError::RenameWithoutValue);
                },
                Some(value) => {
                    rename = Some(value.clone());
                },
            }
        }
        i += 1;
    }
    proof {
        assert(ov.take(options@.len() as int) =~= ov);
    }
    Ok(VariantOptions { rename })
}

/// What the attributes of a field say of it.
#[derive(Debug, PartialEq, Eq)]
pub struct FieldOptions {
    pub default: Option<String>,
}

/// The default after one more option: `default` sets it and must have a
/// value; any other option is an error.
pub open spec fn default_after(before: Option<Seq<char>>, option: OptionExprView) -> Result<
    Option<Seq<char>>,
    DeriveErrorView,
> {
    if option.key == "default"@ {
        match option.value {
            None => Err(DeriveErrorView::DefaultWithoutValue),
            Some(value) => Ok(Some(value)),
        }
    } else {
        Err(DeriveErrorView::UnknownOption(option.key))
    }
}

/// The default that a list of options leaves: the last `default`
/// decides, and the first option at fault is the error.
pub open spec fn default_of(options: Seq<OptionExprView>) -> Result<
    Option<Seq<char>>,
    DeriveErrorView,
>
    decreases options.len(),
{
    if options.len() == 0 {
        Ok(None)
    } else {
        match default_of(options.drop_last()) {
            Ok(before) => default_after(before, options.last()),
            Err(e) => Err(e),
        }
    }
}

/// An error among the first options stays the outcome.
pub proof fn lemma_default_error(options: Seq<OptionExprView>, j: int)
    requires
        0 <= j <= options.len(),
        default_of(options.take(j)) is Err,
    ensures
        default_of(options) == default_of(options.take(j)),
    decreases options.len() - j,
{
    if j < options.len() {
        assert(options.take(j + 1).drop_last() =~= options.take(j));
        lemma_default_error(options, j + 1);
    } else {
        assert(options.take(j) =~= options);
    }
}

/// Reads the options of the `sqlm` attributes of a field.
pub fn extract_field_options(attrs: &Vec<Attribute>) -> (r: Result<FieldOptions, DeriveError>)
    ensures
        match r {
            Ok(options) => default_of(options_of(attribute_views(attrs@), "sqlm"@)) == Ok::<
                Option<Seq<char>>,
                DeriveErrorView,
            >(optional_view(options.default)),
            Err(e) => default_of(options_of(attribute_views(attrs@), "sqlm"@)) == Err::<
                Option<Seq<char>>,
                DeriveErrorView,
            >(e@),
        },
{
    let options = collect_options(attrs, "sqlm");
    let ghost ov = option_views(options@);
    let mut default: Option<String> = None;
    let mut i: usize = 0;
    proof {
        assert(ov.take(0) =~= Seq::<OptionExprView>::empty());
    }
    while i < options.len()
        invariant
            i <= options@.len(),
            ov == option_views(options@),
            ov == options_of(attribute_views(attrs@), "sqlm"@),
            default_of(ov.take(i as int)) == Ok::<Option<Seq<char>>, DeriveErrorView>(
                optional_view(default),
            ),
        decreases options@.len() - i,
    {
        proof {
            assert(ov.take(i + 1).drop_last() =~= ov.take(i as int));
            assert(ov.take(i + 1).last() == options@[i as int]@);
        }
        if str_eq(options[i].key.as_str(), "default") {
            match &options[i].value {
                None => {
                    proof {
                        lemma_default_error(ov, i + 1);
                    }
                    return Err(DeriveError::DefaultWithoutValue);
                },
                Some(value) => {
                    default = Some(value.clone());
                },
            }
        } else {
            proof {
                lemma_default_error(ov, i + 1);
            }
            return Err(DeriveError::UnknownOption(options[i].key.clone()));
        }
        i += 1;
    }
    proof {
        assert(ov.take(options@.len() as int) =~= ov);
    }
    Ok(FieldOptions { default })
}

/// A segment of a type's path: its name, and the first of its arguments
/// in angle brackets where that is a type.
#[derive(Debug, PartialEq, Eq)]
pub struct PathSegment {
    pub ident: String,
    pub first_type_argument: Option<String>,
}

/// What a [`PathSegment`] stands for in contracts.
pub struct PathSegmentView {
    pub ident: Seq<char>,
    pub first_type_argument: Option<Seq<char>>,
}

impl View for PathSegment {
    type V = PathSegmentView;

    open spec fn view(&self) -> PathSegmentView {
        PathSegmentView {
            ident: self.ident@,
            first_type_argument: optional_view(self.first_type_argument),
        }
    }
}

/// The type of a field as it is written: its text, and the segments of
/// its path where it is a path.
#[derive(Debug, PartialEq, Eq)]
pub struct FieldType {
    pub text: String,
    pub path: Option<Vec<PathSegment>>,
}

/// What a [`FieldType`] stands for in contracts.
pub struct FieldTypeView {
    pub text: Seq<char>,
    pub path: Option<Seq<PathSegmentView>>,
}

impl View for FieldType {
    type V = FieldTypeView;

    open spec fn view(&self) -> FieldTypeView {
        FieldTypeView {
            text: self.text@,
            path: match self.path {
                Some(segments) => Some(segments@.map_values(|s: PathSegment| s@)),
                None => None,
            },
        }
    }
}

/// Whether a field's type is an `Option` or anything else.
#[derive(Debug, Clone, Copy, PartialEq, Eq, Structural)]
pub enum Kind {
    Option,
    Other,
}

/// The type inside an `Option`: the first type argument of a path of the
/// one segment `Option`.
pub open spec fn inner_of_option(ty: FieldTypeView) -> Option<Seq<char>> {
    match ty.path {
        Some(segments) => if segments.len() == 1 && segments[0].ident == "Option"@ {
            segments[0].first_type_argument
        } else {
            None
        },
        None => None,
    }
}

/// The type that a field holds a value of, and whether the field is an
/// `Option` of it.
pub fn extract_inner_type(ty: &FieldType) -> (r: (String, Kind))
    ensures
        match inner_of_option(ty@) {
            Some(inner) => r.0@ == inner && r.1 == Kind::Option,
            None => r.0@ == ty@.text && r.1 == Kind::Other,
        },
{
    if let Some(segments) = &ty.path {
        if segments.len() == 1 {
            assert(ty@.path->Some_0[0] == segments@[0]@);
            if str_eq(segments[0].ident.as_str(), "Option") {
                if let Some(inner) = &segments[0].first_type_argument {
                    return (inner.clone(), Kind::Option);
                }
            }
        }
    }
    (ty.text.clone(), Kind::Other)
}

/// A variant of an `enum`, as it is declared.
#[derive(Debug, PartialEq, Eq)]
pub struct VariantDecl {
    pub ident: String,
    pub attrs: Vec<Attribute>,
}

/// What a [`VariantDecl`] stands for in contracts.
pub struct VariantDeclView {
    pub ident: Seq<char>,
    pub attrs: Seq<AttributeView>,
}

impl View for VariantDecl {
    type V = VariantDeclView;

    open spec fn view(&self) -> VariantDeclView {
        VariantDeclView { ident: self.ident@, attrs: attribute_views(self.attrs@) }
    }
}

/// A named field of a `struct`, as it is declared, with the host type of
/// the value that it holds.
#[derive(Debug, PartialEq, Eq)]
pub struct FieldDecl {
    pub ident: String,
    pub ty: FieldType,
    pub sql: SqlType,
    pub attrs: Vec<Attribute>,
}

/// What a [`FieldDecl`] stands for in contracts.
pub struct FieldDeclView {
    pub ident: Seq<char>,
    pub ty: FieldTypeView,
    pub sql: SqlTypeView,
    pub attrs: Seq<AttributeView>,
}

impl View for FieldDecl {
    type V = FieldDeclView;

    open spec fn view(&self) -> FieldDeclView {
        FieldDeclView {
            ident: self.ident@,
            ty: self.ty@,
            sql: self.sql@,
            attrs: attribute_views(self.attrs@),
        }
    }
}

/// What a declaration declares.
#[derive(Debug, PartialEq, Eq)]
pub enum Data {
    /// An `enum` with its variants.
    Enum(Vec<VariantDecl>),
    /// A `struct` with named fields.
    NamedStruct(Vec<FieldDecl>),
    /// Anything else.
    Other,
}

/// What a [`Data`] stands for in contracts.
pub enum DataView {
    Enum(Seq<VariantDeclView>),
    NamedStruct(Seq<FieldDeclView>),
    Other,
}

impl View for Data {
    type V = DataView;

    open spec fn view(&self) -> DataView {
        match self {
            Data::Enum(variants) => DataView::Enum(variants@.map_values(|v: VariantDecl| v@)),
            Data::NamedStruct(fields) => DataView::NamedStruct(
                fields@.map_values(|f: FieldDecl| f@),
            ),
            Data::Other => DataView::Other,
        }
    }
}

/// The declaration of a type that a description is derived from.
#[derive(Debug, PartialEq, Eq)]
pub struct DeriveInput {
    pub ident: String,
    pub attrs: Vec<Attribute>,
    pub data: Data,
}

/// What a [`DeriveInput`] stands for in contracts.
pub struct DeriveInputView {
    pub ident: Seq<char>,
    pub attrs: Seq<AttributeView>,
    pub data: DataView,
}

impl View for DeriveInput {
    type V = DeriveInputView;

    open spec fn view(&self) -> DeriveInputView {
        DeriveInputView {
            ident: self.ident@,
            attrs: attribute_views(self.attrs@),
            data: self.data@,
        }
    }
}

/// The name of a variant in the database: the name that its own
/// attributes give it, else what the rule of the type makes of its
/// identifier, else the identifier.
pub open spec fn variant_name(variant: VariantDeclView, rule: Option<RenameAll>) -> Result<
    Seq<char>,
    DeriveErrorView,
> {
    match rename_of(options_of(variant.attrs, "postgres"@)) {
        Ok(Some(name)) => Ok(name),
        Ok(None) => match rule {
            Some(rule) => Ok(renamed(rule, variant.ident)),
            None => Ok(variant.ident),
        },
        Err(e) => Err(e),
    }
}

/// The names of the variants in their order, or the error of the first
/// variant at fault.
pub open spec fn variant_names_of(variants: Seq<VariantDeclView>, rule: Option<RenameAll>) -> Result<
    Seq<Seq<char>>,
    DeriveErrorView,
>
    decreases variants.len(),
{
    if variants.len() == 0 {
        Ok(Seq::empty())
    } else {
        match variant_names_of(variants.drop_last(), rule) {
            Ok(names) => match variant_name(variants.last(), rule) {
                Ok(name) => Ok(names.push(name)),
                Err(e) => Err(e),
            },
            Err(e) => Err(e),
        }
    }
}

/// An error among the first variants stays the outcome.
pub proof fn lemma_variant_error(variants: Seq<VariantDeclView>, rule: Option<RenameAll>, j: int)
    requires
        0 <= j <= variants.len(),
        variant_names_of(variants.take(j), rule) is Err,
    ensures
        variant_names_of(variants, rule) == variant_names_of(variants.take(j), rule),
    decreases variants.len() - j,
{
    if j < variants.len() {
        assert(variants.take(j + 1).drop_last() =~= variants.take(j));
        lemma_variant_error(variants, rule, j + 1);
    } else {
        assert(variants.take(j) =~= variants);
    }
}

/// The enumeration that a declaration stands for: the set of the names
/// of its variants in the database. The declaration must be an `enum`;
/// then the attributes of the type are read, then the variants in their
/// order.
pub open spec fn enum_outcome(input: DeriveInputView) -> Result<Seq<Seq<char>>, DeriveErrorView> {
    match input.data {
        DataView::Enum(variants) => match rule_of(options_of(input.attrs, "postgres"@)) {
            Ok(rule) => match variant_names_of(variants, rule) {
                Ok(names) => Ok(sorted_set(names)),
                Err(e) => Err(e),
            },
            Err(e) => Err(e),
        },
        _ => Err(DeriveErrorView::NotAnEnum),
    }
}

/// The enumeration that the declaration of an `enum` stands for.
pub fn expand_derive_enum(input: &DeriveInput) -> (r: Result<Enum, DeriveError>)
    ensures
        match r {
            Ok(e) => enum_outcome(input@) == Ok::<Seq<Seq<char>>, DeriveErrorView>(e@) && e.wf(),
            Err(e) => enum_outcome(input@) == Err::<Seq<Seq<char>>, DeriveErrorView>(e@),
        },
{
    let variants = match &input.data {
        Data::Enum(variants) => variants,
        _ => {
            return Err(DeriveError::NotAnEnum);
        },
    };
    let options = match extract_options(&input.attrs) {
        Ok(options) => options,
        Err(e) => {
            return Err(e);
        },
    };
    let rule = options.rename_all;
    let ghost vv = variants@.map_values(|v: VariantDecl| v@);
    let mut names: Vec<String> = Vec::new();
    let mut i: usize = 0;
    proof {
        assert(vv.take(0) =~= Seq::<VariantDeclView>::empty());
        assert(string_views(names@) =~= Seq::<Seq<char>>::empty());
    }
    while i < variants.len()
        invariant
            i <= variants@.len(),
            vv == variants@.map_values(|v: VariantDecl| v@),
            input@.data == DataView::Enum(vv),
            rule_of(options_of(input@.attrs, "postgres"@)) == Ok::<
                Option<RenameAll>,
                DeriveErrorView,
            >(rule),
            variant_names_of(vv.take(i as int), rule) == Ok::<Seq<Seq<char>>, DeriveErrorView>(
                string_views(names@),
            ),
        decreases variants@.len() - i,
    {
        let ghost before = string_views(names@);
        proof {
            assert(vv.take(i + 1).drop_last() =~= vv.take(i as int));
            assert(vv.take(i + 1).last() == variants@[i as int]@);
        }
        let variant = &variants[i];
        let name = match extract_variant_options(&variant.attrs) {
            Ok(options) => match options.rename {
                Some(rename) => rename,
                None => match rule {
                    Some(rule) => rule.apply(variant.ident.as_str()),
                    None => variant.ident.clone(),
                },
            },
            Err(e) => {
                proof {
                    lemma_variant_error(vv, rule, i + 1);
                }
                return Err(e);
            },
        };
        assert(variant_name(variants@[i as int]@, rule) == Ok::<Seq<char>, DeriveErrorView>(name@));
        names.push(name);
        assert(string_views(names@) =~= before.push(name@));
        i += 1;
    }
    proof {
        assert(vv.take(variants@.len() as int) =~= vv);
    }
    Ok(Enum::new(&names))
}

/// The first field from `i` on that has the name.
pub open spec fn declared(fields: Seq<FieldDeclView>, name: Seq<char>, i: int) -> Option<int>
    decreases fields.len() - i,
{
    if 0 <= i < fields.len() {
        if fields[i].ident == name {
            Some(i)
        } else {
            declared(fields, name, i + 1)
        }
    } else {
        None
    }
}

/// The field of a record that a declared field gives: it goes by the
/// declared name and holds the declared host type; it is optional where
/// its type is an `Option`, and has a default where its attributes give
/// one.
pub open spec fn field_of(field: FieldDeclView) -> Result<FieldView, DeriveErrorView> {
    match default_of(options_of(field.attrs, "sqlm"@)) {
        Ok(default) => Ok(
            FieldView {
                name: field.ident,
                ty: field.sql,
                optional: inner_of_option(field.ty) is Some,
                has_default: default is Some,
            },
        ),
        Err(e) => Err(e),
    }
}

/// The fields of the record for the given names in their order, each from
/// the first declared field of its name; or the error of the first name
/// whose field is at fault.
pub open spec fn fields_of(fields: Seq<FieldDeclView>, names: Seq<Seq<char>>) -> Result<
    Seq<FieldView>,
    DeriveErrorView,
>
    decreases names.len(),
{
    if names.len() == 0 {
        Ok(Seq::empty())
    } else {
        match fields_of(fields, names.drop_last()) {
            Ok(before) => match declared(fields, names.last(), 0) {
                Some(k) => match field_of(fields[k]) {
                    Ok(field) => Ok(before.push(field)),
                    Err(e) => Err(e),
                },
                None => Ok(before),
            },
            Err(e) => Err(e),
        }
    }
}

/// An error among the first names stays the outcome.
pub proof fn lemma_fields_error(fields: Seq<FieldDeclView>, names: Seq<Seq<char>>, j: int)
    requires
        0 <= j <= names.len(),
        fields_of(fields, names.take(j)) is Err,
    ensures
        fields_of(fields, names) == fields_of(fields, names.take(j)),
    decreases names.len() - j,
{
    if j < names.len() {
        assert(names.take(j + 1).drop_last() =~= names.take(j));
        lemma_fields_error(fields, names, j + 1);
    } else {
        assert(names.take(j) =~= names);
    }
}

/// The names of the declared fields in their order.
pub open spec fn field_idents(fields: Seq<FieldDeclView>) -> Seq<Seq<char>> {
    fields.map_values(|f: FieldDeclView| f.ident)
}

/// The record that a declaration is read from: its fields in the rising
/// order of their names, and no column beyond them. The declaration must
/// be a `struct` with named fields.
pub open spec fn record_outcome(input: DeriveInputView) -> Result<RecordTypeView, DeriveErrorView> {
    match input.data {
        DataView::NamedStruct(fields) => match fields_of(
            fields,
            sorted_set(field_idents(fields)),
        ) {
            Ok(fields) => Ok(RecordTypeView { fields, any_columns: false }),
            Err(e) => Err(e),
        },
        _ => Err(DeriveErrorView::NotANamedStruct),
    }
}

fn find_declared(fields: &Vec<FieldDecl>, name: &str) -> (r: Option<usize>)
    ensures
        match r {
            Some(k) => declared(fields@.map_values(|f: FieldDecl| f@), name@, 0) == Some(k as int)
                && k < fields@.len(),
            None => declared(fields@.map_values(|f: FieldDecl| f@), name@, 0) is None,
        },
{
    let ghost fv = fields@.map_values(|f: FieldDecl| f@);
    let mut i: usize = 0;
    while i < fields.len()
        invariant
            fv == fields@.map_values(|f: FieldDecl| f@),
            declared(fv, name@, 0) == declared(fv, name@, i as int),
        decreases fields@.len() - i,
    {
        assert(fv[i as int] == fields@[i as int]@);
        if str_eq(fields[i].ident.as_str(), name) {
            return Some(i);
        }
        i += 1;
    }
    None
}

/// The record that the declaration of a `struct` with named fields is
/// read from.
pub fn expand_derive_from_row(input: &DeriveInput) -> (r: Result<RecordType, DeriveError>)
    ensures
        match r {
            Ok(record) => record_outcome(input@) == Ok::<RecordTypeView, DeriveErrorView>(record@),
            Err(e) => record_outcome(input@) == Err::<RecordTypeView, DeriveErrorView>(e@),
        },
{
    let declared_fields = match &input.data {
        Data::NamedStruct(fields) => fields,
        _ => {
            return Err(DeriveError::NotANamedStruct);
        },
    };
    let ghost fv = declared_fields@.map_values(|f: FieldDecl| f@);
    let mut idents: Vec<String> = Vec::new();
    let mut i: usize = 0;
    while i < declared_fields.len()
        invariant
            i <= declared_fields@.len(),
            fv == declared_fields@.map_values(|f: FieldDecl| f@),
            string_views(idents@) =~= field_idents(fv).take(i as int),
        decreases declared_fields@.len() - i,
    {
        let ghost before = string_views(idents@);
        idents.push(declared_fields[i].ident.clone());
        proof {
            let all = field_idents(fv);
            assert(all[i as int] == declared_fields@[i as int]@.ident);
            assert(string_views(idents@) =~= before.push(all[i as int]));
            assert(all.take(i + 1) =~= all.take(i as int).push(all[i as int]));
        }
        i += 1;
    }
    proof {
        assert(field_idents(fv).take(declared_fields@.len() as int) =~= field_idents(fv));
    }
    let names = sorted_names(&idents);
    let ghost nv = string_views(names@);
    let mut fields: Vec<Field> = Vec::new();
    let mut j: usize = 0;
    proof {
        assert(nv.take(0) =~= Seq::<Seq<char>>::empty());
        assert(fields@.map_values(|f: Field| f@) =~= Seq::<FieldView>::empty());
    }
    while j < names.len()
        invariant
            j <= names@.len(),
            nv == string_views(names@),
            fv == declared_fields@.map_values(|f: FieldDecl| f@),
            input@.data == DataView::NamedStruct(fv),
            nv == sorted_set(field_idents(fv)),
            fields_of(fv, nv.take(j as int)) == Ok::<Seq<FieldView>, DeriveErrorView>(
                fields@.map_values(|f: Field| f@),
            ),
        decreases names@.len() - j,
    {
        let ghost before = fields@.map_values(|f: Field| f@);
        proof {
            assert(nv.take(j + 1).drop_last() =~= nv.take(j as int));
            assert(nv.take(j + 1).last() == names@[j as int]@);
        }
        match find_declared(declared_fields, names[j].as_str()) {
            Some(k) => {
                let decl = &declared_fields[k];
                assert(fv[k as int] == decl@);
                let options = match extract_field_options(&decl.attrs) {
                    Ok(options) => options,
                    Err(e) => {
                        proof {
                            lemma_fields_error(fv, nv, j + 1);
                        }
                        return Err(e);
                    },
                };
                let (_, kind) = extract_inner_type(&decl.ty);
                let field = Field {
                    name: decl.ident.clone(),
                    ty: decl.sql.duplicate(),
                    optional: match kind {
                        Kind::Option => true,
                        Kind::Other => false,
                    },
                    has_default: options.default.is_some(),
                };
                assert(field_of(fv[k as int]) == Ok::<FieldView, DeriveErrorView>(field@));
                fields.push(field);
                assert(fields@.map_values(|f: Field| f@) =~= before.push(field@));
            },
            None => {},
        }
        j += 1;
    }
    proof {
        assert(nv.take(names@.len() as int) =~= nv);
    }
    let record = RecordType { fields, any_columns: false };
    assert(record@.fields == fields_of(fv, nv)->Ok_0);
    Ok(record)
}

} // verus!
