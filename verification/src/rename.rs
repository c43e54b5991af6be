//! The case rules by which the names of a type's variants are rewritten
//! before they are held against the names in the database.

use std::str::FromStr;

use vstd::prelude::*;

use crate::text::str_eq;

verus! {

/// A rule that rewrites every name of a type.
#[derive(Debug, Clone, Copy, PartialEq, Eq, Structural)]
#[allow(clippy::enum_variant_names)]
pub enum RenameAll {
    CamelCase,
    KebabCase,
    LowerCase,
    PascalCase,
    ScreamingKebabCase,
    ScreamingSnakeCase,
    SnakeCase,
    TrainCase,
    UpperCase,
}

/// A rule's name that is none of the nine.
#[derive(Debug, PartialEq, Eq)]
pub struct InvalidCase(());

impl InvalidCase {
    /// The message of this error.
    pub fn message(&self) -> (r: &'static str)
        ensures
            r@ == "invalid case conversion"@,
    {
        "invalid case conversion"
    }
}

/// What `heck::ToLowerCamelCase::to_lower_camel_case` makes of a string.
pub uninterp spec fn lower_camel_case(name: Seq<char>) -> Seq<char>;

/// What `heck::ToKebabCase::to_kebab_case` makes of a string.
pub uninterp spec fn kebab_case(name: Seq<char>) -> Seq<char>;

/// What `str::to_lowercase` makes of a string.
pub uninterp spec fn lowercase(name: Seq<char>) -> Seq<char>;

/// What `heck::ToUpperCamelCase::to_upper_camel_case` makes of a string.
pub uninterp spec fn upper_camel_case(name: Seq<char>) -> Seq<char>;

/// What `heck::ToShoutyKebabCase::to_shouty_kebab_case` makes of a string.
pub uninterp spec fn shouty_kebab_case(name: Seq<char>) -> Seq<char>;

/// What `heck::ToShoutySnakeCase::to_shouty_snake_case` makes of a string.
pub uninterp spec fn shouty_snake_case(name: Seq<char>) -> Seq<char>;

/// What `heck::ToSnakeCase::to_snake_case` makes of a string.
pub uninterp spec fn snake_case(name: Seq<char>) -> Seq<char>;

/// What `heck::ToTrainCase::to_train_case` makes of a string.
pub uninterp spec fn train_case(name: Seq<char>) -> Seq<char>;

/// What `str::to_uppercase` makes of a string.
pub uninterp spec fn uppercase(name: Seq<char>) -> Seq<char>;

/// Calls `heck::ToLowerCamelCase::to_lower_camel_case`, which writes the
/// words of a string as `lowerCamelCase`. The contract only names the
/// result.
#[verifier::external_body]
fn to_lower_camel_case(name: &str) -> (r: String)
    ensures
        r@ == lower_camel_case(name@),
{
    heck::ToLowerCamelCase::to_lower_camel_case(name)
}

/// Calls `heck::ToKebabCase::to_kebab_case`, which writes the words of a
/// string as `kebab-case`. The contract only names the result.
#[verifier::external_body]
fn to_kebab_case(name: &str) -> (r: String)
    ensures
        r@ == kebab_case(name@),
{
    heck::ToKebabCase::to_kebab_case(name)
}

/// Calls `str::to_lowercase`, which gives the lowercase of a string. The
/// contract only names the result.
#[verifier::external_body]
fn to_lowercase(name: &str) -> (r: String)
    ensures
        r@ == lowercase(name@),
{
    name.to_lowercase()
}

/// Calls `heck::ToUpperCamelCase::to_upper_camel_case`, which writes the
/// words of a string as `UpperCamelCase`. The contract only names the
/// result.
#[verifier::external_body]
fn to_upper_camel_case(name: &str) -> (r: String)
    ensures
        r@ == upper_camel_case(name@),
{
    heck::ToUpperCamelCase::to_upper_camel_case(name)
}

/// Calls `heck::ToShoutyKebabCase::to_shouty_kebab_case`, which writes the
/// words of a string as `SHOUTY-KEBAB-CASE`. The contract only names the
/// result.
#[verifier::external_body]
fn to_shouty_kebab_case(name: &str) -> (r: String)
    ensures
        r@ == shouty_kebab_case(name@),
{
    heck::ToShoutyKebabCase::to_shouty_kebab_case(name)
}

/// Calls `heck::ToShoutySnakeCase::to_shouty_snake_case`, which writes the
/// words of a string as `SHOUTY_SNAKE_CASE`. The contract only names the
/// result.
#[verifier::external_body]
fn to_shouty_snake_case(name: &str) -> (r: String)
    ensures
        r@ == shouty_snake_case(name@),
{
    heck::ToShoutySnakeCase::to_shouty_snake_case(name)
}

/// Calls `heck::ToSnakeCase::to_snake_case`, which writes the words of a
/// string as `snake_case`. The contract only names the result.
#[verifier::external_body]
fn to_snake_case(name: &str) -> (r: String)
    ensures
        r@ == snake_case(name@),
{
    heck::ToSnakeCase::to_snake_case(name)
}

/// Calls `heck::ToTrainCase::to_train_case`, which writes the words of a
/// string as `Train-Case`. The contract only names the result.
#[verifier::external_body]
fn to_train_case(name: &str) -> (r: String)
    ensures
        r@ == train_case(name@),
{
    heck::ToTrainCase::to_train_case(name)
}

/// Calls `str::to_uppercase`, which gives the uppercase of a string. The
/// contract only names the result.
#[verifier::external_body]
fn to_uppercase(name: &str) -> (r: String)
    ensures
        r@ == uppercase(name@),
{
    name.to_uppercase()
}

/// What a rule makes of a name.
pub open spec fn renamed(rule: RenameAll, name: Seq<char>) -> Seq<char> {
    match rule {
        RenameAll::CamelCase => lower_camel_case(name),
        RenameAll::KebabCase => kebab_case(name),
        RenameAll::LowerCase => lowercase(name),
        RenameAll::PascalCase => upper_camel_case(name),
        RenameAll::ScreamingKebabCase => shouty_kebab_case(name),
        RenameAll::ScreamingSnakeCase => shouty_snake_case(name),
        RenameAll::SnakeCase => snake_case(name),
        RenameAll::TrainCase => train_case(name),
        RenameAll::UpperCase => uppercase(name),
    }
}

/// The rule that a name stands for, if any: each rule is written in its
/// own case.
pub open spec fn rule_named(s: Seq<char>) -> Option<RenameAll> {
    if s == "camelCase"@ {
        Some(RenameAll::CamelCase)
    } else if s == "kebab-case"@ {
        Some(RenameAll::KebabCase)
    } else if s == "lowercase"@ {
        Some(RenameAll::LowerCase)
    } else if s == "PascalCase"@ {
        Some(RenameAll::PascalCase)
    } else if s == "SCREAMING-KEBAB-CASE"@ {
        Some(RenameAll::ScreamingKebabCase)
    } else if s == "SCREAMING_SNAKE_CASE"@ {
        Some(RenameAll::ScreamingSnakeCase)
    } else if s == "snake_case"@ {
        Some(RenameAll::SnakeCase)
    } else if s == "Train-Case"@ {
        Some(RenameAll::TrainCase)
    } else if s == "UPPERCASE"@ {
        Some(RenameAll::UpperCase)
    } else {
        None
    }
}

impl RenameAll {
    /// Rewrites `name` by this rule.
    pub fn apply(&self, name: &str) -> (r: String)
        ensures
            r@ == renamed(*self, name@),
    {
        match self {
            RenameAll::CamelCase => to_lower_camel_case(name),
            RenameAll::KebabCase => to_kebab_case(name),
            RenameAll::LowerCase => to_lowercase(name),
            RenameAll::PascalCase => to_upper_camel_case(name),
            RenameAll::ScreamingKebabCase => to_shouty_kebab_case(name),
            RenameAll::ScreamingSnakeCase => to_shouty_snake_case(name),
            RenameAll::SnakeCase => to_snake_case(name),
            RenameAll::TrainCase => to_train_case(name),
            RenameAll::UpperCase => to_uppercase(name),
        }
    }

    /// The rule of the given name.
    pub fn from_name(s: &str) -> (r: Result<RenameAll, InvalidCase>)
        ensures
            match r {
                Ok(rule) => rule_named(s@) == Some(rule),
                Err(_) => rule_named(s@) is None,
            },
    {
        if str_eq(s, "camelCase") {
            Ok(RenameAll::CamelCase)
        } else if str_eq(s, "kebab-case") {
            Ok(RenameAll::KebabCase)
        } else if str_eq(s, "lowercase") {
            Ok(RenameAll::LowerCase)
        } else if str_eq(s, "PascalCase") {
            Ok(RenameAll::PascalCase)
        } else if str_eq(s, "SCREAMING-KEBAB-CASE") {
            Ok(RenameAll::ScreamingKebabCase)
        } else if str_eq(s, "SCREAMING_SNAKE_CASE") {
            Ok(RenameAll::ScreamingSnakeCase)
        } else if str_eq(s, "snake_case") {
            Ok(RenameAll::SnakeCase)
        } else if str_eq(s, "Train-Case") {
            Ok(RenameAll::TrainCase)
        } else if str_eq(s, "UPPERCASE") {
            Ok(RenameAll::UpperCase)
        } else {
            Err(InvalidCase(()))
        }
    }
}

impl FromStr for RenameAll {
    type Err = InvalidCase;

    /// The rule of the given name.
    fn from_str(s: &str) -> (r: Result<Self, Self::Err>)
        ensures
            match r {
                Ok(rule) => rule_named(s@) == Some(rule),
                Err(_) => rule_named(s@) is None,
            },
    {
        RenameAll::from_name(s)
    }
}

} // verus!
