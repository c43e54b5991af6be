use std::str::FromStr;

use sqlm::rename::{InvalidCase, RenameAll};

#[test]
fn every_rule_has_its_name() {
    let rules = [
        ("camelCase", RenameAll::CamelCase),
        ("kebab-case", RenameAll::KebabCase),
        ("lowercase", RenameAll::LowerCase),
        ("PascalCase", RenameAll::PascalCase),
        ("SCREAMING-KEBAB-CASE", RenameAll::ScreamingKebabCase),
        ("SCREAMING_SNAKE_CASE", RenameAll::ScreamingSnakeCase),
        ("snake_case", RenameAll::SnakeCase),
        ("Train-Case", RenameAll::TrainCase),
        ("UPPERCASE", RenameAll::UpperCase),
    ];
    for (name, rule) in rules {
        assert_eq!(RenameAll::from_str(name), Ok(rule));
        assert_eq!(RenameAll::from_name(name), Ok(rule));
    }
}

#[test]
fn other_names_are_no_rules() {
    for name in ["", "camelcase", "CamelCase", "snake-case", "UPPER_CASE", " lowercase"] {
        let e: InvalidCase = RenameAll::from_str(name).unwrap_err();
        assert_eq!(e.message(), "invalid case conversion");
    }
}

#[test]
fn each_rule_rewrites_a_name() {
    let name = "someVariant_name";
    assert_eq!(RenameAll::CamelCase.apply(name), "someVariantName");
    assert_eq!(RenameAll::KebabCase.apply(name), "some-variant-name");
    assert_eq!(RenameAll::LowerCase.apply(name), "somevariant_name");
    assert_eq!(RenameAll::PascalCase.apply(name), "SomeVariantName");
    assert_eq!(RenameAll::ScreamingKebabCase.apply(name), "SOME-VARIANT-NAME");
    assert_eq!(RenameAll::ScreamingSnakeCase.apply(name), "SOME_VARIANT_NAME");
    assert_eq!(RenameAll::SnakeCase.apply(name), "some_variant_name");
    assert_eq!(RenameAll::TrainCase.apply(name), "Some-Variant-Name");
    assert_eq!(RenameAll::UpperCase.apply(name), "SOMEVARIANT_NAME");
}

#[test]
fn rules_follow_the_words_of_a_name() {
    assert_eq!(RenameAll::SnakeCase.apply("XMLHttpRequest"), "xml_http_request");
    assert_eq!(RenameAll::PascalCase.apply("hello__world"), "HelloWorld");
    assert_eq!(RenameAll::KebabCase.apply(""), "");
}
