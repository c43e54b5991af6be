use sqlm::derive::{
    expand_derive_enum, expand_derive_from_row, extract_field_options, extract_inner_type,
    extract_options, extract_variant_options, Attribute, Data, DeriveError, DeriveInput,
    FieldDecl, FieldOptions, FieldType, Kind, OptionExpr, Options, PathSegment, VariantDecl,
    VariantOptions,
};
use sqlm::rename::RenameAll;
use sqlm::shape::{Field, RecordType};
use sqlm::types::{Scalar, SqlType};

fn option(key: &str, value: Option<&str>) -> OptionExpr {
    OptionExpr {
        key: key.to_string(),
        value: value.map(|v| v.to_string()),
    }
}

fn attr(path: &str, options: Vec<OptionExpr>) -> Attribute {
    Attribute {
        path: path.to_string(),
        options,
    }
}

fn variant(ident: &str, attrs: Vec<Attribute>) -> VariantDecl {
    VariantDecl {
        ident: ident.to_string(),
        attrs,
    }
}

fn an_enum(attrs: Vec<Attribute>, variants: Vec<VariantDecl>) -> DeriveInput {
    DeriveInput {
        ident: "Role".to_string(),
        attrs,
        data: Data::Enum(variants),
    }
}

fn names(input: &DeriveInput) -> Vec<String> {
    expand_derive_enum(input)
        .unwrap()
        .variants
        .into_iter()
        .map(|v| v.name)
        .collect()
}

fn plain(text: &str) -> FieldType {
    FieldType {
        text: text.to_string(),
        path: Some(vec![PathSegment {
            ident: text.to_string(),
            first_type_argument: None,
        }]),
    }
}

fn optional(inner: &str) -> FieldType {
    FieldType {
        text: format!("Option<{inner}>"),
        path: Some(vec![PathSegment {
            ident: "Option".to_string(),
            first_type_argument: Some(inner.to_string()),
        }]),
    }
}

fn decl(ident: &str, ty: FieldType, sql: Scalar, attrs: Vec<Attribute>) -> FieldDecl {
    FieldDecl {
        ident: ident.to_string(),
        ty,
        sql: SqlType::Scalar(sql),
        attrs,
    }
}

fn a_struct(fields: Vec<FieldDecl>) -> DeriveInput {
    DeriveInput {
        ident: "User".to_string(),
        attrs: Vec::new(),
        data: Data::NamedStruct(fields),
    }
}

fn field(name: &str, sql: Scalar, optional: bool, has_default: bool) -> Field {
    Field {
        name: name.to_string(),
        ty: SqlType::Scalar(sql),
        optional,
        has_default,
    }
}

#[test]
fn an_enum_gives_the_set_of_its_variants() {
    let input = an_enum(
        vec![attr("postgres", vec![option("name", Some("role"))])],
        vec![
            variant("User", vec![attr("postgres", vec![option("name", Some("user"))])]),
            variant("Admin", vec![attr("postgres", vec![option("name", Some("admin"))])]),
        ],
    );
    assert_eq!(names(&input), vec!["admin", "user"]);
    let bare = an_enum(
        Vec::new(),
        vec![variant("User", Vec::new()), variant("Admin", Vec::new())],
    );
    assert_eq!(names(&bare), vec!["Admin", "User"]);
}

#[test]
fn a_rule_renames_the_variants_without_a_name_of_their_own() {
    let input = an_enum(
        vec![attr("postgres", vec![option("rename_all", Some("snake_case"))])],
        vec![
            variant("SuperUser", Vec::new()),
            variant("Admin", vec![attr("postgres", vec![option("name", Some("Root"))])]),
            variant("ReadOnly", vec![attr("serde", vec![option("name", Some("ro"))])]),
        ],
    );
    assert_eq!(names(&input), vec!["Root", "read_only", "super_user"]);
}

#[test]
fn only_enums_give_an_enumeration() {
    assert_eq!(expand_derive_enum(&a_struct(Vec::new())), Err(DeriveError::NotAnEnum));
    let other = DeriveInput {
        ident: "U".to_string(),
        attrs: Vec::new(),
        data: Data::Other,
    };
    assert_eq!(expand_derive_enum(&other), Err(DeriveError::NotAnEnum));
    assert_eq!(
        DeriveError::NotAnEnum.message(),
        "Enum can only be derived from enums"
    );
    let not_reached = DeriveInput {
        ident: "U".to_string(),
        attrs: vec![attr("postgres", vec![option("rename_all", None)])],
        data: Data::Other,
    };
    assert_eq!(expand_derive_enum(&not_reached), Err(DeriveError::NotAnEnum));
}

#[test]
fn the_options_of_a_type_are_read_in_their_order() {
    assert_eq!(extract_options(&Vec::new()), Ok(Options { rename_all: None }));
    assert_eq!(
        extract_options(&vec![
            attr("postgres", vec![option("rename_all", Some("UPPERCASE")), option("x", None)]),
            attr("other", vec![option("rename_all", Some("nonsense"))]),
            attr("postgres", vec![option("rename_all", Some("kebab-case"))]),
        ]),
        Ok(Options {
            rename_all: Some(RenameAll::KebabCase)
        })
    );
    assert_eq!(
        extract_options(&vec![attr("postgres", vec![option("rename_all", None)])]),
        Err(DeriveError::RenameAllWithoutValue)
    );
    assert_eq!(
        extract_options(&vec![attr(
            "postgres",
            vec![
                option("rename_all", Some("snake_case")),
                option("rename_all", Some("snakecase")),
                option("rename_all", None)
            ]
        )]),
        Err(DeriveError::InvalidRenameAll)
    );
    assert_eq!(
        DeriveError::RenameAllWithoutValue.message(),
        "rename_all must have a value"
    );
    assert_eq!(DeriveError::InvalidRenameAll.message(), "invalid rename_all rule");
}

#[test]
fn the_options_of_a_variant_are_read_in_their_order() {
    assert_eq!(
        extract_variant_options(&vec![
            attr("postgres", vec![option("name", Some("a")), option("name", Some("b"))]),
            attr("sqlm", vec![option("name", Some("c"))]),
        ]),
        Ok(VariantOptions {
            rename: Some("b".to_string())
        })
    );
    assert_eq!(
        extract_variant_options(&vec![attr("postgres", vec![option("rename_all", None)])]),
        Ok(VariantOptions { rename: None })
    );
    assert_eq!(
        extract_variant_options(&vec![attr("postgres", vec![option("name", None)])]),
        Err(DeriveError::RenameWithoutValue)
    );
    assert_eq!(DeriveError::RenameWithoutValue.message(), "rename must have a value");
    let input = an_enum(
        Vec::new(),
        vec![
            variant("A", Vec::new()),
            variant("B", vec![attr("postgres", vec![option("name", None)])]),
        ],
    );
    assert_eq!(expand_derive_enum(&input), Err(DeriveError::RenameWithoutValue));
}

#[test]
fn the_options_of_a_field_are_read_in_their_order() {
    assert_eq!(
        extract_field_options(&vec![
            attr("cfg", vec![option("test", None)]),
            attr("sqlm", vec![option("default", Some("1")), option("default", Some("2"))]),
        ]),
        Ok(FieldOptions {
            default: Some("2".to_string())
        })
    );
    assert_eq!(
        extract_field_options(&vec![attr("sqlm", vec![option("rename", Some("x"))])]),
        Err(DeriveError::UnknownOption("rename".to_string()))
    );
    assert_eq!(
        extract_field_options(&vec![attr("sqlm", vec![option("default", None)])]),
        Err(DeriveError::DefaultWithoutValue)
    );
    assert_eq!(
        DeriveError::UnknownOption("rename".to_string()).message(),
        "unknown option"
    );
    assert_eq!(
        DeriveError::DefaultWithoutValue.message(),
        "default must have a value"
    );
}

#[test]
fn an_option_holds_its_first_type_argument() {
    assert_eq!(
        extract_inner_type(&optional("String")),
        ("String".to_string(), Kind::Option)
    );
    assert_eq!(extract_inner_type(&plain("i64")), ("i64".to_string(), Kind::Other));
    let qualified = FieldType {
        text: "std::option::Option<i64>".to_string(),
        path: Some(vec![
            PathSegment {
                ident: "std".to_string(),
                first_type_argument: None,
            },
            PathSegment {
                ident: "option".to_string(),
                first_type_argument: None,
            },
            PathSegment {
                ident: "Option".to_string(),
                first_type_argument: Some("i64".to_string()),
            },
        ]),
    };
    assert_eq!(
        extract_inner_type(&qualified),
        ("std::option::Option<i64>".to_string(), Kind::Other)
    );
    let bare = FieldType {
        text: "Option".to_string(),
        path: Some(vec![PathSegment {
            ident: "Option".to_string(),
            first_type_argument: None,
        }]),
    };
    assert_eq!(extract_inner_type(&bare), ("Option".to_string(), Kind::Other));
    let reference = FieldType {
        text: "&'a str".to_string(),
        path: None,
    };
    assert_eq!(
        extract_inner_type(&reference),
        ("&'a str".to_string(), Kind::Other)
    );
    let list = FieldType {
        text: "Vec<i64>".to_string(),
        path: Some(vec![PathSegment {
            ident: "Vec".to_string(),
            first_type_argument: Some("i64".to_string()),
        }]),
    };
    assert_eq!(extract_inner_type(&list), ("Vec<i64>".to_string(), Kind::Other));
}

#[test]
fn a_struct_gives_its_fields_in_the_order_of_their_names() {
    let input = a_struct(vec![
        decl("name", optional("String"), Scalar::Text, Vec::new()),
        decl("id", plain("i64"), Scalar::Int8, Vec::new()),
        decl(
            "created_at",
            plain("time::OffsetDateTime"),
            Scalar::TimestampTz,
            vec![attr(
                "sqlm",
                vec![option("default", Some("time::OffsetDateTime::UNIX_EPOCH"))],
            )],
        ),
    ]);
    assert_eq!(
        expand_derive_from_row(&input),
        Ok(RecordType {
            fields: vec![
                field("created_at", Scalar::TimestampTz, false, true),
                field("id", Scalar::Int8, false, false),
                field("name", Scalar::Text, true, false),
            ],
            any_columns: false,
        })
    );
    assert_eq!(
        expand_derive_from_row(&a_struct(Vec::new())),
        Ok(RecordType {
            fields: Vec::new(),
            any_columns: false
        })
    );
}

#[test]
fn only_structs_with_named_fields_give_a_record() {
    assert_eq!(
        expand_derive_from_row(&an_enum(Vec::new(), Vec::new())),
        Err(DeriveError::NotANamedStruct)
    );
    assert_eq!(
        DeriveError::NotANamedStruct.message(),
        "FromRow can only be derived from named structs"
    );
}

#[test]
fn the_first_field_at_fault_by_name_is_the_error() {
    let input = a_struct(vec![
        decl(
            "z",
            plain("i64"),
            Scalar::Int8,
            vec![attr("sqlm", vec![option("zz", Some("1"))])],
        ),
        decl(
            "a",
            plain("i64"),
            Scalar::Int8,
            vec![attr("sqlm", vec![option("aa", Some("1"))])],
        ),
    ]);
    assert_eq!(
        expand_derive_from_row(&input),
        Err(DeriveError::UnknownOption("aa".to_string()))
    );
}
