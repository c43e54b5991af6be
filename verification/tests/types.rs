use sqlm::names::{sorted_names, str_lt};
use sqlm::types::{
    enum_type, map_type, postgres_to_rust_type, BaseType, Bytea, Dialect, Enum, EnumVariant,
    Scalar, Shape, SqlType, TypeDescriptor, TypeError, Valid,
};
use tokio_postgres::types::{FromSql, Kind, Type};

const ALL: Dialect = Dialect {
    json: true,
    time: true,
    uuid: true,
    pgvector: true,
};

const BASIC: Dialect = Dialect {
    json: false,
    time: false,
    uuid: false,
    pgvector: false,
};

fn simple(oid: u32, name: &str) -> TypeDescriptor {
    TypeDescriptor::Base(BaseType {
        oid,
        name: name.to_string(),
        shape: Shape::Simple,
    })
}

fn array(oid: u32, name: &str) -> TypeDescriptor {
    TypeDescriptor::Array(BaseType {
        oid,
        name: name.to_string(),
        shape: Shape::Simple,
    })
}

fn role(variants: &[&str]) -> BaseType {
    BaseType {
        oid: 16400,
        name: "role".to_string(),
        shape: Shape::Enum(variants.iter().map(|v| v.to_string()).collect()),
    }
}

fn names(e: &Enum) -> Vec<&str> {
    e.variants.iter().map(|v| v.name.as_str()).collect()
}

#[test]
fn the_basic_types_have_their_host_types() {
    let table = [
        (25, "text", Scalar::Text),
        (1043, "varchar", Scalar::Text),
        (1042, "bpchar", Scalar::Text),
        (19, "name", Scalar::Text),
        (705, "unknown", Scalar::Text),
        (90000, "citext", Scalar::Text),
        (90001, "ltree", Scalar::Text),
        (90002, "lquery", Scalar::Text),
        (90003, "ltxtquery", Scalar::Text),
        (20, "int8", Scalar::Int8),
        (23, "int4", Scalar::Int4),
        (701, "float8", Scalar::Float8),
        (700, "float4", Scalar::Float4),
        (16, "bool", Scalar::Bool),
        (17, "bytea", Scalar::Bytea),
    ];
    for (oid, name, scalar) in table {
        for dialect in [BASIC, ALL] {
            assert_eq!(
                postgres_to_rust_type(&simple(oid, name), dialect),
                Some(SqlType::Scalar(scalar))
            );
            assert_eq!(
                postgres_to_rust_type(&array(oid, name), dialect),
                Some(SqlType::ScalarVec(scalar))
            );
        }
    }
}

#[test]
fn further_types_depend_on_the_dialect() {
    let table = [
        (114, "json", Scalar::Json),
        (3802, "jsonb", Scalar::Json),
        (1082, "date", Scalar::Date),
        (1184, "timestamptz", Scalar::TimestampTz),
        (2950, "uuid", Scalar::Uuid),
        (90004, "vector", Scalar::Vector),
    ];
    for (oid, name, scalar) in table {
        assert_eq!(
            postgres_to_rust_type(&simple(oid, name), ALL),
            Some(SqlType::Scalar(scalar))
        );
        assert_eq!(postgres_to_rust_type(&simple(oid, name), BASIC), None);
    }
    let only_json = Dialect { json: true, ..BASIC };
    assert_eq!(
        postgres_to_rust_type(&simple(114, "json"), only_json),
        Some(SqlType::Scalar(Scalar::Json))
    );
    assert_eq!(postgres_to_rust_type(&simple(2950, "uuid"), only_json), None);
}

#[test]
fn other_types_have_no_host_type() {
    assert_eq!(postgres_to_rust_type(&simple(21, "int2"), ALL), None);
    assert_eq!(postgres_to_rust_type(&simple(1114, "timestamp"), ALL), None);
    assert_eq!(postgres_to_rust_type(&TypeDescriptor::NestedArray, ALL), None);
    assert_eq!(
        map_type(&simple(21, "int2"), ALL),
        Err(TypeError::Unsupported("int2".to_string()))
    );
    assert_eq!(
        map_type(&array(1700, "numeric"), ALL),
        Err(TypeError::Unsupported("numeric".to_string()))
    );
    assert_eq!(
        map_type(&TypeDescriptor::NestedArray, ALL),
        Err(TypeError::NestedArray)
    );
    assert_eq!(
        TypeError::Unsupported("int2".to_string()).message(),
        "unsupported postgres type: int2"
    );
    assert_eq!(
        TypeError::NestedArray.message(),
        "unsupported postgres type: nested array"
    );
}

fn describe(ty: &Type) -> TypeDescriptor {
    fn base(ty: &Type) -> BaseType {
        BaseType {
            oid: ty.oid(),
            name: ty.name().to_string(),
            shape: match ty.kind() {
                Kind::Simple => Shape::Simple,
                Kind::Enum(variants) => Shape::Enum(variants.clone()),
                _ => Shape::Other,
            },
        }
    }
    match ty.kind() {
        Kind::Array(inner) => match inner.kind() {
            Kind::Array(_) => TypeDescriptor::NestedArray,
            _ => TypeDescriptor::Array(base(inner)),
        },
        _ => TypeDescriptor::Base(base(ty)),
    }
}

fn accepted(ty: &Type) -> Option<Scalar> {
    if <String as FromSql>::accepts(ty) {
        Some(Scalar::Text)
    } else if <i64 as FromSql>::accepts(ty) {
        Some(Scalar::Int8)
    } else if <i32 as FromSql>::accepts(ty) {
        Some(Scalar::Int4)
    } else if <f64 as FromSql>::accepts(ty) {
        Some(Scalar::Float8)
    } else if <f32 as FromSql>::accepts(ty) {
        Some(Scalar::Float4)
    } else if <bool as FromSql>::accepts(ty) {
        Some(Scalar::Bool)
    } else if <Vec<u8> as FromSql>::accepts(ty) {
        Some(Scalar::Bytea)
    } else if <serde_json::Value as FromSql>::accepts(ty) {
        Some(Scalar::Json)
    } else if <time::Date as FromSql>::accepts(ty) {
        Some(Scalar::Date)
    } else if <time::OffsetDateTime as FromSql>::accepts(ty) {
        Some(Scalar::TimestampTz)
    } else if <uuid::Uuid as FromSql>::accepts(ty) {
        Some(Scalar::Uuid)
    } else if <pgvector::Vector as FromSql>::accepts(ty) {
        Some(Scalar::Vector)
    } else {
        None
    }
}

fn expected(ty: &Type) -> Option<SqlType> {
    match ty.kind() {
        Kind::Array(inner) => match inner.kind() {
            Kind::Array(_) => None,
            _ => accepted(inner).map(SqlType::ScalarVec),
        },
        _ => accepted(ty).map(SqlType::Scalar),
    }
}

#[test]
fn the_mapping_agrees_with_the_driver_on_every_built_in_type() {
    let mut seen = 0;
    for oid in 0..20000u32 {
        if let Some(ty) = Type::from_oid(oid) {
            seen += 1;
            assert_eq!(
                postgres_to_rust_type(&describe(&ty), ALL),
                expected(&ty),
                "type {ty:?}"
            );
        }
    }
    assert!(seen > 100);
}

#[test]
fn the_mapping_agrees_with_the_driver_on_types_known_by_name() {
    for name in ["citext", "ltree", "lquery", "ltxtquery", "vector", "hstore", "geometry"] {
        let ty = Type::new(name.to_string(), 70000, Kind::Simple, "public".to_string());
        assert_eq!(
            postgres_to_rust_type(&describe(&ty), ALL),
            expected(&ty),
            "type {name}"
        );
        let list = Type::new(
            format!("_{name}"),
            70001,
            Kind::Array(ty.clone()),
            "public".to_string(),
        );
        assert_eq!(
            postgres_to_rust_type(&describe(&list), ALL),
            expected(&list),
            "array of {name}"
        );
        let nested = Type::new(
            format!("__{name}"),
            70002,
            Kind::Array(list),
            "public".to_string(),
        );
        assert_eq!(postgres_to_rust_type(&describe(&nested), ALL), None);
    }
}

#[test]
fn an_enumeration_is_the_set_of_its_variants() {
    let (is_array, variants) = enum_type(&TypeDescriptor::Base(role(&["user", "admin"]))).unwrap();
    assert!(!is_array);
    assert_eq!(names(&variants), vec!["admin", "user"]);
    let (is_array, variants) =
        enum_type(&TypeDescriptor::Array(role(&["user", "admin", "user"]))).unwrap();
    assert!(is_array);
    assert_eq!(names(&variants), vec!["admin", "user"]);
    assert_eq!(enum_type(&simple(25, "text")), None);
    assert_eq!(enum_type(&TypeDescriptor::NestedArray), None);
}

#[test]
fn the_order_of_the_variants_plays_no_part() {
    let a = map_type(&TypeDescriptor::Base(role(&["b", "a", "c"])), BASIC).unwrap();
    let b = map_type(&TypeDescriptor::Base(role(&["c", "b", "a"])), BASIC).unwrap();
    assert_eq!(a, b);
    assert!(a.same(&b));
    let other = map_type(&TypeDescriptor::Base(role(&["a", "b"])), BASIC).unwrap();
    assert!(!a.same(&other));
    let list = map_type(&TypeDescriptor::Array(role(&["a", "c", "b"])), BASIC).unwrap();
    assert!(!a.same(&list));
    assert_eq!(
        list,
        SqlType::EnumVec(Enum {
            variants: vec![
                EnumVariant { name: "a".to_string() },
                EnumVariant { name: "b".to_string() },
                EnumVariant { name: "c".to_string() },
            ]
        })
    );
}

#[test]
fn an_enumeration_comes_before_the_plain_types() {
    let ty = TypeDescriptor::Base(BaseType {
        oid: 25,
        name: "text".to_string(),
        shape: Shape::Enum(vec!["x".to_string()]),
    });
    assert_eq!(
        map_type(&ty, BASIC),
        Ok(SqlType::Enum(Enum::new(&vec!["x".to_string()])))
    );
}

#[test]
fn names_are_ordered_by_their_bytes() {
    assert!(str_lt("a", "b"));
    assert!(!str_lt("b", "a"));
    assert!(!str_lt("a", "a"));
    assert!(str_lt("", "a"));
    assert!(!str_lt("a", ""));
    assert!(!str_lt("", ""));
    assert!(str_lt("a", "aa"));
    assert!(str_lt("Z", "a"));
    assert!(str_lt("z", "é"));
    assert!(str_lt("é", "€"));
    let words = ["", "a", "ab", "b", "B", "é", "z", "zz", "€", "😀"];
    for x in words {
        for y in words {
            assert_eq!(str_lt(x, y), x < y, "{x:?} < {y:?}");
        }
    }
}

#[test]
fn sorted_names_are_what_sort_and_dedup_give() {
    let given = ["pear", "apple", "fig", "apple", "Apple", "", "fig", "épée"]
        .iter()
        .map(|s| s.to_string())
        .collect::<Vec<_>>();
    let mut expected = given.clone();
    expected.sort();
    expected.dedup();
    assert_eq!(sorted_names(&given), expected);
    assert_eq!(sorted_names(&Vec::new()), Vec::<String>::new());
}

#[test]
fn a_type_satisfies_itself_and_a_wider_integer() {
    let int4 = SqlType::Scalar(Scalar::Int4);
    let int8 = SqlType::Scalar(Scalar::Int8);
    let text = SqlType::Scalar(Scalar::Text);
    assert_eq!(Valid::check(&int4, &int4), Some(Valid { widened: false }));
    assert_eq!(Valid::check(&int4, &int8), Some(Valid { widened: true }));
    assert_eq!(Valid::check(&int8, &int4), None);
    assert_eq!(Valid::check(&text, &int8), None);
    assert_eq!(
        Valid::check(&SqlType::ScalarVec(Scalar::Int4), &SqlType::ScalarVec(Scalar::Int8)),
        None
    );
    assert_eq!(Valid::check(&int8, &SqlType::ScalarVec(Scalar::Int8)), None);
    let role = SqlType::Enum(Enum::new(&vec!["a".to_string(), "b".to_string()]));
    let other = SqlType::Enum(Enum::new(&vec!["a".to_string(), "c".to_string()]));
    assert_eq!(
        Valid::check(&role, &role.duplicate()),
        Some(Valid { widened: false })
    );
    assert_eq!(Valid::check(&role, &other), None);
}

#[test]
fn host_types_have_their_names() {
    assert_eq!(Scalar::Text.owned(), "String");
    assert_eq!(Scalar::Text.borrowed(), "str");
    assert_eq!(Scalar::Bytea.owned(), "Vec<u8>");
    assert_eq!(Scalar::Bytea.borrowed(), "[u8]");
    assert_eq!(Scalar::Int8.owned(), "i64");
    assert_eq!(Scalar::Int8.borrowed(), "i64");
    assert_eq!(Scalar::Int4.owned(), "i32");
    assert_eq!(Scalar::Float8.owned(), "f64");
    assert_eq!(Scalar::Float4.owned(), "f32");
    assert_eq!(Scalar::Bool.owned(), "bool");
    assert_eq!(Scalar::Json.owned(), "::serde_json::Value");
    assert_eq!(Scalar::Date.owned(), "::time::Date");
    assert_eq!(Scalar::TimestampTz.owned(), "::time::OffsetDateTime");
    assert_eq!(Scalar::Uuid.borrowed(), "::uuid::Uuid");
    assert_eq!(Scalar::Vector.borrowed(), "::pgvector::Vector");
}

#[test]
fn a_byte_string_holds_its_bytes() {
    let b = Bytea(vec![1, 2, 3]);
    assert_eq!(b.0, vec![1, 2, 3]);
    assert_eq!(b.clone(), b);
    assert_eq!(Bytea::default(), Bytea(Vec::new()));
    assert!(Bytea(vec![1]) < Bytea(vec![2]));
}
