use sqlm::binder::{Arguments, CallArgument};
use sqlm::shape::{
    check_target, classify, ColumnDescriptor, Execution, Field, Primitive, RecordType,
    ResultShape, ShapeError, Struct, StructColumn, Target, Wrapper,
};
use sqlm::sql::{
    compile, plan, Described, ParameterError, PlanError, QueryPlan, ToSql, TypedExpr,
};
use sqlm::types::{
    BaseType, Dialect, Enum, Scalar, Shape, SqlType, TypeDescriptor, TypeError,
};

const ALL: Dialect = Dialect {
    json: true,
    time: true,
    uuid: true,
    pgvector: true,
};

fn simple(oid: u32, name: &str) -> TypeDescriptor {
    TypeDescriptor::Base(BaseType {
        oid,
        name: name.to_string(),
        shape: Shape::Simple,
    })
}

fn role_type(variants: &[&str]) -> BaseType {
    BaseType {
        oid: 16400,
        name: "role".to_string(),
        shape: Shape::Enum(variants.iter().map(|v| v.to_string()).collect()),
    }
}

fn role(variants: &[&str]) -> SqlType {
    SqlType::Enum(Enum::new(
        &variants.iter().map(|v| v.to_string()).collect(),
    ))
}

fn column(ordinal: usize, name: &str, ty: TypeDescriptor) -> ColumnDescriptor {
    ColumnDescriptor {
        name: name.to_string(),
        ty,
        ordinal,
    }
}

fn field(name: &str, ty: SqlType) -> Field {
    Field {
        name: name.to_string(),
        ty,
        optional: false,
        has_default: false,
    }
}

fn record(fields: Vec<Field>) -> Target {
    Target::Record(
        Wrapper::Bare,
        RecordType {
            fields,
            any_columns: false,
        },
    )
}

fn id_and_name() -> ResultShape {
    classify(
        &vec![
            column(0, "id", simple(20, "int8")),
            column(1, "name", simple(25, "text")),
        ],
        ALL,
    )
    .unwrap()
}

const INT8: SqlType = SqlType::Scalar(Scalar::Int8);
const INT4: SqlType = SqlType::Scalar(Scalar::Int4);
const TEXT: SqlType = SqlType::Scalar(Scalar::Text);

#[test]
fn a_result_is_classified_by_the_number_of_its_columns() {
    assert_eq!(classify(&Vec::new(), ALL), Ok(ResultShape::NoRows));
    assert_eq!(
        classify(&vec![column(0, "id", simple(20, "int8"))], ALL),
        Ok(ResultShape::Scalar(Primitive { ty: INT8 }))
    );
    assert_eq!(
        id_and_name(),
        ResultShape::Record(Struct {
            columns: vec![
                StructColumn {
                    ty: INT8,
                    name: "id".to_string()
                },
                StructColumn {
                    ty: TEXT,
                    name: "name".to_string()
                },
            ]
        })
    );
}

#[test]
fn the_first_unsupported_column_is_the_error() {
    assert_eq!(
        classify(&vec![column(0, "n", simple(1700, "numeric"))], ALL),
        Err(TypeError::Unsupported("numeric".to_string()))
    );
    assert_eq!(
        classify(
            &vec![
                column(0, "id", simple(20, "int8")),
                column(1, "a", simple(21, "int2")),
                column(2, "b", simple(1700, "numeric")),
            ],
            ALL
        ),
        Err(TypeError::Unsupported("int2".to_string()))
    );
    assert_eq!(
        classify(
            &vec![
                column(0, "id", simple(20, "int8")),
                column(1, "m", TypeDescriptor::NestedArray),
            ],
            ALL
        ),
        Err(TypeError::NestedArray)
    );
}

#[test]
fn a_query_without_columns_takes_the_unit_only() {
    assert_eq!(
        check_target(&ResultShape::NoRows, &Target::Unit),
        Ok(Execution::Command)
    );
    assert_eq!(
        check_target(&ResultShape::NoRows, &Target::Value(Wrapper::Bare, INT8)),
        Err(ShapeError::ExpectedUnit)
    );
    assert_eq!(
        check_target(
            &ResultShape::NoRows,
            &Target::Value(Wrapper::Sequence, TEXT)
        ),
        Err(ShapeError::ExpectedUnit)
    );
    assert_eq!(
        check_target(&ResultShape::NoRows, &record(Vec::new())),
        Err(ShapeError::ExpectedUnit)
    );
}

#[test]
fn one_column_is_read_as_a_value() {
    let shape = ResultShape::Scalar(Primitive { ty: INT8 });
    assert_eq!(
        check_target(&shape, &Target::Value(Wrapper::Bare, INT8)),
        Ok(Execution::ExactlyOne)
    );
    assert_eq!(
        check_target(&shape, &Target::Value(Wrapper::Optional, INT8)),
        Ok(Execution::ZeroOrOne)
    );
    assert_eq!(
        check_target(&shape, &Target::Value(Wrapper::Sequence, INT8)),
        Ok(Execution::Many)
    );
    assert_eq!(
        check_target(&shape, &Target::Value(Wrapper::Bare, TEXT)),
        Err(ShapeError::TypeMismatch)
    );
    assert_eq!(
        check_target(&shape, &Target::Value(Wrapper::Bare, INT4)),
        Err(ShapeError::TypeMismatch)
    );
    assert_eq!(
        check_target(&shape, &Target::Unit),
        Err(ShapeError::ExpectedValue)
    );
    assert_eq!(
        check_target(&shape, &record(vec![field("id", INT8)])),
        Err(ShapeError::ExpectedValue)
    );
    let narrow = ResultShape::Scalar(Primitive { ty: INT4 });
    assert_eq!(
        check_target(&narrow, &Target::Value(Wrapper::Bare, INT8)),
        Err(ShapeError::TypeMismatch)
    );
    assert_eq!(
        check_target(&narrow, &Target::Value(Wrapper::Sequence, INT4)),
        Ok(Execution::Many)
    );
}

#[test]
fn two_columns_are_read_into_a_record_of_their_names() {
    let shape = id_and_name();
    assert_eq!(
        check_target(&shape, &record(vec![field("id", INT8), field("name", TEXT)])),
        Ok(Execution::ExactlyOne)
    );
    assert_eq!(
        check_target(&shape, &record(vec![field("name", TEXT), field("id", INT8)])),
        Ok(Execution::ExactlyOne)
    );
    assert_eq!(
        check_target(
            &shape,
            &Target::Record(
                Wrapper::Sequence,
                RecordType {
                    fields: vec![field("id", INT8), field("name", TEXT)],
                    any_columns: false
                }
            )
        ),
        Ok(Execution::Many)
    );
    assert_eq!(
        check_target(&shape, &Target::Value(Wrapper::Bare, INT8)),
        Err(ShapeError::ExpectedRecord)
    );
    assert_eq!(
        check_target(&shape, &Target::Unit),
        Err(ShapeError::ExpectedRecord)
    );
}

#[test]
fn a_field_without_a_column_needs_a_default() {
    let shape = id_and_name();
    let extra = |optional: bool, has_default: bool| {
        record(vec![
            field("id", INT8),
            field("name", TEXT),
            Field {
                name: "role".to_string(),
                ty: TEXT,
                optional,
                has_default,
            },
        ])
    };
    assert_eq!(
        check_target(&shape, &extra(false, false)),
        Err(ShapeError::MissingColumn("role".to_string()))
    );
    assert_eq!(
        check_target(&shape, &extra(false, true)),
        Ok(Execution::ExactlyOne)
    );
    assert_eq!(
        check_target(&shape, &extra(true, false)),
        Ok(Execution::ExactlyOne)
    );
}

#[test]
fn every_column_must_be_claimed_unless_any_are_taken() {
    let shape = id_and_name();
    assert_eq!(
        check_target(&shape, &record(vec![field("id", INT8)])),
        Err(ShapeError::UnclaimedColumn("name".to_string()))
    );
    assert_eq!(
        check_target(
            &shape,
            &Target::Record(
                Wrapper::Optional,
                RecordType {
                    fields: vec![field("id", INT8)],
                    any_columns: true
                }
            )
        ),
        Ok(Execution::ZeroOrOne)
    );
}

#[test]
fn a_field_takes_exactly_one_column_of_a_fitting_type() {
    let shape = classify(
        &vec![
            column(0, "id", simple(23, "int4")),
            column(1, "id", simple(20, "int8")),
            column(2, "n", simple(23, "int4")),
        ],
        ALL,
    )
    .unwrap();
    assert_eq!(
        check_target(&shape, &record(vec![field("n", INT8), field("id", INT8)])),
        Err(ShapeError::AmbiguousColumn("id".to_string()))
    );
    assert_eq!(
        check_target(&id_and_name(), &record(vec![field("id", INT4), field("name", TEXT)])),
        Err(ShapeError::FieldMismatch("id".to_string()))
    );
    assert_eq!(
        check_target(
            &id_and_name(),
            &record(vec![field("name", INT8), field("id", TEXT)])
        ),
        Err(ShapeError::FieldMismatch("name".to_string()))
    );
}

#[test]
fn fail() {
    // a timestamp with time zone is no date
    let shape = classify(&vec![column(0, "now", simple(1184, "timestamptz"))], ALL).unwrap();
    assert_eq!(
        check_target(
            &shape,
            &Target::Value(Wrapper::Bare, SqlType::Scalar(Scalar::Date))
        ),
        Err(ShapeError::TypeMismatch)
    );
    // an array of an enumeration is no enumeration
    let shape = classify(
        &vec![column(
            0,
            "array",
            TypeDescriptor::Array(role_type(&["user", "admin"])),
        )],
        ALL,
    )
    .unwrap();
    assert_eq!(
        check_target(
            &shape,
            &Target::Value(Wrapper::Bare, role(&["admin", "user"]))
        ),
        Err(ShapeError::TypeMismatch)
    );
    assert_eq!(
        check_target(
            &shape,
            &Target::Value(
                Wrapper::Bare,
                SqlType::EnumVec(Enum::new(&vec!["user".to_string(), "admin".to_string()]))
            )
        ),
        Ok(Execution::ExactlyOne)
    );
    // an enumeration of other variants is another enumeration
    let shape = classify(
        &vec![
            column(0, "id", simple(20, "int8")),
            column(1, "role", TypeDescriptor::Base(role_type(&["user", "admin"]))),
        ],
        ALL,
    )
    .unwrap();
    let users = |variants: &[&str]| {
        Target::Record(
            Wrapper::Sequence,
            RecordType {
                fields: vec![field("id", INT8), field("role", role(variants))],
                any_columns: false,
            },
        )
    };
    assert_eq!(
        check_target(&shape, &users(&["user", "moderator"])),
        Err(ShapeError::FieldMismatch("role".to_string()))
    );
    assert_eq!(
        check_target(&shape, &users(&["admin", "user"])),
        Ok(Execution::Many)
    );
}

#[test]
fn a_sequence_has_its_element_type() {
    let list = Primitive {
        ty: SqlType::ScalarVec(Scalar::Int8),
    };
    assert_eq!(list.as_array().unwrap().element, INT8);
    let roles = Primitive {
        ty: SqlType::EnumVec(Enum::new(&vec!["b".to_string(), "a".to_string()])),
    };
    assert_eq!(roles.as_array().unwrap().element, role(&["a", "b"]));
    assert_eq!(Primitive { ty: INT8 }.as_array(), None);
}

fn bound(template: &str, exprs: &[&str]) -> sqlm::binder::Bound {
    let call = exprs
        .iter()
        .map(|e| CallArgument::Unnamed(e.to_string()))
        .collect::<Vec<_>>();
    compile(template, &Arguments::from_call(&call, Vec::new()).unwrap()).unwrap()
}

#[test]
fn a_plan_joins_the_query_and_its_description() {
    let b = bound("SELECT id, name FROM users WHERE id = {} AND name = {}", &["id", "who"]);
    let described = Described {
        parameters: vec![simple(20, "int8"), simple(25, "text")],
        columns: vec![
            column(0, "id", simple(20, "int8")),
            column(1, "name", simple(25, "text")),
        ],
    };
    let p = plan(&b, &described, ALL).unwrap();
    assert_eq!(
        p,
        QueryPlan {
            text: "SELECT id, name FROM users WHERE id = $1 AND name = $2".to_string(),
            parameters: vec![
                TypedExpr {
                    expr: "id".to_string(),
                    ty: INT8
                },
                TypedExpr {
                    expr: "who".to_string(),
                    ty: TEXT
                },
            ],
            shape: id_and_name(),
        }
    );
    assert_eq!(p.check_parameters(&vec![INT8, TEXT]), Ok(()));
    assert_eq!(p.check_parameters(&vec![INT4, TEXT]), Ok(()));
    assert_eq!(
        p.check_parameters(&vec![INT8, INT8]),
        Err(ParameterError::Mismatch(1))
    );
    assert_eq!(
        p.check_parameters(&vec![TEXT, INT8]),
        Err(ParameterError::Mismatch(0))
    );
    assert_eq!(
        p.check_parameters(&vec![INT8]),
        Err(ParameterError::Count(2, 1))
    );
}

#[test]
fn a_plan_takes_an_enumeration_as_a_parameter() {
    let b = bound("UPDATE users SET role = {} WHERE role = ANY({})", &["r", "rs"]);
    let described = Described {
        parameters: vec![
            TypeDescriptor::Base(role_type(&["user", "admin"])),
            TypeDescriptor::Array(role_type(&["user", "admin"])),
        ],
        columns: Vec::new(),
    };
    let p = plan(&b, &described, ALL).unwrap();
    assert_eq!(p.shape, ResultShape::NoRows);
    assert_eq!(p.parameters[0].ty, role(&["admin", "user"]));
    assert_eq!(
        p.parameters[1].ty,
        SqlType::EnumVec(Enum::new(&vec!["admin".to_string(), "user".to_string()]))
    );
}

#[test]
fn a_plan_refuses_types_without_a_host_type() {
    let b = bound("SELECT {}, {}", &["a", "b"]);
    let described = Described {
        parameters: vec![simple(20, "int8"), simple(1700, "numeric")],
        columns: vec![column(0, "x", simple(21, "int2"))],
    };
    assert_eq!(
        plan(&b, &described, ALL),
        Err(PlanError::Parameter(
            1,
            TypeError::Unsupported("numeric".to_string())
        ))
    );
    let described = Described {
        parameters: vec![simple(20, "int8"), simple(20, "int8")],
        columns: vec![column(0, "x", simple(21, "int2"))],
    };
    assert_eq!(
        plan(&b, &described, ALL),
        Err(PlanError::Column(TypeError::Unsupported("int2".to_string())))
    );
}

#[test]
fn a_plan_has_as_many_parameters_as_both_lists_give() {
    let b = bound("SELECT {}, {}", &["a", "b"]);
    let described = Described {
        parameters: vec![simple(20, "int8")],
        columns: Vec::new(),
    };
    let p = plan(&b, &described, ALL).unwrap();
    assert_eq!(p.parameters.len(), 1);
    assert_eq!(p.parameters[0].expr, "a");
    let described = Described {
        parameters: vec![simple(20, "int8"), simple(20, "int8"), simple(1700, "numeric")],
        columns: Vec::new(),
    };
    let p = plan(&b, &described, ALL).unwrap();
    assert_eq!(p.parameters.len(), 2);
}

#[test]
fn parameters_show_themselves() {
    assert_eq!(8usize.show(), "8");
    assert_eq!(0usize.show(), "0");
    assert_eq!(1234567890usize.show(), "1234567890");
    assert_eq!("it's".show(), "it's");
}

#[test]
fn the_order_of_the_columns_plays_no_part() {
    let columns = vec![
        column(0, "id", simple(20, "int8")),
        column(1, "name", simple(25, "text")),
        column(2, "age", simple(23, "int4")),
    ];
    let turned = vec![
        column(0, "age", simple(23, "int4")),
        column(1, "id", simple(20, "int8")),
        column(2, "name", simple(25, "text")),
    ];
    let fits = || record(vec![field("name", TEXT), field("age", INT8), field("id", INT8)]);
    let lacks = || record(vec![field("name", TEXT), field("id", INT8)]);
    let narrow = || record(vec![field("name", TEXT), field("age", INT4), field("id", INT4)]);
    for target in [fits, lacks, narrow] {
        let one = check_target(&classify(&columns, ALL).unwrap(), &target());
        let other = check_target(&classify(&turned, ALL).unwrap(), &target());
        assert_eq!(one.is_ok(), other.is_ok());
    }
    assert_eq!(
        check_target(&classify(&turned, ALL).unwrap(), &fits()),
        Ok(Execution::ExactlyOne)
    );
    assert_eq!(
        check_target(&classify(&turned, ALL).unwrap(), &lacks()),
        Err(ShapeError::UnclaimedColumn("age".to_string()))
    );
    assert_eq!(
        check_target(&classify(&turned, ALL).unwrap(), &narrow()),
        Err(ShapeError::FieldMismatch("id".to_string()))
    );
}

#[test]
fn columns_stand_by_their_names() {
    let named = |names: &[&str]| Struct {
        columns: names
            .iter()
            .map(|name| StructColumn {
                ty: TEXT,
                name: name.to_string(),
            })
            .collect(),
    };
    assert_eq!(named(&[]).order_by_name(), Vec::<usize>::new());
    assert_eq!(named(&["id"]).order_by_name(), vec![0]);
    assert_eq!(named(&["name", "id", "age"]).order_by_name(), vec![2, 1, 0]);
    assert_eq!(named(&["a", "b", "c"]).order_by_name(), vec![0, 1, 2]);
    assert_eq!(
        named(&["b", "a", "b", "a", "ab", "B", ""]).order_by_name(),
        vec![6, 5, 1, 3, 4, 0, 2]
    );
    assert_eq!(named(&["é", "z", "e"]).order_by_name(), vec![2, 1, 0]);
}
