//! The types of the database as a prepared statement describes them, the
//! types that the host must hold against them, and the mapping from the
//! first to the second.

use vstd::prelude::*;

use crate::names::{same_names, sorted_names, sorted_set, strictly_sorted};
use crate::text::{str_eq, string_views};

verus! {

/// The object identifier of the built-in type `bool`.
pub const BOOL: u32 = 16;

/// The object identifier of the built-in type `bytea`.
pub const BYTEA: u32 = 17;

/// The object identifier of the built-in type `name`.
pub const NAME: u32 = 19;

/// The object identifier of the built-in type `int8`.
pub const INT8: u32 = 20;

/// The object identifier of the built-in type `int4`.
pub const INT4: u32 = 23;

/// The object identifier of the built-in type `text`.
pub const TEXT: u32 = 25;

/// The object identifier of the built-in type `json`.
pub const JSON: u32 = 114;

/// The object identifier of the built-in type `float4`.
pub const FLOAT4: u32 = 700;

/// The object identifier of the built-in type `float8`.
pub const FLOAT8: u32 = 701;

/// The object identifier of the built-in type `unknown`.
pub const UNKNOWN: u32 = 705;

/// The object identifier of the built-in type `bpchar`.
pub const BPCHAR: u32 = 1042;

/// The object identifier of the built-in type `varchar`.
pub const VARCHAR: u32 = 1043;

/// The object identifier of the built-in type `date`.
pub const DATE: u32 = 1082;

/// The object identifier of the built-in type `timestamptz`.
pub const TIMESTAMPTZ: u32 = 1184;

/// The object identifier of the built-in type `uuid`.
pub const UUID: u32 = 2950;

/// The object identifier of the built-in type `jsonb`.
pub const JSONB: u32 = 3802;

/// A host type that holds one value of a column or a parameter.
#[derive(Debug, Clone, Copy, PartialEq, Eq, Structural)]
pub enum Scalar {
    /// `String`, borrowed as `str`.
    Text,
    /// `i64`.
    Int8,
    /// `i32`.
    Int4,
    /// The 64-bit floating-point type.
    Float8,
    /// The 32-bit floating-point type.
    Float4,
    /// `bool`.
    Bool,
    /// `Vec<u8>`, borrowed as `[u8]`.
    Bytea,
    /// A JSON value.
    Json,
    /// A calendar date.
    Date,
    /// A date and time with an offset.
    TimestampTz,
    /// A UUID.
    Uuid,
    /// A vector of numbers.
    Vector,
}

/// The host types beyond the basic ones that a build knows.
#[derive(Debug, Clone, Copy, PartialEq, Eq, Structural)]
pub struct Dialect {
    pub json: bool,
    pub time: bool,
    pub uuid: bool,
    pub pgvector: bool,
}

/// What kind of type a type that is no array is.
#[derive(Debug, PartialEq, Eq)]
pub enum Shape {
    /// A type of one value.
    Simple,
    /// An enumeration, with the names of its variants as the database
    /// lists them.
    Enum(Vec<String>),
    /// Anything else: a range, a domain, a composite or a pseudo type.
    Other,
}

/// What a [`Shape`] stands for in contracts.
pub enum ShapeView {
    Simple,
    Enum(Seq<Seq<char>>),
    Other,
}

impl View for Shape {
    type V = ShapeView;

    open spec fn view(&self) -> ShapeView {
        match self {
            Shape::Simple => ShapeView::Simple,
            Shape::Enum(variants) => ShapeView::Enum(string_views(variants@)),
            Shape::Other => ShapeView::Other,
        }
    }
}

/// A type of the database that is no array: a built-in type is known by
/// its object identifier, any other by its name.
#[derive(Debug, PartialEq, Eq)]
pub struct BaseType {
    pub oid: u32,
    pub name: String,
    pub shape: Shape,
}

/// What a [`BaseType`] stands for in contracts.
pub struct BaseTypeView {
    pub oid: u32,
    pub name: Seq<char>,
    pub shape: ShapeView,
}

impl View for BaseType {
    type V = BaseTypeView;

    open spec fn view(&self) -> BaseTypeView {
        BaseTypeView { oid: self.oid, name: self.name@, shape: self.shape@ }
    }
}

/// The type of a parameter or of a column, as the database describes it.
#[derive(Debug, PartialEq, Eq)]
pub enum TypeDescriptor {
    /// A type that is no array.
    Base(BaseType),
    /// An array of a type that is no array.
    Array(BaseType),
    /// An array of arrays.
    NestedArray,
}

/// What a [`TypeDescriptor`] stands for in contracts.
pub enum TypeDescriptorView {
    Base(BaseTypeView),
    Array(BaseTypeView),
    NestedArray,
}

impl View for TypeDescriptor {
    type V = TypeDescriptorView;

    open spec fn view(&self) -> TypeDescriptorView {
        match self {
            TypeDescriptor::Base(base) => TypeDescriptorView::Base(base@),
            TypeDescriptor::Array(base) => TypeDescriptorView::Array(base@),
            TypeDescriptor::NestedArray => TypeDescriptorView::NestedArray,
        }
    }
}

/// A byte string, as the database's `bytea` holds it.
#[derive(Debug, Clone, Default, PartialEq, Eq, PartialOrd, Ord)]
pub struct Bytea(pub Vec<u8>);

/// One variant of an enumeration, by its name.
#[derive(Debug, PartialEq, Eq)]
pub struct EnumVariant {
    pub name: String,
}

/// The names of a list of variants.
pub open spec fn variant_names(variants: Seq<EnumVariant>) -> Seq<Seq<char>> {
    variants.map_values(|v: EnumVariant| v.name@)
}

/// An enumeration: the set of the names of its variants, held in rising
/// order so that two enumerations of the same names are the same.
#[derive(Debug, PartialEq, Eq)]
pub struct Enum {
    pub variants: Vec<EnumVariant>,
}

impl View for Enum {
    type V = Seq<Seq<char>>;

    open spec fn view(&self) -> Seq<Seq<char>> {
        variant_names(self.variants@)
    }
}

impl Enum {
    /// Whether the names stand in strictly rising order.
    pub open spec fn wf(&self) -> bool {
        strictly_sorted(self@)
    }

    /// The enumeration of the given names, in whatever order and however
    /// often they are given.
    pub fn new(names: &Vec<String>) -> (r: Enum)
        ensures
            r.wf(),
            same_names(r@, string_views(names@)),
            r@ == sorted_set(string_views(names@)),
    {
        let sorted = sorted_names(names);
        let mut variants: Vec<EnumVariant> = Vec::new();
        let mut i: usize = 0;
        while i < sorted.len()
            invariant
                i <= sorted@.len(),
                variant_names(variants@) =~= string_views(sorted@).take(i as int),
            decreases sorted@.len() - i,
        {
            let ghost before = variant_names(variants@);
            variants.push(EnumVariant { name: sorted[i].clone() });
            proof {
                let all = string_views(sorted@);
                assert(all[i as int] == sorted@[i as int]@);
                assert(variant_names(variants@) =~= before.push(all[i as int]));
                assert(all.take(i + 1) =~= all.take(i as int).push(all[i as int]));
            }
            i += 1;
        }
        assert(string_views(sorted@).take(sorted@.len() as int) =~= string_views(sorted@));
        Enum { variants }
    }

    /// Whether two enumerations hold the same names in the same order.
    pub fn same(&self, other: &Enum) -> (r: bool)
        ensures
            r == (self@ == other@),
    {
        if self.variants.len() != other.variants.len() {
            assert(self@.len() != other@.len());
            return false;
        }
        let mut i: usize = 0;
        while i < self.variants.len()
            invariant
                i <= self.variants@.len(),
                self.variants@.len() == other.variants@.len(),
                forall|k: int| 0 <= k < i ==> self@[k] == other@[k],
            decreases self.variants@.len() - i,
        {
            if !str_eq(self.variants[i].name.as_str(), other.variants[i].name.as_str()) {
                assert(self@[i as int] != other@[i as int]);
                return false;
            }
            i += 1;
        }
        assert(self@ =~= other@);
        true
    }

    /// A copy of this enumeration.
    pub fn duplicate(&self) -> (r: Enum)
        ensures
            r@ == self@,
    {
        let mut variants: Vec<EnumVariant> = Vec::new();
        let mut i: usize = 0;
        while i < self.variants.len()
            invariant
                i <= self.variants@.len(),
                variant_names(variants@) =~= self@.take(i as int),
            decreases self.variants@.len() - i,
        {
            let ghost before = variant_names(variants@);
            variants.push(EnumVariant { name: self.variants[i].name.clone() });
            proof {
                assert(self@[i as int] == self.variants@[i as int].name@);
                assert(variant_names(variants@) =~= before.push(self@[i as int]));
                assert(self@.take(i + 1) =~= self@.take(i as int).push(self@[i as int]));
            }
            i += 1;
        }
        assert(self@.take(self.variants@.len() as int) =~= self@);
        Enum { variants }
    }
}

/// The host type that a database type asks for: what a parameter must be
/// given as, and what a column is read into.
#[derive(Debug, PartialEq, Eq)]
pub enum SqlType {
    /// One value.
    Scalar(Scalar),
    /// One variant of an enumeration.
    Enum(Enum),
    /// A sequence of values.
    ScalarVec(Scalar),
    /// A sequence of variants of an enumeration.
    EnumVec(Enum),
}

/// What a [`SqlType`] stands for in contracts.
pub enum SqlTypeView {
    Scalar(Scalar),
    Enum(Seq<Seq<char>>),
    ScalarVec(Scalar),
    EnumVec(Seq<Seq<char>>),
}

impl View for SqlType {
    type V = SqlTypeView;

    open spec fn view(&self) -> SqlTypeView {
        match self {
            SqlType::Scalar(s) => SqlTypeView::Scalar(*s),
            SqlType::Enum(e) => SqlTypeView::Enum(e@),
            SqlType::ScalarVec(s) => SqlTypeView::ScalarVec(*s),
            SqlType::EnumVec(e) => SqlTypeView::EnumVec(e@),
        }
    }
}

fn same_scalar(a: Scalar, b: Scalar) -> (r: bool)
    ensures
        r == (a == b),
{
    match (a, b) {
        (Scalar::Text, Scalar::Text) => true,
        (Scalar::Int8, Scalar::Int8) => true,
        (Scalar::Int4, Scalar::Int4) => true,
        (Scalar::Float8, Scalar::Float8) => true,
        (Scalar::Float4, Scalar::Float4) => true,
        (Scalar::Bool, Scalar::Bool) => true,
        (Scalar::Bytea, Scalar::Bytea) => true,
        (Scalar::Json, Scalar::Json) => true,
        (Scalar::Date, Scalar::Date) => true,
        (Scalar::TimestampTz, Scalar::TimestampTz) => true,
        (Scalar::Uuid, Scalar::Uuid) => true,
        (Scalar::Vector, Scalar::Vector) => true,
        _ => false,
    }
}

impl SqlType {
    /// Whether every enumeration in this type is well formed.
    pub open spec fn wf(&self) -> bool {
        match self {
            SqlType::Enum(e) => e.wf(),
            SqlType::EnumVec(e) => e.wf(),
            _ => true,
        }
    }

    /// Whether two types are the same.
    pub fn same(&self, other: &SqlType) -> (r: bool)
        ensures
            r == (self@ == other@),
    {
        match (self, other) {
            (SqlType::Scalar(a), SqlType::Scalar(b)) => same_scalar(*a, *b),
            (SqlType::Enum(a), SqlType::Enum(b)) => a.same(b),
            (SqlType::ScalarVec(a), SqlType::ScalarVec(b)) => same_scalar(*a, *b),
            (SqlType::EnumVec(a), SqlType::EnumVec(b)) => a.same(b),
            _ => false,
        }
    }

    /// A copy of this type.
    pub fn duplicate(&self) -> (r: SqlType)
        ensures
            r@ == self@,
    {
        match self {
            SqlType::Scalar(s) => SqlType::Scalar(*s),
            SqlType::Enum(e) => SqlType::Enum(e.duplicate()),
            SqlType::ScalarVec(s) => SqlType::ScalarVec(*s),
            SqlType::EnumVec(e) => SqlType::EnumVec(e.duplicate()),
        }
    }
}

/// Whether a type is read as text: the built-in character types, and the
/// types of four names.
pub open spec fn is_text(oid: u32, name: Seq<char>) -> bool {
    ||| oid == VARCHAR
    ||| oid == TEXT
    ||| oid == BPCHAR
    ||| oid == NAME
    ||| oid == UNKNOWN
    ||| name == "citext"@
    ||| name == "ltree"@
    ||| name == "lquery"@
    ||| name == "ltxtquery"@
}

/// The host type of one value of a type that is no array, if it has one.
/// The shape of the type plays no part.
pub open spec fn scalar_of(oid: u32, name: Seq<char>, dialect: Dialect) -> Option<Scalar> {
    if is_text(oid, name) {
        Some(Scalar::Text)
    } else if oid == INT8 {
        Some(Scalar::Int8)
    } else if oid == INT4 {
        Some(Scalar::Int4)
    } else if oid == FLOAT8 {
        Some(Scalar::Float8)
    } else if oid == FLOAT4 {
        Some(Scalar::Float4)
    } else if oid == BOOL {
        Some(Scalar::Bool)
    } else if oid == BYTEA {
        Some(Scalar::Bytea)
    } else if dialect.json && (oid == JSON || oid == JSONB) {
        Some(Scalar::Json)
    } else if dialect.time && oid == DATE {
        Some(Scalar::Date)
    } else if dialect.time && oid == TIMESTAMPTZ {
        Some(Scalar::TimestampTz)
    } else if dialect.uuid && oid == UUID {
        Some(Scalar::Uuid)
    } else if dialect.pgvector && name == "vector"@ {
        Some(Scalar::Vector)
    } else {
        None
    }
}

/// The host type of a type that is no enumeration: that of one value, or
/// the sequence of it for an array. An array of arrays has none.
pub open spec fn plain_type(ty: TypeDescriptorView, dialect: Dialect) -> Option<SqlTypeView> {
    match ty {
        TypeDescriptorView::Base(base) => match scalar_of(base.oid, base.name, dialect) {
            Some(s) => Some(SqlTypeView::Scalar(s)),
            None => None,
        },
        TypeDescriptorView::Array(base) => match scalar_of(base.oid, base.name, dialect) {
            Some(s) => Some(SqlTypeView::ScalarVec(s)),
            None => None,
        },
        TypeDescriptorView::NestedArray => None,
    }
}

/// Whether the type is an array of an enumeration (`true`) or an
/// enumeration itself (`false`), with the names of the variants as the
/// database lists them; nothing for any other type.
pub open spec fn enum_names(ty: TypeDescriptorView) -> Option<(bool, Seq<Seq<char>>)> {
    match ty {
        TypeDescriptorView::Base(base) => match base.shape {
            ShapeView::Enum(names) => Some((false, names)),
            _ => None,
        },
        TypeDescriptorView::Array(base) => match base.shape {
            ShapeView::Enum(names) => Some((true, names)),
            _ => None,
        },
        TypeDescriptorView::NestedArray => None,
    }
}

/// Whether `host` is the host type of `ty`: for an enumeration or an array
/// of one, the set of its variants' names in rising order; for any other
/// type, its plain type.
pub open spec fn maps_to(ty: TypeDescriptorView, dialect: Dialect, host: SqlTypeView) -> bool {
    match enum_names(ty) {
        Some((array, names)) => {
            &&& host matches SqlTypeView::Enum(sorted) ==> !array && strictly_sorted(sorted)
                && same_names(sorted, names)
            &&& host matches SqlTypeView::EnumVec(sorted) ==> array && strictly_sorted(sorted)
                && same_names(sorted, names)
            &&& host is Enum || host is EnumVec
        },
        None => plain_type(ty, dialect) == Some(host),
    }
}

/// Whether a type has a host type at all.
pub open spec fn is_supported(ty: TypeDescriptorView, dialect: Dialect) -> bool {
    enum_names(ty) is Some || plain_type(ty, dialect) is Some
}

/// A type has at most one host type.
pub proof fn lemma_maps_to_one(
    ty: TypeDescriptorView,
    dialect: Dialect,
    a: SqlTypeView,
    b: SqlTypeView,
)
    requires
        maps_to(ty, dialect, a),
        maps_to(ty, dialect, b),
    ensures
        a == b,
{
    if let Some((array, names)) = enum_names(ty) {
        let x = match a {
            SqlTypeView::Enum(s) => s,
            SqlTypeView::EnumVec(s) => s,
            _ => Seq::empty(),
        };
        let y = match b {
            SqlTypeView::Enum(s) => s,
            SqlTypeView::EnumVec(s) => s,
            _ => Seq::empty(),
        };
        assert(same_names(x, y)) by {
            assert forall|n: Seq<char>| x.contains(n) <==> y.contains(n) by {
                assert(x.contains(n) <==> names.contains(n));
                assert(y.contains(n) <==> names.contains(n));
            }
        }
        crate::names::lemma_sorted_unique(x, y);
    }
}

/// The host type of an enumeration does not depend on the order in which
/// the database lists the variants.
pub proof fn lemma_enum_ignores_order(
    a: TypeDescriptorView,
    b: TypeDescriptorView,
    dialect: Dialect,
    host_a: SqlTypeView,
    host_b: SqlTypeView,
)
    requires
        enum_names(a) is Some,
        enum_names(b) is Some,
        enum_names(a)->Some_0.0 == enum_names(b)->Some_0.0,
        same_names(enum_names(a)->Some_0.1, enum_names(b)->Some_0.1),
        maps_to(a, dialect, host_a),
        maps_to(b, dialect, host_b),
    ensures
        host_a == host_b,
{
    let na = enum_names(a)->Some_0.1;
    let nb = enum_names(b)->Some_0.1;
    let x = match host_a {
        SqlTypeView::Enum(s) => s,
        SqlTypeView::EnumVec(s) => s,
        _ => Seq::empty(),
    };
    let y = match host_b {
        SqlTypeView::Enum(s) => s,
        SqlTypeView::EnumVec(s) => s,
        _ => Seq::empty(),
    };
    assert(same_names(x, y)) by {
        assert forall|n: Seq<char>| x.contains(n) <==> y.contains(n) by {
            assert(x.contains(n) <==> na.contains(n));
            assert(na.contains(n) <==> nb.contains(n));
            assert(y.contains(n) <==> nb.contains(n));
        }
    }
    crate::names::lemma_sorted_unique(x, y);
}

/// A type that has no host type, by its name.
#[derive(Debug, PartialEq, Eq)]
pub enum TypeError {
    /// The type of this name has no host type.
    Unsupported(String),
    /// An array of arrays.
    NestedArray,
}

/// What a [`TypeError`] stands for in contracts.
pub enum TypeErrorView {
    Unsupported(Seq<char>),
    NestedArray,
}

impl View for TypeError {
    type V = TypeErrorView;

    open spec fn view(&self) -> TypeErrorView {
        match self {
            TypeError::Unsupported(name) => TypeErrorView::Unsupported(name@),
            TypeError::NestedArray => TypeErrorView::NestedArray,
        }
    }
}

/// The error for a type that has no host type.
pub open spec fn unsupported(ty: TypeDescriptorView) -> TypeErrorView {
    match ty {
        TypeDescriptorView::Base(base) => TypeErrorView::Unsupported(base.name),
        TypeDescriptorView::Array(base) => TypeErrorView::Unsupported(base.name),
        TypeDescriptorView::NestedArray => TypeErrorView::NestedArray,
    }
}

impl TypeError {
    /// The message of this error.
    pub fn message(&self) -> (r: String)
        ensures
            r@ == match self@ {
                TypeErrorView::Unsupported(name) => "unsupported postgres type: "@ + name,
                TypeErrorView::NestedArray => "unsupported postgres type: nested array"@,
            },
    {
        match self {
            TypeError::Unsupported(name) => {
                let mut r = "unsupported postgres type: ".to_owned();
                r.append(name.as_str());
                r
            },
            TypeError::NestedArray => "unsupported postgres type: nested array".to_owned(),
        }
    }
}

fn scalar(base: &BaseType, dialect: Dialect) -> (r: Option<Scalar>)
    ensures
        r == scalar_of(base.oid, base.name@, dialect),
{
    let oid: u32 = base.oid;
    let name = base.name.as_str();
    if oid == VARCHAR || oid == TEXT || oid == BPCHAR || oid == NAME || oid == UNKNOWN || str_eq(
        name,
        "citext",
    ) || str_eq(name, "ltree") || str_eq(name, "lquery") || str_eq(name, "ltxtquery") {
        Some(Scalar::Text)
    } else if oid == INT8 {
        Some(Scalar::Int8)
    } else if oid == INT4 {
        Some(Scalar::Int4)
    } else if oid == FLOAT8 {
        Some(Scalar::Float8)
    } else if oid == FLOAT4 {
        Some(Scalar::Float4)
    } else if oid == BOOL {
        Some(Scalar::Bool)
    } else if oid == BYTEA {
        Some(Scalar::Bytea)
    } else if dialect.json && (oid == JSON || oid == JSONB) {
        Some(Scalar::Json)
    } else if dialect.time && oid == DATE {
        Some(Scalar::Date)
    } else if dialect.time && oid == TIMESTAMPTZ {
        Some(Scalar::TimestampTz)
    } else if dialect.uuid && oid == UUID {
        Some(Scalar::Uuid)
    } else if dialect.pgvector && str_eq(name, "vector") {
        Some(Scalar::Vector)
    } else {
        None
    }
}

/// The host type of a type that is no enumeration, if it has one.
pub fn postgres_to_rust_type(ty: &TypeDescriptor, dialect: Dialect) -> (r: Option<SqlType>)
    ensures
        match r {
            Some(host) => plain_type(ty@, dialect) == Some(host@),
            None => plain_type(ty@, dialect) is None,
        },
{
    match ty {
        TypeDescriptor::Base(base) => match scalar(base, dialect) {
            Some(s) => Some(SqlType::Scalar(s)),
            None => None,
        },
        TypeDescriptor::Array(base) => match scalar(base, dialect) {
            Some(s) => Some(SqlType::ScalarVec(s)),
            None => None,
        },
        TypeDescriptor::NestedArray => None,
    }
}

/// For an enumeration or an array of one: whether it is an array, and the
/// enumeration of its variants.
pub fn enum_type(ty: &TypeDescriptor) -> (r: Option<(bool, Enum)>)
    ensures
        match r {
            Some((array, variants)) => enum_names(ty@) is Some && enum_names(ty@)->Some_0.0
                == array && variants.wf() && same_names(variants@, enum_names(ty@)->Some_0.1)
                && variants@ == sorted_set(enum_names(ty@)->Some_0.1),
            None => enum_names(ty@) is None,
        },
{
    match ty {
        TypeDescriptor::Base(base) => match &base.shape {
            Shape::Enum(names) => Some((false, Enum::new(names))),
            _ => None,
        },
        TypeDescriptor::Array(base) => match &base.shape {
            Shape::Enum(names) => Some((true, Enum::new(names))),
            _ => None,
        },
        TypeDescriptor::NestedArray => None,
    }
}

/// The host type of a database type, or the error that names the type
/// which has none.
pub fn map_type(ty: &TypeDescriptor, dialect: Dialect) -> (r: Result<SqlType, TypeError>)
    ensures
        match r {
            Ok(host) => maps_to(ty@, dialect, host@) && host.wf(),
            Err(e) => !is_supported(ty@, dialect) && e@ == unsupported(ty@),
        },
        r is Ok <==> is_supported(ty@, dialect),
{
    match enum_type(ty) {
        Some((array, variants)) => {
            if array {
                Ok(SqlType::EnumVec(variants))
            } else {
                Ok(SqlType::Enum(variants))
            }
        },
        None => match postgres_to_rust_type(ty, dialect) {
            Some(host) => Ok(host),
            None => match ty {
                TypeDescriptor::Base(base) => Err(TypeError::Unsupported(base.name.clone())),
                TypeDescriptor::Array(base) => Err(TypeError::Unsupported(base.name.clone())),
                TypeDescriptor::NestedArray => Err(TypeError::NestedArray),
            },
        },
    }
}

/// Whether a value of the type `supplied` may stand where `expected` is
/// asked for: the types are the same, or a 32-bit integer is widened to a
/// 64-bit one.
pub open spec fn satisfies(supplied: SqlTypeView, expected: SqlTypeView) -> bool {
    supplied == expected || (supplied == SqlTypeView::Scalar(Scalar::Int4) && expected
        == SqlTypeView::Scalar(Scalar::Int8))
}

/// The evidence that a supplied type may stand where another is asked
/// for; it says whether the value is widened on the way.
#[derive(Debug, Clone, Copy, PartialEq, Eq)]
pub struct Valid {
    pub widened: bool,
}

impl Valid {
    /// Holds `supplied` against `expected`.
    pub fn check(supplied: &SqlType, expected: &SqlType) -> (r: Option<Valid>)
        ensures
            r is Some <==> satisfies(supplied@, expected@),
            r matches Some(v) ==> v.widened == (supplied@ != expected@),
    {
        if supplied.same(expected) {
            Some(Valid { widened: false })
        } else {
            match (supplied, expected) {
                (SqlType::Scalar(Scalar::Int4), SqlType::Scalar(Scalar::Int8)) => Some(
                    Valid { widened: true },
                ),
                _ => None,
            }
        }
    }
}

/// The name of a scalar's host type, as an owned value.
pub open spec fn owned_name(s: Scalar) -> Seq<char> {
    match s {
        Scalar::Text => "String"@,
        Scalar::Int8 => "i64"@,
        Scalar::Int4 => "i32"@,
        Scalar::Float8 => "f64"@,
        Scalar::Float4 => "f32"@,
        Scalar::Bool => "bool"@,
        Scalar::Bytea => "Vec<u8>"@,
        Scalar::Json => "::serde_json::Value"@,
        Scalar::Date => "::time::Date"@,
        Scalar::TimestampTz => "::time::OffsetDateTime"@,
        Scalar::Uuid => "::uuid::Uuid"@,
        Scalar::Vector => "::pgvector::Vector"@,
    }
}

/// The name of a scalar's host type, as a borrowed value.
pub open spec fn borrowed_name(s: Scalar) -> Seq<char> {
    match s {
        Scalar::Text => "str"@,
        Scalar::Bytea => "[u8]"@,
        other => owned_name(other),
    }
}

impl Scalar {
    /// The host type that owns a value of this kind.
    pub fn owned(self) -> (r: &'static str)
        ensures
            r@ == owned_name(self),
    {
        match self {
            Scalar::Text => "String",
            Scalar::Int8 => "i64",
            Scalar::Int4 => "i32",
            Scalar::Float8 => "f64",
            Scalar::Float4 => "f32",
            Scalar::Bool => "bool",
            Scalar::Bytea => "Vec<u8>",
            Scalar::Json => "::serde_json::Value",
            Scalar::Date => "::time::Date",
            Scalar::TimestampTz => "::time::OffsetDateTime",
            Scalar::Uuid => "::uuid::Uuid",
            Scalar::Vector => "::pgvector::Vector",
        }
    }

    /// The host type that borrows a value of this kind.
    pub fn borrowed(self) -> (r: &'static str)
        ensures
            r@ == borrowed_name(self),
    {
        match self {
            Scalar::Text => "str",
            Scalar::Bytea => "[u8]",
            other => other.owned(),
        }
    }
}

} // verus!
