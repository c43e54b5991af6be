//! The shape of a query's result: no rows, one value or a record, and
//! whether the type that the caller asks for fits it.

use vstd::prelude::*;

use crate::names::{lemma_name_order, name_lt, str_lt};
use crate::text::str_eq;
use crate::types::{
    is_supported, lemma_maps_to_one, map_type, maps_to, satisfies, unsupported, Dialect, SqlType,
    SqlTypeView,
    TypeDescriptor, TypeDescriptorView, TypeError, Valid,
};

verus! {

/// A column of a result, as the database describes it.
#[derive(Debug, PartialEq, Eq)]
pub struct ColumnDescriptor {
    pub name: String,
    pub ty: TypeDescriptor,
    pub ordinal: usize,
}

/// What a [`ColumnDescriptor`] stands for in contracts.
pub struct ColumnDescriptorView {
    pub name: Seq<char>,
    pub ty: TypeDescriptorView,
    pub ordinal: nat,
}

impl View for ColumnDescriptor {
    type V = ColumnDescriptorView;

    open spec fn view(&self) -> ColumnDescriptorView {
        ColumnDescriptorView { name: self.name@, ty: self.ty@, ordinal: self.ordinal as nat }
    }
}

/// The views of a list of columns.
pub open spec fn column_views(columns: Seq<ColumnDescriptor>) -> Seq<ColumnDescriptorView> {
    columns.map_values(|c: ColumnDescriptor| c@)
}

/// A column of a record: its name and the host type of its values.
#[derive(Debug, PartialEq, Eq)]
pub struct StructColumn {
    pub ty: SqlType,
    pub name: String,
}

/// What a [`StructColumn`] stands for in contracts.
pub struct StructColumnView {
    pub ty: SqlTypeView,
    pub name: Seq<char>,
}

impl View for StructColumn {
    type V = StructColumnView;

    open spec fn view(&self) -> StructColumnView {
        StructColumnView { ty: self.ty@, name: self.name@ }
    }
}

/// A record: the columns of a result of more than one column.
#[derive(Debug, PartialEq, Eq)]
pub struct Struct {
    pub columns: Vec<StructColumn>,
}

impl View for Struct {
    type V = Seq<StructColumnView>;

    open spec fn view(&self) -> Seq<StructColumnView> {
        self.columns@.map_values(|c: StructColumn| c@)
    }
}

/// Whether column `x` comes before column `y` where the columns stand by
/// their names: the lesser name first, and of two columns of one name the
/// one that the result gives first.
pub open spec fn column_before(columns: Seq<StructColumnView>, x: int, y: int) -> bool {
    name_lt(columns[x].name, columns[y].name) || (columns[x].name == columns[y].name && x < y)
}

/// Whether `order` lists the places of the columns as they stand by their
/// names: as many places as there are columns, each the place of a
/// column, each before all that follow.
pub open spec fn orders_by_name(columns: Seq<StructColumnView>, order: Seq<usize>) -> bool {
    &&& order.len() == columns.len()
    &&& forall|i: int| 0 <= i < order.len() ==> (#[trigger] order[i]) < columns.len()
    &&& forall|i: int, j: int|
        0 <= i < j < order.len() ==> column_before(
            columns,
            #[trigger] order[i] as int,
            #[trigger] order[j] as int,
        )
}

/// Standing before another column is transitive.
pub proof fn lemma_column_before_transitive(
    columns: Seq<StructColumnView>,
    x: int,
    y: int,
    z: int,
)
    requires
        column_before(columns, x, y),
        column_before(columns, y, z),
    ensures
        column_before(columns, x, z),
{
    lemma_name_order(columns[x].name, columns[y].name, columns[z].name);
}

/// No place comes twice in an order by name.
pub proof fn lemma_order_by_name_is_injective(
    columns: Seq<StructColumnView>,
    order: Seq<usize>,
    i: int,
    j: int,
)
    requires
        orders_by_name(columns, order),
        0 <= i < j < order.len(),
    ensures
        order[i] != order[j],
{
    let name = columns[order[i] as int].name;
    lemma_name_order(name, name, name);
}

impl Struct {
    /// The places of the columns as they stand by their names.
    pub fn order_by_name(&self) -> (r: Vec<usize>)
        ensures
            orders_by_name(self@, r@),
    {
        let ghost columns = self@;
        let n: usize = self.columns.len();
        let mut order: Vec<usize> = Vec::new();
        let mut i: usize = 0;
        while i < n
            invariant
                i <= n,
                n == self.columns@.len(),
                columns == self@,
                order@.len() == i,
                forall|k: int| 0 <= k < order@.len() ==> (#[trigger] order@[k]) < i,
                forall|a: int, b: int|
                    0 <= a < b < order@.len() ==> column_before(
                        columns,
                        #[trigger] order@[a] as int,
                        #[trigger] order@[b] as int,
                    ),
            decreases n - i,
        {
            let ghost before = order@;
            let mut p: usize = order.len();
            loop
                invariant_except_break
                    p <= order@.len(),
                    order@ == before,
                    i < n,
                    n == self.columns@.len(),
                    columns == self@,
                    forall|k: int| 0 <= k < order@.len() ==> (#[trigger] order@[k]) < i,
                    forall|k: int|
                        p <= k < order@.len() ==> name_lt(
                            columns[i as int].name,
                            columns[(#[trigger] order@[k]) as int].name,
                        ),
                ensures
                    p <= order@.len(),
                    order@ == before,
                    forall|k: int|
                        p <= k < order@.len() ==> name_lt(
                            columns[i as int].name,
                            columns[(#[trigger] order@[k]) as int].name,
                        ),
                    p > 0 ==> !name_lt(
                        columns[i as int].name,
                        columns[order@[p - 1] as int].name,
                    ),
                decreases p,
            {
                if p == 0 {
                    break ;
                }
                let q: usize = order[p - 1];
                assert(columns[i as int] == self.columns@[i as int]@);
                assert(columns[q as int] == self.columns@[q as int]@);
                if !str_lt(self.columns[i].name.as_str(), self.columns[q].name.as_str()) {
                    break ;
                }
                p -= 1;
            }
            order.insert(p, i);
            proof {
                let after = order@;
                assert forall|a: int, b: int| 0 <= a < b < after.len() implies column_before(
                    columns,
                    #[trigger] after[a] as int,
                    #[trigger] after[b] as int,
                ) by {
                    let x = if a < p {
                        a
                    } else {
                        a - 1
                    };
                    let y = if b < p {
                        b
                    } else {
                        b - 1
                    };
                    if a == p {
                        assert(after[b] == before[y]);
                    } else if b == p {
                        assert(after[a] == before[x]);
                        let last = before[p - 1] as int;
                        lemma_name_order(
                            columns[i as int].name,
                            columns[last].name,
                            columns[i as int].name,
                        );
                        assert(column_before(columns, last, i as int));
                        if x < p - 1 {
                            assert(column_before(columns, before[x] as int, last));
                            lemma_column_before_transitive(
                                columns,
                                before[x] as int,
                                last,
                                i as int,
                            );
                        }
                    } else {
                        assert(after[a] == before[x]);
                        assert(after[b] == before[y]);
                    }
                }
            }
            i += 1;
        }
        order
    }
}

/// The element type of a column that holds a sequence.
#[derive(Debug, PartialEq, Eq)]
pub struct Array {
    pub element: SqlType,
}

/// The one value of a result of one column, by its host type.
#[derive(Debug, PartialEq, Eq)]
pub struct Primitive {
    pub ty: SqlType,
}

/// The element type of a host type that is a sequence.
pub open spec fn element_of(ty: SqlTypeView) -> Option<SqlTypeView> {
    match ty {
        SqlTypeView::ScalarVec(s) => Some(SqlTypeView::Scalar(s)),
        SqlTypeView::EnumVec(e) => Some(SqlTypeView::Enum(e)),
        _ => None,
    }
}

impl Primitive {
    /// The element type, where the value is a sequence.
    pub fn as_array(&self) -> (r: Option<Array>)
        ensures
            match r {
                Some(array) => element_of(self.ty@) == Some(array.element@),
                None => element_of(self.ty@) is None,
            },
    {
        match &self.ty {
            SqlType::ScalarVec(s) => Some(Array { element: SqlType::Scalar(*s) }),
            SqlType::EnumVec(e) => Some(Array { element: SqlType::Enum(e.duplicate()) }),
            _ => None,
        }
    }
}

/// What a query gives back.
#[derive(Debug, PartialEq, Eq)]
pub enum ResultShape {
    /// No columns: the query is a command.
    NoRows,
    /// One column.
    Scalar(Primitive),
    /// More than one column.
    Record(Struct),
}

/// What a [`ResultShape`] stands for in contracts.
pub enum ResultShapeView {
    NoRows,
    Scalar(SqlTypeView),
    Record(Seq<StructColumnView>),
}

impl View for ResultShape {
    type V = ResultShapeView;

    open spec fn view(&self) -> ResultShapeView {
        match self {
            ResultShape::NoRows => ResultShapeView::NoRows,
            ResultShape::Scalar(p) => ResultShapeView::Scalar(p.ty@),
            ResultShape::Record(s) => ResultShapeView::Record(s@),
        }
    }
}

/// The first column from `i` on whose type has no host type.
pub open spec fn first_unsupported(
    columns: Seq<ColumnDescriptorView>,
    dialect: Dialect,
    i: int,
) -> Option<int>
    decreases columns.len() - i,
{
    if 0 <= i < columns.len() {
        if is_supported(columns[i].ty, dialect) {
            first_unsupported(columns, dialect, i + 1)
        } else {
            Some(i)
        }
    } else {
        None
    }
}

/// Whether `shape` is the shape of a result of these columns: none for no
/// column, the host type of the column for one, and for more the columns
/// in their order, each with its name and its host type.
pub open spec fn classifies(
    columns: Seq<ColumnDescriptorView>,
    dialect: Dialect,
    shape: ResultShapeView,
) -> bool {
    if columns.len() == 0 {
        shape is NoRows
    } else if columns.len() == 1 {
        shape matches ResultShapeView::Scalar(ty) && maps_to(columns[0].ty, dialect, ty)
    } else {
        &&& shape matches ResultShapeView::Record(record)
        &&& record.len() == columns.len()
        &&& forall|i: int|
            0 <= i < columns.len() ==> (#[trigger] record[i]).name == columns[i].name && maps_to(
                columns[i].ty,
                dialect,
                record[i].ty,
            )
    }
}

/// A result has one shape.
pub proof fn lemma_classifies_one(
    columns: Seq<ColumnDescriptorView>,
    dialect: Dialect,
    a: ResultShapeView,
    b: ResultShapeView,
)
    requires
        classifies(columns, dialect, a),
        classifies(columns, dialect, b),
    ensures
        a == b,
{
    if columns.len() == 1 {
        lemma_maps_to_one(columns[0].ty, dialect, a->Scalar_0, b->Scalar_0);
    } else if columns.len() > 1 {
        let x = a->Record_0;
        let y = b->Record_0;
        assert forall|i: int| 0 <= i < x.len() implies x[i] == y[i] by {
            lemma_maps_to_one(columns[i].ty, dialect, x[i].ty, y[i].ty);
        }
        assert(x =~= y);
    }
}

/// The first unsupported column lies in the list and is unsupported, and
/// all before it are supported.
pub proof fn lemma_first_unsupported(columns: Seq<ColumnDescriptorView>, dialect: Dialect, i: int)
    requires
        0 <= i,
    ensures
        match first_unsupported(columns, dialect, i) {
            Some(k) => i <= k < columns.len() && !is_supported(columns[k].ty, dialect)
                && forall|j: int|
                i <= j < k ==> is_supported((#[trigger] columns[j]).ty, dialect),
            None => forall|j: int|
                i <= j < columns.len() ==> is_supported((#[trigger] columns[j]).ty, dialect),
        },
    decreases columns.len() - i,
{
    if i < columns.len() && is_supported(columns[i].ty, dialect) {
        lemma_first_unsupported(columns, dialect, i + 1);
    }
}

/// The shape of a result of the given columns, or the error of the first
/// column whose type has no host type.
pub fn classify(columns: &Vec<ColumnDescriptor>, dialect: Dialect) -> (r: Result<
    ResultShape,
    TypeError,
>)
    ensures
        match r {
            Ok(shape) => first_unsupported(column_views(columns@), dialect, 0) is None
                && classifies(column_views(columns@), dialect, shape@),
            Err(e) => first_unsupported(column_views(columns@), dialect, 0) matches Some(k)
                && e@ == unsupported(column_views(columns@)[k].ty),
        },
{
    let ghost cv = column_views(columns@);
    if columns.len() == 0 {
        return Ok(ResultShape::NoRows);
    }
    if columns.len() == 1 {
        assert(cv[0] == columns@[0]@);
        return match map_type(&columns[0].ty, dialect) {
            Ok(ty) => {
                proof {
                    lemma_first_unsupported(cv, dialect, 1);
                }
                Ok(ResultShape::Scalar(Primitive { ty }))
            },
            Err(e) => Err(e),
        };
    }
    let mut record: Vec<StructColumn> = Vec::new();
    let mut i: usize = 0;
    while i < columns.len()
        invariant
            i <= columns@.len(),
            cv == column_views(columns@),
            record@.len() == i,
            first_unsupported(cv, dialect, 0) == first_unsupported(cv, dialect, i as int),
            forall|k: int|
                0 <= k < i ==> (#[trigger] record@[k])@.name == cv[k].name && maps_to(
                    cv[k].ty,
                    dialect,
                    record@[k]@.ty,
                ),
        decreases columns@.len() - i,
    {
        assert(cv[i as int] == columns@[i as int]@);
        match map_type(&columns[i].ty, dialect) {
            Ok(ty) => {
                record.push(StructColumn { ty, name: columns[i].name.clone() });
            },
            Err(e) => {
                return Err(e);
            },
        }
        i += 1;
    }
    let shape = ResultShape::Record(Struct { columns: record });
    proof {
        let views = shape@->Record_0;
        assert forall|k: int| 0 <= k < cv.len() implies (#[trigger] views[k]).name == cv[k].name
            && maps_to(cv[k].ty, dialect, views[k].ty) by {
            assert(views[k] == record@[k]@);
        }
    }
    Ok(shape)
}

/// How the type that the caller asks for wraps its rows.
#[derive(Debug, Clone, Copy, PartialEq, Eq, Structural)]
pub enum Wrapper {
    /// The bare type: exactly one row.
    Bare,
    /// An option: no row or one.
    Optional,
    /// A sequence: any number of rows.
    Sequence,
}

/// How a query is run.
#[derive(Debug, Clone, Copy, PartialEq, Eq, Structural)]
pub enum Execution {
    /// As a command: no row is read.
    Command,
    /// Exactly one row is read; none is an error.
    ExactlyOne,
    /// No row or one is read.
    ZeroOrOne,
    /// All rows are read.
    Many,
}

/// How a query that gives rows is run for a wrapper.
pub open spec fn execution_of(wrapper: Wrapper) -> Execution {
    match wrapper {
        Wrapper::Bare => Execution::ExactlyOne,
        Wrapper::Optional => Execution::ZeroOrOne,
        Wrapper::Sequence => Execution::Many,
    }
}

/// A field of a record type: its name, the type of its value, whether it
/// may go without a value, and whether it has a default of its own.
#[derive(Debug, PartialEq, Eq)]
pub struct Field {
    pub name: String,
    pub ty: SqlType,
    pub optional: bool,
    pub has_default: bool,
}

/// What a [`Field`] stands for in contracts.
pub struct FieldView {
    pub name: Seq<char>,
    pub ty: SqlTypeView,
    pub optional: bool,
    pub has_default: bool,
}

impl View for Field {
    type V = FieldView;

    open spec fn view(&self) -> FieldView {
        FieldView {
            name: self.name@,
            ty: self.ty@,
            optional: self.optional,
            has_default: self.has_default,
        }
    }
}

/// A type with named fields that a record is read into; it may say that
/// it takes any columns beyond those of its fields.
#[derive(Debug, PartialEq, Eq)]
pub struct RecordType {
    pub fields: Vec<Field>,
    pub any_columns: bool,
}

/// What a [`RecordType`] stands for in contracts.
pub struct RecordTypeView {
    pub fields: Seq<FieldView>,
    pub any_columns: bool,
}

impl View for RecordType {
    type V = RecordTypeView;

    open spec fn view(&self) -> RecordTypeView {
        RecordTypeView {
            fields: self.fields@.map_values(|f: Field| f@),
            any_columns: self.any_columns,
        }
    }
}

/// The type that the caller asks a query's result to be.
#[derive(Debug, PartialEq, Eq)]
pub enum Target {
    /// No value.
    Unit,
    /// Values of one host type.
    Value(Wrapper, SqlType),
    /// Records.
    Record(Wrapper, RecordType),
}

/// What a [`Target`] stands for in contracts.
pub enum TargetView {
    Unit,
    Value(Wrapper, SqlTypeView),
    Record(Wrapper, RecordTypeView),
}

impl View for Target {
    type V = TargetView;

    open spec fn view(&self) -> TargetView {
        match self {
            Target::Unit => TargetView::Unit,
            Target::Value(w, ty) => TargetView::Value(*w, ty@),
            Target::Record(w, record) => TargetView::Record(*w, record@),
        }
    }
}

/// Why a target does not fit a result.
#[derive(Debug, PartialEq, Eq)]
pub enum ShapeError {
    /// The query gives no columns, and the target is not the unit.
    ExpectedUnit,
    /// The query gives one column, and the target is no value.
    ExpectedValue,
    /// The query gives several columns, and the target is no record.
    ExpectedRecord,
    /// The one column's host type is not the target's.
    TypeMismatch,
    /// No column has the name of this field, which must have a value and
    /// has no default.
    MissingColumn(String),
    /// More than one column has the name of this field.
    AmbiguousColumn(String),
    /// The column of this field's name has a type that does not fit the
    /// field's.
    FieldMismatch(String),
    /// No field has the name of this column.
    UnclaimedColumn(String),
}

/// What a [`ShapeError`] stands for in contracts.
pub enum ShapeErrorView {
    ExpectedUnit,
    ExpectedValue,
    ExpectedRecord,
    TypeMismatch,
    MissingColumn(Seq<char>),
    AmbiguousColumn(Seq<char>),
    FieldMismatch(Seq<char>),
    UnclaimedColumn(Seq<char>),
}

impl View for ShapeError {
    type V = ShapeErrorView;

    open spec fn view(&self) -> ShapeErrorView {
        match self {
            ShapeError::ExpectedUnit => ShapeErrorView::ExpectedUnit,
            ShapeError::ExpectedValue => ShapeErrorView::ExpectedValue,
            ShapeError::ExpectedRecord => ShapeErrorView::ExpectedRecord,
            ShapeError::TypeMismatch => ShapeErrorView::TypeMismatch,
            ShapeError::MissingColumn(n) => ShapeErrorView::MissingColumn(n@),
            ShapeError::AmbiguousColumn(n) => ShapeErrorView::AmbiguousColumn(n@),
            ShapeError::FieldMismatch(n) => ShapeErrorView::FieldMismatch(n@),
            ShapeError::UnclaimedColumn(n) => ShapeErrorView::UnclaimedColumn(n@),
        }
    }
}

/// The first column from `i` on that has the name.
pub open spec fn column_named(columns: Seq<StructColumnView>, name: Seq<char>, i: int) -> Option<
    int,
>
    decreases columns.len() - i,
{
    if 0 <= i < columns.len() {
        if columns[i].name == name {
            Some(i)
        } else {
            column_named(columns, name, i + 1)
        }
    } else {
        None
    }
}

/// The first field from `i` on that has the name.
pub open spec fn field_named(fields: Seq<FieldView>, name: Seq<char>, i: int) -> Option<int>
    decreases fields.len() - i,
{
    if 0 <= i < fields.len() {
        if fields[i].name == name {
            Some(i)
        } else {
            field_named(fields, name, i + 1)
        }
    } else {
        None
    }
}

/// What is wrong with a field, if anything: it needs exactly one column of
/// its name, of a type that fits; with no such column it must be optional
/// or have a default.
pub open spec fn field_error(columns: Seq<StructColumnView>, field: FieldView) -> Option<
    ShapeErrorView,
> {
    match column_named(columns, field.name, 0) {
        None => if field.optional || field.has_default {
            None
        } else {
            Some(ShapeErrorView::MissingColumn(field.name))
        },
        Some(k) => if column_named(columns, field.name, k + 1) is Some {
            Some(ShapeErrorView::AmbiguousColumn(field.name))
        } else if satisfies(columns[k].ty, field.ty) {
            None
        } else {
            Some(ShapeErrorView::FieldMismatch(field.name))
        },
    }
}

/// The error of the first field from `i` on that has one.
pub open spec fn first_field_error(
    columns: Seq<StructColumnView>,
    fields: Seq<FieldView>,
    i: int,
) -> Option<ShapeErrorView>
    decreases fields.len() - i,
{
    if 0 <= i < fields.len() {
        match field_error(columns, fields[i]) {
            Some(e) => Some(e),
            None => first_field_error(columns, fields, i + 1),
        }
    } else {
        None
    }
}

/// The error of the first column from `i` on whose name no field has.
pub open spec fn first_unclaimed(
    columns: Seq<StructColumnView>,
    fields: Seq<FieldView>,
    i: int,
) -> Option<ShapeErrorView>
    decreases columns.len() - i,
{
    if 0 <= i < columns.len() {
        if field_named(fields, columns[i].name, 0) is Some {
            first_unclaimed(columns, fields, i + 1)
        } else {
            Some(ShapeErrorView::UnclaimedColumn(columns[i].name))
        }
    } else {
        None
    }
}

/// What is wrong with a record type for these columns, if anything: the
/// fields are held against the columns first, in their order; then,
/// unless the type takes any columns, the columns against the fields.
pub open spec fn record_error(columns: Seq<StructColumnView>, record: RecordTypeView) -> Option<
    ShapeErrorView,
> {
    match first_field_error(columns, record.fields, 0) {
        Some(e) => Some(e),
        None => if record.any_columns {
            None
        } else {
            first_unclaimed(columns, record.fields, 0)
        },
    }
}

/// How a query of this shape is run for this target, or why the target
/// does not fit: no columns take the unit, one column takes values of
/// its own host type, and several columns take a record type that fits
/// them.
pub open spec fn target_outcome(shape: ResultShapeView, target: TargetView) -> Result<
    Execution,
    ShapeErrorView,
> {
    match shape {
        ResultShapeView::NoRows => match target {
            TargetView::Unit => Ok(Execution::Command),
            _ => Err(ShapeErrorView::ExpectedUnit),
        },
        ResultShapeView::Scalar(ty) => match target {
            TargetView::Value(wrapper, asked) => if ty == asked {
                Ok(execution_of(wrapper))
            } else {
                Err(ShapeErrorView::TypeMismatch)
            },
            _ => Err(ShapeErrorView::ExpectedValue),
        },
        ResultShapeView::Record(columns) => match target {
            TargetView::Record(wrapper, record) => match record_error(columns, record) {
                Some(e) => Err(e),
                None => Ok(execution_of(wrapper)),
            },
            _ => Err(ShapeErrorView::ExpectedRecord),
        },
    }
}

/// The first column of a name has the name, and no column before it has.
pub proof fn lemma_column_named(columns: Seq<StructColumnView>, name: Seq<char>, i: int)
    requires
        0 <= i,
    ensures
        match column_named(columns, name, i) {
            Some(k) => i <= k < columns.len() && columns[k].name == name && forall|j: int|
                i <= j < k ==> (#[trigger] columns[j]).name != name,
            None => forall|j: int| i <= j < columns.len() ==> (#[trigger] columns[j]).name != name,
        },
    decreases columns.len() - i,
{
    if i < columns.len() && columns[i].name != name {
        lemma_column_named(columns, name, i + 1);
    }
}

/// Whether a field fits the columns, in words that name no order: where
/// columns have its name, there is one of them only and its type fits;
/// where none has, the field is optional or has a default.
pub open spec fn field_fits(columns: Seq<StructColumnView>, field: FieldView) -> bool {
    if exists|k: int| 0 <= k < columns.len() && (#[trigger] columns[k]).name == field.name {
        exists|k: int|
            0 <= k < columns.len() && (#[trigger] columns[k]).name == field.name && satisfies(
                columns[k].ty,
                field.ty,
            ) && forall|j: int|
                0 <= j < columns.len() && j != k ==> (#[trigger] columns[j]).name != field.name
    } else {
        field.optional || field.has_default
    }
}

/// A field is without error where it fits.
pub proof fn lemma_field_fits(columns: Seq<StructColumnView>, field: FieldView)
    ensures
        field_error(columns, field) is None <==> field_fits(columns, field),
{
    lemma_column_named(columns, field.name, 0);
    if let Some(k) = column_named(columns, field.name, 0) {
        lemma_column_named(columns, field.name, k + 1);
        assert(columns[k].name == field.name);
        if let Some(m) = column_named(columns, field.name, k + 1) {
            assert(columns[m].name == field.name);
        }
    }
}

/// The fields are without error where each of them is.
pub proof fn lemma_first_field_error(
    columns: Seq<StructColumnView>,
    fields: Seq<FieldView>,
    i: int,
)
    requires
        0 <= i,
    ensures
        first_field_error(columns, fields, i) is None <==> forall|k: int|
            i <= k < fields.len() ==> field_error(columns, #[trigger] fields[k]) is None,
    decreases fields.len() - i,
{
    if i < fields.len() {
        lemma_first_field_error(columns, fields, i + 1);
    }
}

/// No column is unclaimed where each has the name of a field.
pub proof fn lemma_first_unclaimed(columns: Seq<StructColumnView>, fields: Seq<FieldView>, i: int)
    requires
        0 <= i,
    ensures
        first_unclaimed(columns, fields, i) is None <==> forall|k: int|
            i <= k < columns.len() ==> field_named(fields, (#[trigger] columns[k]).name, 0)
                is Some,
    decreases columns.len() - i,
{
    if i < columns.len() {
        lemma_first_unclaimed(columns, fields, i + 1);
    }
}

/// Whether `b` holds the columns of `a` in another order: column `i` of
/// `b` is column `to[i]` of `a`, and column `j` of `a` is column
/// `back[j]` of `b`.
pub open spec fn rearranged(
    a: Seq<StructColumnView>,
    b: Seq<StructColumnView>,
    to: Seq<int>,
    back: Seq<int>,
) -> bool {
    &&& a.len() == b.len()
    &&& to.len() == b.len()
    &&& back.len() == a.len()
    &&& forall|i: int|
        0 <= i < b.len() ==> 0 <= #[trigger] to[i] < a.len() && b[i] == a[to[i]] && back[to[i]]
            == i
    &&& forall|j: int|
        0 <= j < a.len() ==> 0 <= #[trigger] back[j] < b.len() && a[j] == b[back[j]]
            && to[back[j]] == j
}

proof fn lemma_field_fits_rearranged(
    a: Seq<StructColumnView>,
    b: Seq<StructColumnView>,
    to: Seq<int>,
    back: Seq<int>,
    field: FieldView,
)
    requires
        rearranged(a, b, to, back),
        field_fits(a, field),
    ensures
        field_fits(b, field),
{
    if exists|k: int| 0 <= k < a.len() && (#[trigger] a[k]).name == field.name {
        let k = choose|k: int|
            0 <= k < a.len() && (#[trigger] a[k]).name == field.name && satisfies(
                a[k].ty,
                field.ty,
            ) && forall|j: int|
                0 <= j < a.len() && j != k ==> (#[trigger] a[j]).name != field.name;
        let m = back[k];
        assert(b[m] == a[k]);
        assert forall|j: int| 0 <= j < b.len() && j != m implies (#[trigger] b[j]).name
            != field.name by {
            assert(b[j] == a[to[j]]);
            assert(back[to[j]] == j);
        }
    } else {
        assert forall|i: int| 0 <= i < b.len() implies (#[trigger] b[i]).name != field.name by {
            assert(b[i] == a[to[i]]);
        }
    }
}

proof fn lemma_record_fits_rearranged(
    a: Seq<StructColumnView>,
    b: Seq<StructColumnView>,
    to: Seq<int>,
    back: Seq<int>,
    record: RecordTypeView,
)
    requires
        rearranged(a, b, to, back),
        record_error(a, record) is None,
    ensures
        record_error(b, record) is None,
{
    lemma_first_field_error(a, record.fields, 0);
    lemma_first_field_error(b, record.fields, 0);
    assert forall|k: int| 0 <= k < record.fields.len() implies field_error(
        b,
        #[trigger] record.fields[k],
    ) is None by {
        lemma_field_fits(a, record.fields[k]);
        lemma_field_fits(b, record.fields[k]);
        lemma_field_fits_rearranged(a, b, to, back, record.fields[k]);
    }
    if !record.any_columns {
        lemma_first_unclaimed(a, record.fields, 0);
        lemma_first_unclaimed(b, record.fields, 0);
        assert forall|k: int| 0 <= k < b.len() implies field_named(
            record.fields,
            (#[trigger] b[k]).name,
            0,
        ) is Some by {
            assert(b[k] == a[to[k]]);
        }
    }
}

/// The order of the columns plays no part in whether a record type fits
/// them: fields and columns are matched by name only.
pub proof fn lemma_column_order_is_immaterial(
    a: Seq<StructColumnView>,
    b: Seq<StructColumnView>,
    to: Seq<int>,
    back: Seq<int>,
    wrapper: Wrapper,
    record: RecordTypeView,
)
    requires
        rearranged(a, b, to, back),
    ensures
        record_error(a, record) is None <==> record_error(b, record) is None,
        target_outcome(ResultShapeView::Record(a), TargetView::Record(wrapper, record)) is Ok
            ==> target_outcome(ResultShapeView::Record(b), TargetView::Record(wrapper, record))
            == target_outcome(ResultShapeView::Record(a), TargetView::Record(wrapper, record)),
{
    if record_error(a, record) is None {
        lemma_record_fits_rearranged(a, b, to, back, record);
    }
    if record_error(b, record) is None {
        lemma_record_fits_rearranged(b, a, back, to, record);
    }
}

fn execution(wrapper: Wrapper) -> (r: Execution)
    ensures
        r == execution_of(wrapper),
{
    match wrapper {
        Wrapper::Bare => Execution::ExactlyOne,
        Wrapper::Optional => Execution::ZeroOrOne,
        Wrapper::Sequence => Execution::Many,
    }
}

fn find_column(columns: &Struct, name: &str, from: usize) -> (r: Option<usize>)
    ensures
        match r {
            Some(k) => column_named(columns@, name@, from as int) == Some(k as int) && k
                < columns.columns@.len(),
            None => column_named(columns@, name@, from as int) is None,
        },
{
    let mut i: usize = from;
    while i < columns.columns.len()
        invariant
            column_named(columns@, name@, from as int) == column_named(columns@, name@, i as int),
        decreases columns.columns@.len() - i,
    {
        assert(columns@[i as int] == columns.columns@[i as int]@);
        if str_eq(columns.columns[i].name.as_str(), name) {
            return Some(i);
        }
        i += 1;
    }
    None
}

fn find_field(record: &RecordType, name: &str) -> (r: bool)
    ensures
        r == field_named(record@.fields, name@, 0) is Some,
{
    let mut i: usize = 0;
    while i < record.fields.len()
        invariant
            field_named(record@.fields, name@, 0) == field_named(record@.fields, name@, i as int),
        decreases record.fields@.len() - i,
    {
        assert(record@.fields[i as int] == record.fields@[i as int]@);
        if str_eq(record.fields[i].name.as_str(), name) {
            return true;
        }
        i += 1;
    }
    false
}

fn check_field(columns: &Struct, field: &Field) -> (r: Option<ShapeError>)
    ensures
        match r {
            Some(e) => field_error(columns@, field@) == Some(e@),
            None => field_error(columns@, field@) is None,
        },
{
    match find_column(columns, field.name.as_str(), 0) {
        None => {
            if field.optional || field.has_default {
                None
            } else {
                Some(ShapeError::MissingColumn(field.name.clone()))
            }
        },
        Some(k) => {
            assert(columns@[k as int] == columns.columns@[k as int]@);
            let n: usize = columns.columns.len();
            assert(k < n);
            match find_column(columns, field.name.as_str(), k + 1) {
                Some(_) => Some(ShapeError::AmbiguousColumn(field.name.clone())),
                None => match Valid::check(&columns.columns[k].ty, &field.ty) {
                    Some(_) => None,
                    None => Some(ShapeError::FieldMismatch(field.name.clone())),
                },
            }
        },
    }
}

fn check_record(columns: &Struct, record: &RecordType) -> (r: Option<ShapeError>)
    ensures
        match r {
            Some(e) => record_error(columns@, record@) == Some(e@),
            None => record_error(columns@, record@) is None,
        },
{
    let mut i: usize = 0;
    while i < record.fields.len()
        invariant
            first_field_error(columns@, record@.fields, 0) == first_field_error(
                columns@,
                record@.fields,
                i as int,
            ),
        decreases record.fields@.len() - i,
    {
        assert(record@.fields[i as int] == record.fields@[i as int]@);
        match check_field(columns, &record.fields[i]) {
            Some(e) => {
                return Some(e);
            },
            None => {},
        }
        i += 1;
    }
    if record.any_columns {
        return None;
    }
    let mut j: usize = 0;
    while j < columns.columns.len()
        invariant
            !record.any_columns,
            first_field_error(columns@, record@.fields, 0) is None,
            first_unclaimed(columns@, record@.fields, 0) == first_unclaimed(
                columns@,
                record@.fields,
                j as int,
            ),
        decreases columns.columns@.len() - j,
    {
        assert(columns@[j as int] == columns.columns@[j as int]@);
        if !find_field(record, columns.columns[j].name.as_str()) {
            return Some(ShapeError::UnclaimedColumn(columns.columns[j].name.clone()));
        }
        j += 1;
    }
    None
}

/// Holds the type that the caller asks for against the shape of the
/// result, and says how the query is to be run.
pub fn check_target(shape: &ResultShape, target: &Target) -> (r: Result<Execution, ShapeError>)
    ensures
        match r {
            Ok(execution) => target_outcome(shape@, target@) == Ok::<Execution, ShapeErrorView>(
                execution,
            ),
            Err(e) => target_outcome(shape@, target@) == Err::<Execution, ShapeErrorView>(e@),
        },
{
    match shape {
        ResultShape::NoRows => match target {
            Target::Unit => Ok(Execution::Command),
            _ => Err(ShapeError::ExpectedUnit),
        },
        ResultShape::Scalar(primitive) => match target {
            Target::Value(wrapper, asked) => if primitive.ty.same(asked) {
                Ok(execution(*wrapper))
            } else {
                Err(ShapeError::TypeMismatch)
            },
            _ => Err(ShapeError::ExpectedValue),
        },
        ResultShape::Record(columns) => match target {
            Target::Record(wrapper, record) => match check_record(columns, record) {
                Some(e) => Err(e),
                None => Ok(execution(*wrapper)),
            },
            _ => Err(ShapeError::ExpectedRecord),
        },
    }
}

} // verus!
