//! From a template and a call to the query that the database gets.

use vstd::prelude::*;

use crate::binder::{
    bind, bind_outcome, bind_token, bind_tokens, expression, start, Arguments, ArgumentsView,
    BindError, BindErrorView, Bound, BoundView, Progress, Slot,
};
use crate::parser::{
    is_plain, lemma_plain_text_is_one_token, parse, template, tokens_from, ParseError,
    ParseErrorView, TokenView,
};
use crate::shape::{
    classifies, classify, column_views, first_unsupported, lemma_classifies_one,
    ColumnDescriptor, ColumnDescriptorView, ResultShape, ResultShapeView,
};
use crate::text::{decimal, push_decimal};
use crate::types::{
    is_supported, lemma_maps_to_one, map_type, maps_to, satisfies, unsupported, Dialect, SqlType,
    SqlTypeView,
    TypeDescriptor, TypeDescriptorView, TypeError, TypeErrorView, Valid,
};

verus! {

/// Why a template does not compile with a call.
#[derive(Debug, PartialEq, Eq)]
pub enum CompileError {
    /// The template is not in the template language.
    Template(ParseError),
    /// The template and the call's arguments do not fit.
    Binding(BindError),
}

/// What a [`CompileError`] stands for in contracts.
pub enum CompileErrorView {
    Template(ParseErrorView),
    Binding(BindErrorView),
}

impl View for CompileError {
    type V = CompileErrorView;

    open spec fn view(&self) -> CompileErrorView {
        match self {
            CompileError::Template(e) => CompileErrorView::Template(e@),
            CompileError::Binding(e) => CompileErrorView::Binding(e@),
        }
    }
}

/// What a template gives with the arguments of a call: the tokens of the
/// template, bound to the arguments.
pub open spec fn compile_outcome(source: Seq<char>, args: ArgumentsView) -> Result<
    BoundView,
    CompileErrorView,
> {
    match template(source) {
        Ok(tokens) => match bind_outcome(tokens, args) {
            Ok(bound) => Ok(bound),
            Err(e) => Err(CompileErrorView::Binding(e)),
        },
        Err(e) => Err(CompileErrorView::Template(e)),
    }
}

/// Compiles a template with the arguments of a call into the query text
/// and the list of its parameters.
pub fn compile(source: &str, args: &Arguments) -> (r: Result<Bound, CompileError>)
    ensures
        match r {
            Ok(bound) => compile_outcome(source@, args@) == Ok::<BoundView, CompileErrorView>(
                bound@,
            ),
            Err(e) => compile_outcome(source@, args@) == Err::<BoundView, CompileErrorView>(e@),
        },
{
    match parse(source) {
        Ok(tokens) => match bind(&tokens, args) {
            Ok(bound) => Ok(bound),
            Err(e) => Err(CompileError::Binding(e)),
        },
        Err(e) => Err(CompileError::Template(e)),
    }
}

/// Doubled braces at the start of a token are one token, which stands for
/// the brace itself: binding it appends that brace to the query and
/// refers to no argument.
pub proof fn lemma_escape_is_literal(
    source: Seq<char>,
    i: int,
    done: Seq<TokenView>,
    before: Progress,
    args: ArgumentsView,
)
    requires
        0 <= i,
        i + 1 < source.len(),
        source[i] == '{' || source[i] == '}',
        source[i + 1] == source[i],
    ensures
        source[i] == '{' ==> tokens_from(source, i, done) == tokens_from(
            source,
            i + 2,
            done.push(TokenView::EscapedCurlyStart),
        ),
        source[i] == '}' ==> tokens_from(source, i, done) == tokens_from(
            source,
            i + 2,
            done.push(TokenView::EscapedCurlyEnd),
        ),
        bind_token(before, TokenView::EscapedCurlyStart, args) == Ok::<Progress, BindErrorView>(
            Progress { text: before.text.push('{'), ..before },
        ),
        bind_token(before, TokenView::EscapedCurlyEnd, args) == Ok::<Progress, BindErrorView>(
            Progress { text: before.text.push('}'), ..before },
        ),
{
}

/// Text without `{`, `}` and `$` passes through as it is: with a call
/// that gives no arguments, the template is its own query and has no
/// parameters.
pub proof fn lemma_plain_text_is_kept(source: Seq<char>, args: ArgumentsView)
    requires
        forall|k: int| 0 <= k < source.len() ==> is_plain(#[trigger] source[k]),
        args.unnamed.len() == 0,
        args.named.len() == 0,
    ensures
        compile_outcome(source, args) == Ok::<BoundView, CompileErrorView>(
            BoundView { query: source, parameters: Seq::empty() },
        ),
{
    let tokens = template(source)->Ok_0;
    if source.len() > 0 {
        lemma_plain_text_is_one_token(source);
        assert(tokens.drop_last() =~= Seq::<TokenView>::empty());
        assert(bind_tokens(tokens.drop_last(), args) == Ok::<Progress, BindErrorView>(start()));
        assert(Seq::<char>::empty() + source =~= source);
    } else {
        assert(source =~= Seq::<char>::empty());
    }
    let done = bind_tokens(tokens, args)->Ok_0;
    assert(done.order =~= Seq::<Slot>::empty());
    assert(done.order.map_values(|slot: Slot| expression(slot, args)) =~= Seq::<
        Seq<char>,
    >::empty());
}

/// What the database says of a prepared statement: the types of its
/// parameters in the order of their numbers, and the columns of its
/// result in their order.
#[derive(Debug, PartialEq, Eq)]
pub struct Described {
    pub parameters: Vec<TypeDescriptor>,
    pub columns: Vec<ColumnDescriptor>,
}

/// What a [`Described`] stands for in contracts.
pub struct DescribedView {
    pub parameters: Seq<TypeDescriptorView>,
    pub columns: Seq<ColumnDescriptorView>,
}

impl View for Described {
    type V = DescribedView;

    open spec fn view(&self) -> DescribedView {
        DescribedView {
            parameters: self.parameters@.map_values(|t: TypeDescriptor| t@),
            columns: column_views(self.columns@),
        }
    }
}

/// A parameter of a query: its expression, and the host type that the
/// expression must have.
#[derive(Debug, PartialEq, Eq)]
pub struct TypedExpr {
    pub expr: String,
    pub ty: SqlType,
}

/// What a [`TypedExpr`] stands for in contracts.
pub struct TypedExprView {
    pub expr: Seq<char>,
    pub ty: SqlTypeView,
}

impl View for TypedExpr {
    type V = TypedExprView;

    open spec fn view(&self) -> TypedExprView {
        TypedExprView { expr: self.expr@, ty: self.ty@ }
    }
}

/// A compiled query: its text, its parameters with their types, and the
/// shape of its result.
#[derive(Debug, PartialEq, Eq)]
pub struct QueryPlan {
    pub text: String,
    pub parameters: Vec<TypedExpr>,
    pub shape: ResultShape,
}

/// What a [`QueryPlan`] stands for in contracts.
pub struct QueryPlanView {
    pub text: Seq<char>,
    pub parameters: Seq<TypedExprView>,
    pub shape: ResultShapeView,
}

impl View for QueryPlan {
    type V = QueryPlanView;

    open spec fn view(&self) -> QueryPlanView {
        QueryPlanView {
            text: self.text@,
            parameters: self.parameters@.map_values(|p: TypedExpr| p@),
            shape: self.shape@,
        }
    }
}

/// Why a bound query and the database's description give no plan.
#[derive(Debug, PartialEq, Eq)]
pub enum PlanError {
    /// The parameter of this place, counted from zero, has a type without
    /// a host type.
    Parameter(usize, TypeError),
    /// A column has a type without a host type.
    Column(TypeError),
}

/// What a [`PlanError`] stands for in contracts.
pub enum PlanErrorView {
    Parameter(nat, TypeErrorView),
    Column(TypeErrorView),
}

impl View for PlanError {
    type V = PlanErrorView;

    open spec fn view(&self) -> PlanErrorView {
        match self {
            PlanError::Parameter(i, e) => PlanErrorView::Parameter(*i as nat, e@),
            PlanError::Column(e) => PlanErrorView::Column(e@),
        }
    }
}

/// How many parameters a plan has: a parameter needs an expression and a
/// type, so the shorter of the two lists decides.
pub open spec fn planned_count(bound: BoundView, described: DescribedView) -> int {
    if bound.parameters.len() <= described.parameters.len() {
        bound.parameters.len() as int
    } else {
        described.parameters.len() as int
    }
}

/// The first parameter from `i` on, below `count`, whose type has no host
/// type.
pub open spec fn first_unsupported_parameter(
    types: Seq<TypeDescriptorView>,
    count: int,
    dialect: Dialect,
    i: int,
) -> Option<int>
    decreases count - i,
{
    if 0 <= i < count {
        if is_supported(types[i], dialect) {
            first_unsupported_parameter(types, count, dialect, i + 1)
        } else {
            Some(i)
        }
    } else {
        None
    }
}

/// Whether `plan` is the plan of a bound query and a description: the
/// text is the query's, each parameter has its expression and the host
/// type of its database type, and the shape is that of the columns.
pub open spec fn plans(
    bound: BoundView,
    described: DescribedView,
    dialect: Dialect,
    plan: QueryPlanView,
) -> bool {
    &&& plan.text == bound.query
    &&& plan.parameters.len() == planned_count(bound, described)
    &&& forall|i: int|
        0 <= i < plan.parameters.len() ==> (#[trigger] plan.parameters[i]).expr
            == bound.parameters[i] && maps_to(
            described.parameters[i],
            dialect,
            plan.parameters[i].ty,
        )
    &&& classifies(described.columns, dialect, plan.shape)
}

/// A bound query and a description have one plan.
pub proof fn lemma_plans_one(
    bound: BoundView,
    described: DescribedView,
    dialect: Dialect,
    a: QueryPlanView,
    b: QueryPlanView,
)
    requires
        plans(bound, described, dialect, a),
        plans(bound, described, dialect, b),
    ensures
        a == b,
{
    lemma_classifies_one(described.columns, dialect, a.shape, b.shape);
    assert forall|i: int| 0 <= i < a.parameters.len() implies a.parameters[i]
        == b.parameters[i] by {
        lemma_maps_to_one(described.parameters[i], dialect, a.parameters[i].ty, b.parameters[i].ty);
    }
    assert(a.parameters =~= b.parameters);
}

/// Puts a bound query and the database's description of it together.
///
/// The parameters come first: the first of them whose type has no host
/// type is the error. Then come the columns.
pub fn plan(bound: &Bound, described: &Described, dialect: Dialect) -> (r: Result<
    QueryPlan,
    PlanError,
>)
    ensures
        match r {
            Ok(p) => {
                &&& plans(bound@, described@, dialect, p@)
                &&& first_unsupported_parameter(
                    described@.parameters,
                    planned_count(bound@, described@),
                    dialect,
                    0,
                ) is None
                &&& first_unsupported(described@.columns, dialect, 0) is None
            },
            Err(PlanError::Parameter(i, e)) => {
                &&& first_unsupported_parameter(
                    described@.parameters,
                    planned_count(bound@, described@),
                    dialect,
                    0,
                ) == Some(i as int)
                &&& e@ == unsupported(described@.parameters[i as int])
            },
            Err(PlanError::Column(e)) => {
                &&& first_unsupported_parameter(
                    described@.parameters,
                    planned_count(bound@, described@),
                    dialect,
                    0,
                ) is None
                &&& first_unsupported(described@.columns, dialect, 0) matches Some(k)
                &&& e@ == unsupported(described@.columns[k].ty)
            },
        },
{
    let ghost types = described@.parameters;
    let ghost exprs = bound@.parameters;
    let count: usize = if bound.parameters.len() <= described.parameters.len() {
        bound.parameters.len()
    } else {
        described.parameters.len()
    };
    let mut parameters: Vec<TypedExpr> = Vec::new();
    let mut i: usize = 0;
    while i < count
        invariant
            i <= count,
            count == planned_count(bound@, described@),
            types == described@.parameters,
            exprs == bound@.parameters,
            parameters@.len() == i,
            first_unsupported_parameter(types, count as int, dialect, 0)
                == first_unsupported_parameter(types, count as int, dialect, i as int),
            forall|k: int|
                0 <= k < i ==> (#[trigger] parameters@[k])@.expr == exprs[k] && maps_to(
                    types[k],
                    dialect,
                    parameters@[k]@.ty,
                ),
        decreases count - i,
    {
        assert(types[i as int] == described.parameters@[i as int]@);
        assert(exprs[i as int] == bound.parameters@[i as int]@);
        match map_type(&described.parameters[i], dialect) {
            Ok(ty) => {
                parameters.push(TypedExpr { expr: bound.parameters[i].clone(), ty });
            },
            Err(e) => {
                return Err(PlanError::Parameter(i, e));
            },
        }
        i += 1;
    }
    match classify(&described.columns, dialect) {
        Ok(shape) => {
            let p = QueryPlan { text: bound.query.clone(), parameters, shape };
            proof {
                let views = p@.parameters;
                assert forall|k: int| 0 <= k < views.len() implies (#[trigger] views[k]).expr
                    == exprs[k] && maps_to(types[k], dialect, views[k].ty) by {
                    assert(views[k] == parameters@[k]@);
                }
            }
            Ok(p)
        },
        Err(e) => Err(PlanError::Column(e)),
    }
}

/// Why the types that the caller declares for the parameters do not fit a
/// plan.
#[derive(Debug, Clone, Copy, PartialEq, Eq, Structural)]
pub enum ParameterError {
    /// The plan has the first number of parameters, the caller declared
    /// the second.
    Count(usize, usize),
    /// The declared type of the parameter of this place, counted from
    /// zero, does not fit.
    Mismatch(usize),
}

/// The first place from `i` on at which the declared type does not fit
/// the parameter's.
pub open spec fn first_mismatch(
    parameters: Seq<TypedExprView>,
    declared: Seq<SqlTypeView>,
    i: int,
) -> Option<int>
    decreases parameters.len() - i,
{
    if 0 <= i < parameters.len() {
        if satisfies(declared[i], parameters[i].ty) {
            first_mismatch(parameters, declared, i + 1)
        } else {
            Some(i)
        }
    } else {
        None
    }
}

/// What holding declared types against the parameters of a plan gives.
pub open spec fn parameters_outcome(
    parameters: Seq<TypedExprView>,
    declared: Seq<SqlTypeView>,
) -> Result<(), ParameterError> {
    if parameters.len() != declared.len() {
        Err(ParameterError::Count(parameters.len() as usize, declared.len() as usize))
    } else {
        match first_mismatch(parameters, declared, 0) {
            Some(i) => Err(ParameterError::Mismatch(i as usize)),
            None => Ok(()),
        }
    }
}

impl QueryPlan {
    /// Holds the types that the caller declares for the parameters, in
    /// the order of the parameters, against the types that the plan asks
    /// for.
    pub fn check_parameters(&self, declared: &Vec<SqlType>) -> (r: Result<(), ParameterError>)
        ensures
            r == parameters_outcome(self@.parameters, declared@.map_values(|t: SqlType| t@)),
    {
        let ghost asked = self@.parameters;
        let ghost given = declared@.map_values(|t: SqlType| t@);
        if self.parameters.len() != declared.len() {
            return Err(ParameterError::Count(self.parameters.len(), declared.len()));
        }
        let mut i: usize = 0;
        while i < self.parameters.len()
            invariant
                i <= self.parameters@.len(),
                self.parameters@.len() == declared@.len(),
                asked == self@.parameters,
                given == declared@.map_values(|t: SqlType| t@),
                first_mismatch(asked, given, 0) == first_mismatch(asked, given, i as int),
            decreases self.parameters@.len() - i,
        {
            assert(asked[i as int] == self.parameters@[i as int]@);
            assert(given[i as int] == declared@[i as int]@);
            match Valid::check(&declared[i], &self.parameters[i].ty) {
                Some(_) => {},
                None => {
                    return Err(ParameterError::Mismatch(i));
                },
            }
            i += 1;
        }
        Ok(())
    }
}

/// A value that can stand as a parameter of a query and shows itself as
/// text.
pub trait ToSql {
    /// The text of the value.
    spec fn shown(&self) -> Seq<char>;

    /// Writes the value as text.
    fn show(&self) -> (r: String)
        ensures
            r@ == self.shown(),
    ;
}

impl ToSql for usize {
    open spec fn shown(&self) -> Seq<char> {
        decimal(*self as nat)
    }

    fn show(&self) -> (r: String) {
        let mut r = String::new();
        push_decimal(&mut r, *self);
        assert(r@ =~= decimal(*self as nat));
        r
    }
}

impl<'a> ToSql for &'a str {
    open spec fn shown(&self) -> Seq<char> {
        self@
    }

    fn show(&self) -> (r: String) {
        (*self).to_owned()
    }
}


} // verus!
