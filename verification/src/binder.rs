//! Binding: the references of a template are matched with the arguments of
//! a call, each argument gets one placeholder number, and the query text
//! and the list of parameters come out.

use vstd::prelude::*;

use crate::parser::{token_views, Argument, ArgumentView, Token, TokenView};
use crate::text::{decimal, push_decimal, str_eq, string_views};

verus! {

/// An argument that goes by a name: `name = expr` in a call, or a variable
/// in scope with the expression that stands for it.
#[derive(Debug, PartialEq, Eq)]
pub struct NamedArgument {
    pub name: String,
    pub expr: String,
}

/// What a [`NamedArgument`] stands for in contracts.
pub struct NamedView {
    pub name: Seq<char>,
    pub expr: Seq<char>,
}

impl View for NamedArgument {
    type V = NamedView;

    open spec fn view(&self) -> NamedView {
        NamedView { name: self.name@, expr: self.expr@ }
    }
}

/// The views of a sequence of named arguments.
pub open spec fn named_views(pool: Seq<NamedArgument>) -> Seq<NamedView> {
    pool.map_values(|a: NamedArgument| a@)
}

/// The three pools that references are resolved in: the unnamed arguments
/// in call order, the named arguments, and the variables in scope.
#[derive(Debug, PartialEq, Eq)]
pub struct Arguments {
    pub unnamed: Vec<String>,
    pub named: Vec<NamedArgument>,
    pub variables: Vec<NamedArgument>,
}

/// What [`Arguments`] stand for in contracts.
pub struct ArgumentsView {
    pub unnamed: Seq<Seq<char>>,
    pub named: Seq<NamedView>,
    pub variables: Seq<NamedView>,
}

impl View for Arguments {
    type V = ArgumentsView;

    open spec fn view(&self) -> ArgumentsView {
        ArgumentsView {
            unnamed: string_views(self.unnamed@),
            named: named_views(self.named@),
            variables: named_views(self.variables@),
        }
    }
}

/// One of the three pools.
#[derive(Debug, Clone, Copy, PartialEq, Eq, Structural)]
pub enum Pool {
    Unnamed,
    Named,
    Variable,
}

/// An argument, by its pool and its place in it.
pub struct Slot {
    pub pool: Pool,
    pub index: int,
}

/// Why a template and a call do not fit.
#[derive(Debug, PartialEq, Eq)]
pub enum BindError {
    /// `{}` stands where the unnamed arguments are used up; the number is
    /// the position that it asks for.
    MissingPosition(usize),
    /// `{N}` names an unnamed argument that the call does not have.
    MissingIndex(usize),
    /// `{name}` names neither a named argument nor a variable.
    MissingName(String),
    /// The unnamed argument of this position is referred to nowhere.
    UnusedPositional(usize),
    /// The named argument of this name is referred to nowhere.
    UnusedNamed(String),
    /// The call's argument of this position is unnamed and follows a named
    /// one.
    PositionalAfterNamed(usize),
}

/// What a [`BindError`] stands for in contracts.
pub enum BindErrorView {
    MissingPosition(nat),
    MissingIndex(nat),
    MissingName(Seq<char>),
    UnusedPositional(nat),
    UnusedNamed(Seq<char>),
    PositionalAfterNamed(nat),
}

impl View for BindError {
    type V = BindErrorView;

    open spec fn view(&self) -> BindErrorView {
        match self {
            BindError::MissingPosition(n) => BindErrorView::MissingPosition(*n as nat),
            BindError::MissingIndex(n) => BindErrorView::MissingIndex(*n as nat),
            BindError::MissingName(name) => BindErrorView::MissingName(name@),
            BindError::UnusedPositional(n) => BindErrorView::UnusedPositional(*n as nat),
            BindError::UnusedNamed(name) => BindErrorView::UnusedNamed(name@),
            BindError::PositionalAfterNamed(n) => BindErrorView::PositionalAfterNamed(*n as nat),
        }
    }
}

/// A bound template: the query with `$1`, `$2`, ... in place of the
/// references, and the expression of each of these parameters in turn.
#[derive(Debug, PartialEq, Eq)]
pub struct Bound {
    pub query: String,
    pub parameters: Vec<String>,
}

/// What a [`Bound`] stands for in contracts.
pub struct BoundView {
    pub query: Seq<char>,
    pub parameters: Seq<Seq<char>>,
}

impl View for Bound {
    type V = BoundView;

    open spec fn view(&self) -> BoundView {
        BoundView { query: self.query@, parameters: string_views(self.parameters@) }
    }
}

/// The first place from `i` on at which `pool` holds `name`.
pub open spec fn position_from(pool: Seq<NamedView>, name: Seq<char>, i: int) -> Option<int>
    decreases pool.len() - i,
{
    if 0 <= i < pool.len() {
        if pool[i].name == name {
            Some(i)
        } else {
            position_from(pool, name, i + 1)
        }
    } else {
        None
    }
}

/// The first place at which `pool` holds `name`.
pub open spec fn position(pool: Seq<NamedView>, name: Seq<char>) -> Option<int> {
    position_from(pool, name, 0)
}

/// The argument that a reference means when `next` unnamed arguments have
/// been taken by `{}` before it: a named argument before a variable of the
/// same name.
pub open spec fn resolve(argument: ArgumentView, next: nat, args: ArgumentsView) -> Result<
    Slot,
    BindErrorView,
> {
    match argument {
        ArgumentView::Next => if next < args.unnamed.len() {
            Ok(Slot { pool: Pool::Unnamed, index: next as int })
        } else {
            Err(BindErrorView::MissingPosition(next))
        },
        ArgumentView::Positional(n) => if n < args.unnamed.len() {
            Ok(Slot { pool: Pool::Unnamed, index: n as int })
        } else {
            Err(BindErrorView::MissingIndex(n))
        },
        ArgumentView::Named(name) => match position(args.named, name) {
            Some(j) => Ok(Slot { pool: Pool::Named, index: j }),
            None => match position(args.variables, name) {
                Some(j) => Ok(Slot { pool: Pool::Variable, index: j }),
                None => Err(BindErrorView::MissingName(name)),
            },
        },
    }
}

/// The expression of the argument in `slot`.
pub open spec fn expression(slot: Slot, args: ArgumentsView) -> Seq<char> {
    match slot.pool {
        Pool::Unnamed => args.unnamed[slot.index],
        Pool::Named => args.named[slot.index].expr,
        Pool::Variable => args.variables[slot.index].expr,
    }
}

/// The placeholder number of `slot` when the slots of `order` have the
/// numbers 1, 2, ... so far: its own if it is among them, else the next.
pub open spec fn number(order: Seq<Slot>, slot: Slot) -> nat {
    if order.contains(slot) {
        (order.index_of(slot) + 1) as nat
    } else {
        order.len() + 1
    }
}

/// `order` with `slot` at its end unless it is in it already.
pub open spec fn record(order: Seq<Slot>, slot: Slot) -> Seq<Slot> {
    if order.contains(slot) {
        order
    } else {
        order.push(slot)
    }
}

/// The native placeholder of a number: `$` and the decimal numeral.
pub open spec fn placeholder(n: nat) -> Seq<char> {
    seq!['$'] + decimal(n)
}

/// How far binding has come: how many `{}` were read, the arguments that
/// were referred to, in the order of their first reference, and the query
/// text so far.
pub struct Progress {
    pub next: nat,
    pub order: Seq<Slot>,
    pub text: Seq<char>,
}

/// Binding before the first token.
pub open spec fn start() -> Progress {
    Progress { next: 0, order: Seq::empty(), text: Seq::empty() }
}

/// Binding one more token.
pub open spec fn bind_token(before: Progress, token: TokenView, args: ArgumentsView) -> Result<
    Progress,
    BindErrorView,
> {
    match token {
        TokenView::Text(text) => Ok(Progress { text: before.text + text, ..before }),
        TokenView::EscapedCurlyStart => Ok(Progress { text: before.text.push('{'), ..before }),
        TokenView::EscapedCurlyEnd => Ok(Progress { text: before.text.push('}'), ..before }),
        TokenView::Argument(argument) => match resolve(argument, before.next, args) {
            Ok(slot) => Ok(
                Progress {
                    next: if argument is Next {
                        before.next + 1
                    } else {
                        before.next
                    },
                    order: record(before.order, slot),
                    text: before.text + placeholder(number(before.order, slot)),
                },
            ),
            Err(e) => Err(e),
        },
    }
}

/// Binding the tokens from the first to the last, up to the first
/// reference that has no argument.
pub open spec fn bind_tokens(tokens: Seq<TokenView>, args: ArgumentsView) -> Result<
    Progress,
    BindErrorView,
>
    decreases tokens.len(),
{
    if tokens.len() == 0 {
        Ok(start())
    } else {
        match bind_tokens(tokens.drop_last(), args) {
            Ok(before) => bind_token(before, tokens.last(), args),
            Err(e) => Err(e),
        }
    }
}

/// The first place from `k` on, below `len`, whose argument of `pool` is
/// not in `order`.
pub open spec fn unused_from(order: Seq<Slot>, pool: Pool, len: nat, k: nat) -> Option<nat>
    decreases len - k,
{
    if k >= len {
        None
    } else if !order.contains(Slot { pool, index: k as int }) {
        Some(k)
    } else {
        unused_from(order, pool, len, k + 1)
    }
}

/// The first argument of the call that `order` leaves out: the unnamed
/// ones come first, then the named ones. Variables may stay unused.
pub open spec fn first_unused(order: Seq<Slot>, args: ArgumentsView) -> Option<BindErrorView> {
    match unused_from(order, Pool::Unnamed, args.unnamed.len(), 0) {
        Some(k) => Some(BindErrorView::UnusedPositional(k)),
        None => match unused_from(order, Pool::Named, args.named.len(), 0) {
            Some(k) => Some(BindErrorView::UnusedNamed(args.named[k as int].name)),
            None => None,
        },
    }
}

/// What binding `tokens` to `args` gives: the first reference without an
/// argument is an error; else the first argument without a reference is
/// one; else the query and its parameters.
pub open spec fn bind_outcome(tokens: Seq<TokenView>, args: ArgumentsView) -> Result<
    BoundView,
    BindErrorView,
> {
    match bind_tokens(tokens, args) {
        Ok(done) => match first_unused(done.order, args) {
            Some(e) => Err(e),
            None => Ok(
                BoundView {
                    query: done.text,
                    parameters: done.order.map_values(|slot: Slot| expression(slot, args)),
                },
            ),
        },
        Err(e) => Err(e),
    }
}

/// The number of arguments in a pool.
pub open spec fn pool_len(pool: Pool, args: ArgumentsView) -> nat {
    match pool {
        Pool::Unnamed => args.unnamed.len(),
        Pool::Named => args.named.len(),
        Pool::Variable => args.variables.len(),
    }
}

/// A first match lies in the pool, holds the name, and nothing before it
/// does.
pub proof fn lemma_position_from(pool: Seq<NamedView>, name: Seq<char>, i: int)
    requires
        0 <= i,
    ensures
        match position_from(pool, name, i) {
            Some(j) => i <= j < pool.len() && pool[j].name == name && forall|k: int|
                i <= k < j ==> (#[trigger] pool[k]).name != name,
            None => forall|k: int| i <= k < pool.len() ==> (#[trigger] pool[k]).name != name,
        },
    decreases pool.len() - i,
{
    if i < pool.len() && pool[i].name != name {
        lemma_position_from(pool, name, i + 1);
    }
}

/// A slot that a reference resolves to lies in its pool.
pub proof fn lemma_resolve_in_pool(argument: ArgumentView, next: nat, args: ArgumentsView)
    ensures
        match resolve(argument, next, args) {
            Ok(slot) => 0 <= slot.index < pool_len(slot.pool, args),
            Err(_) => true,
        },
{
    if let ArgumentView::Named(name) = argument {
        lemma_position_from(args.named, name, 0);
        lemma_position_from(args.variables, name, 0);
    }
}

/// An error at a reference stays the outcome, whatever tokens follow.
pub proof fn lemma_prefix_error(tokens: Seq<TokenView>, args: ArgumentsView, j: int)
    requires
        0 <= j <= tokens.len(),
        bind_tokens(tokens.take(j), args) is Err,
    ensures
        bind_tokens(tokens, args) == bind_tokens(tokens.take(j), args),
    decreases tokens.len() - j,
{
    if j < tokens.len() {
        assert(tokens.take(j + 1).drop_last() =~= tokens.take(j));
        lemma_prefix_error(tokens, args, j + 1);
    } else {
        assert(tokens.take(j) =~= tokens);
    }
}

proof fn lemma_contains_push(order: Seq<Slot>, x: Slot, y: Slot)
    ensures
        order.push(x).contains(y) <==> (order.contains(y) || x == y),
{
    if order.contains(y) {
        let i = choose|i: int| 0 <= i < order.len() && order[i] == y;
        assert(order.push(x)[i] == y);
    }
    if x == y {
        assert(order.push(x)[order.len() as int] == y);
    }
    if order.push(x).contains(y) {
        let i = choose|i: int| 0 <= i < order.push(x).len() && order.push(x)[i] == y;
        if i < order.len() {
            assert(order[i] == y);
        }
    }
}

proof fn lemma_number_at(order: Seq<Slot>, p: int)
    requires
        order.no_duplicates(),
        0 <= p < order.len(),
    ensures
        order.contains(order[p]),
        number(order, order[p]) == p + 1,
{
    assert(order.contains(order[p]));
}

spec fn slot_of(pool: Pool, k: int) -> Slot {
    Slot { pool, index: k }
}

spec fn tracks(index: Seq<Option<usize>>, order: Seq<Slot>, pool: Pool) -> bool {
    forall|k: int|
        0 <= k < index.len() ==> match #[trigger] index[k] {
            Some(p) => 1 <= p <= order.len() && order[p - 1] == slot_of(pool, k),
            None => !order.contains(slot_of(pool, k)),
        }
}

/// Whether every slot of `order` lies in its pool.
pub open spec fn in_pools(order: Seq<Slot>, args: ArgumentsView) -> bool {
    forall|p: int|
        0 <= p < order.len() ==> 0 <= (#[trigger] order[p]).index < pool_len(order[p].pool, args)
}

spec fn expressions_of(parameters: Seq<String>, order: Seq<Slot>, args: ArgumentsView) -> bool {
    &&& parameters.len() == order.len()
    &&& forall|p: int|
        0 <= p < order.len() ==> (#[trigger] parameters[p])@ == expression(order[p], args)
}

proof fn lemma_tracks_push(index: Seq<Option<usize>>, order: Seq<Slot>, pool: Pool, slot: Slot)
    requires
        tracks(index, order, pool),
        slot.pool != pool || slot.index < 0 || slot.index >= index.len(),
    ensures
        tracks(index, order.push(slot), pool),
{
    assert forall|k: int| 0 <= k < index.len() implies match #[trigger] index[k] {
        Some(p) => 1 <= p <= order.push(slot).len() && order.push(slot)[p - 1] == slot_of(pool, k),
        None => !order.push(slot).contains(slot_of(pool, k)),
    } by {
        lemma_contains_push(order, slot, slot_of(pool, k));
    }
}

proof fn lemma_tracks_assign(
    index: Seq<Option<usize>>,
    order: Seq<Slot>,
    pool: Pool,
    k: int,
    p: usize,
)
    requires
        tracks(index, order, pool),
        0 <= k < index.len(),
        index[k] is None,
        p == order.len() + 1,
    ensures
        tracks(index.update(k, Some(p)), order.push(slot_of(pool, k)), pool),
{
    let slot = slot_of(pool, k);
    let after = index.update(k, Some(p));
    assert forall|j: int| 0 <= j < after.len() implies match #[trigger] after[j] {
        Some(q) => 1 <= q <= order.push(slot).len() && order.push(slot)[q - 1] == slot_of(pool, j),
        None => !order.push(slot).contains(slot_of(pool, j)),
    } by {
        lemma_contains_push(order, slot, slot_of(pool, j));
        if j != k {
            assert(after[j] == index[j]);
        }
    }
}

fn find(pool: &Vec<NamedArgument>, name: &str) -> (r: Option<usize>)
    ensures
        match r {
            Some(j) => position(named_views(pool@), name@) == Some(j as int) && j < pool@.len(),
            None => position(named_views(pool@), name@) is None,
        },
{
    let mut j: usize = 0;
    while j < pool.len()
        invariant
            j <= pool@.len(),
            position(named_views(pool@), name@) == position_from(
                named_views(pool@),
                name@,
                j as int,
            ),
        decreases pool@.len() - j,
    {
        assert(named_views(pool@)[j as int] == pool@[j as int]@);
        if str_eq(pool[j].name.as_str(), name) {
            return Some(j);
        }
        j += 1;
    }
    None
}

fn nothing(len: usize) -> (r: Vec<Option<usize>>)
    ensures
        r@.len() == len,
        forall|k: int| 0 <= k < len ==> r@[k] is None,
{
    let mut r: Vec<Option<usize>> = Vec::new();
    while r.len() < len
        invariant
            r@.len() <= len,
            forall|k: int| 0 <= k < r@.len() ==> r@[k] is None,
        decreases len - r@.len(),
    {
        r.push(None);
    }
    r
}

fn first_none(index: &Vec<Option<usize>>, Ghost(order): Ghost<Seq<Slot>>, pool: Pool) -> (r:
    Option<usize>)
    requires
        tracks(index@, order, pool),
    ensures
        match r {
            Some(k) => unused_from(order, pool, index@.len(), 0) == Some(k as nat) && k
                < index@.len(),
            None => unused_from(order, pool, index@.len(), 0) is None,
        },
{
    let mut k: usize = 0;
    while k < index.len()
        invariant
            k <= index@.len(),
            tracks(index@, order, pool),
            unused_from(order, pool, index@.len(), 0) == unused_from(
                order,
                pool,
                index@.len(),
                k as nat,
            ),
        decreases index@.len() - k,
    {
        match index[k] {
            None => {
                assert(index@[k as int] is None);
                return Some(k);
            },
            Some(p) => {
                assert(index@[k as int] == Some(p));
                assert(order[p - 1] == slot_of(pool, k as int));
                assert(order.contains(slot_of(pool, k as int)));
            },
        }
        k += 1;
    }
    None
}

/// Binds the references of `tokens` to the arguments of `args`.
///
/// Each argument that is referred to gets the next number at its first
/// reference and keeps it; the query holds `$` and that number for each
/// reference, `{` and `}` for the doubled braces, and the text as it is.
pub fn bind(tokens: &Vec<Token<'_>>, args: &Arguments) -> (r: Result<Bound, BindError>)
    ensures
        match r {
            Ok(bound) => bind_outcome(token_views(tokens@), args@) == Ok::<
                BoundView,
                BindErrorView,
            >(bound@),
            Err(e) => bind_outcome(token_views(tokens@), args@) == Err::<BoundView, BindErrorView>(
                e@,
            ),
        },
{
    let ghost tv = token_views(tokens@);
    let ghost av = args@;
    let mut query = String::new();
    let mut parameters: Vec<String> = Vec::new();
    let mut unnamed_index = nothing(args.unnamed.len());
    let mut named_index = nothing(args.named.len());
    let mut variable_index = nothing(args.variables.len());
    let mut next: usize = 0;
    let ghost mut order: Seq<Slot> = Seq::empty();
    let mut i: usize = 0;
    proof {
        assert(tv.take(0) =~= Seq::<TokenView>::empty());
    }
    while i < tokens.len()
        invariant
            i <= tokens@.len(),
            tv == token_views(tokens@),
            av == args@,
            bind_tokens(tv.take(i as int), av) == Ok::<Progress, BindErrorView>(
                Progress { next: next as nat, order, text: query@ },
            ),
            next <= i,
            order.no_duplicates(),
            in_pools(order, av),
            expressions_of(parameters@, order, av),
            unnamed_index@.len() == args.unnamed@.len(),
            named_index@.len() == args.named@.len(),
            variable_index@.len() == args.variables@.len(),
            tracks(unnamed_index@, order, Pool::Unnamed),
            tracks(named_index@, order, Pool::Named),
            tracks(variable_index@, order, Pool::Variable),
        decreases tokens@.len() - i,
    {
        let ghost before = Progress { next: next as nat, order, text: query@ };
        proof {
            assert(tv.take(i + 1).drop_last() =~= tv.take(i as int));
            assert(tv.take(i + 1).last() == tokens@[i as int]@);
        }
        match &tokens[i] {
            Token::EscapedCurlyStart => {
                proof {
                    reveal_strlit("{");
                }
                query.append("{");
                assert(query@ =~= before.text.push('{'));
            },
            Token::EscapedCurlyEnd => {
                proof {
                    reveal_strlit("}");
                }
                query.append("}");
                assert(query@ =~= before.text.push('}'));
            },
            Token::Text(text) => {
                query.append(text);
            },
            Token::Argument(argument) => {
                let ghost slot_result = resolve(argument@, next as nat, av);
                proof {
                    lemma_resolve_in_pool(argument@, next as nat, av);
                }
                let (pool, k): (Pool, usize) = match argument {
                    Argument::Next => {
                        if next >= args.unnamed.len() {
                            proof {
                                lemma_prefix_error(tv, av, i + 1);
                            }
                            return Err(BindError::MissingPosition(next));
                        }
                        let k: usize = next;
                        next = next + 1;
                        (Pool::Unnamed, k)
                    },
                    Argument::Positional(n) => {
                        if *n >= args.unnamed.len() {
                            proof {
                                lemma_prefix_error(tv, av, i + 1);
                            }
                            return Err(BindError::MissingIndex(*n));
                        }
                        (Pool::Unnamed, *n)
                    },
                    Argument::Named(name) => match find(&args.named, name) {
                        Some(j) => (Pool::Named, j),
                        None => match find(&args.variables, name) {
                            Some(j) => (Pool::Variable, j),
                            None => {
                                proof {
                                    lemma_prefix_error(tv, av, i + 1);
                                }
                                return Err(BindError::MissingName((*name).to_owned()));
                            },
                        },
                    },
                };
                let ghost slot = slot_of(pool, k as int);
                assert(slot_result == Ok::<Slot, BindErrorView>(slot));
                let known: Option<usize> = match pool {
                    Pool::Unnamed => unnamed_index[k],
                    Pool::Named => named_index[k],
                    Pool::Variable => variable_index[k],
                };
                let number: usize = match known {
                    Some(p) => {
                        proof {
                            lemma_number_at(order, p - 1);
                        }
                        p
                    },
                    None => {
                        let expr: String = match pool {
                            Pool::Unnamed => args.unnamed[k].clone(),
                            Pool::Named => args.named[k].expr.clone(),
                            Pool::Variable => args.variables[k].expr.clone(),
                        };
                        assert(expr@ == expression(slot, av)) by {
                            assert(named_views(args.named@)[k as int] == args.named@[k as int]@
                                || pool != Pool::Named);
                            assert(named_views(args.variables@)[k as int]
                                == args.variables@[k as int]@ || pool != Pool::Variable);
                        }
                        parameters.push(expr);
                        let p: usize = parameters.len();
                        proof {
                            assert(!order.contains(slot));
                            match pool {
                                Pool::Unnamed => {
                                    lemma_tracks_assign(
                                        unnamed_index@,
                                        order,
                                        Pool::Unnamed,
                                        k as int,
                                        p,
                                    );
                                    lemma_tracks_push(named_index@, order, Pool::Named, slot);
                                    lemma_tracks_push(variable_index@, order, Pool::Variable, slot);
                                },
                                Pool::Named => {
                                    lemma_tracks_assign(
                                        named_index@,
                                        order,
                                        Pool::Named,
                                        k as int,
                                        p,
                                    );
                                    lemma_tracks_push(unnamed_index@, order, Pool::Unnamed, slot);
                                    lemma_tracks_push(variable_index@, order, Pool::Variable, slot);
                                },
                                Pool::Variable => {
                                    lemma_tracks_assign(
                                        variable_index@,
                                        order,
                                        Pool::Variable,
                                        k as int,
                                        p,
                                    );
                                    lemma_tracks_push(unnamed_index@, order, Pool::Unnamed, slot);
                                    lemma_tracks_push(named_index@, order, Pool::Named, slot);
                                },
                            }
                            assert(order.push(slot).no_duplicates());
                            order = order.push(slot);
                        }
                        match pool {
                            Pool::Unnamed => {
                                unnamed_index.set(k, Some(p));
                            },
                            Pool::Named => {
                                named_index.set(k, Some(p));
                            },
                            Pool::Variable => {
                                variable_index.set(k, Some(p));
                            },
                        }
                        p
                    },
                };
                assert(number == crate::binder::number(before.order, slot));
                assert(order == record(before.order, slot));
                proof {
                    reveal_strlit("$");
                }
                query.append("$");
                push_decimal(&mut query, number);
                assert(query@ =~= before.text + placeholder(number as nat));
            },
        }
        i += 1;
    }
    proof {
        assert(tv.take(tokens@.len() as int) =~= tv);
    }
    match first_none(&unnamed_index, Ghost(order), Pool::Unnamed) {
        Some(k) => {
            return Err(BindError::UnusedPositional(k));
        },
        None => {},
    }
    match first_none(&named_index, Ghost(order), Pool::Named) {
        Some(k) => {
            assert(named_views(args.named@)[k as int] == args.named@[k as int]@);
            return Err(BindError::UnusedNamed(args.named[k].name.clone()));
        },
        None => {},
    }
    let bound = Bound { query, parameters };
    assert(bound@.parameters =~= order.map_values(|slot: Slot| expression(slot, av)));
    Ok(bound)
}

/// Binding the first `i + 1` tokens is binding the first `i` and then
/// token `i`.
pub proof fn lemma_bind_unfold(tokens: Seq<TokenView>, args: ArgumentsView, i: int)
    requires
        0 <= i < tokens.len(),
    ensures
        bind_tokens(tokens.take(i + 1), args) == match bind_tokens(tokens.take(i), args) {
            Ok(before) => bind_token(before, tokens[i], args),
            Err(e) => Err(e),
        },
{
    assert(tokens.take(i + 1).drop_last() =~= tokens.take(i));
    assert(tokens.take(i + 1).last() == tokens[i]);
}

/// Where all tokens bind, every prefix of them binds.
pub proof fn lemma_prefix_binds(tokens: Seq<TokenView>, args: ArgumentsView, j: int)
    requires
        0 <= j <= tokens.len(),
        bind_tokens(tokens, args) is Ok,
    ensures
        bind_tokens(tokens.take(j), args) is Ok,
{
    if bind_tokens(tokens.take(j), args) is Err {
        lemma_prefix_error(tokens, args, j);
    }
}

/// How far binding has come before token `i`.
pub open spec fn progress_before(tokens: Seq<TokenView>, args: ArgumentsView, i: int) -> Progress {
    bind_tokens(tokens.take(i), args)->Ok_0
}

/// The argument that token `i`, a reference, means.
pub open spec fn slot_at(tokens: Seq<TokenView>, args: ArgumentsView, i: int) -> Slot {
    resolve(tokens[i]->Argument_0, progress_before(tokens, args, i).next, args)->Ok_0
}

/// The placeholder number that the query holds for token `i`, a
/// reference.
pub open spec fn number_at(tokens: Seq<TokenView>, args: ArgumentsView, i: int) -> nat {
    number(progress_before(tokens, args, i).order, slot_at(tokens, args, i))
}

/// The number of `{}` among the tokens.
pub open spec fn count_next(tokens: Seq<TokenView>) -> nat
    decreases tokens.len(),
{
    if tokens.len() == 0 {
        0
    } else if tokens.last() == TokenView::Argument(ArgumentView::Next) {
        count_next(tokens.drop_last()) + 1
    } else {
        count_next(tokens.drop_last())
    }
}

/// The arguments that were referred to are all different, lie in their
/// pools, and as many `{}` were counted as were read.
pub proof fn lemma_progress(tokens: Seq<TokenView>, args: ArgumentsView)
    requires
        bind_tokens(tokens, args) is Ok,
    ensures
        bind_tokens(tokens, args)->Ok_0.order.no_duplicates(),
        in_pools(bind_tokens(tokens, args)->Ok_0.order, args),
        bind_tokens(tokens, args)->Ok_0.next == count_next(tokens),
    decreases tokens.len(),
{
    if tokens.len() > 0 {
        lemma_progress(tokens.drop_last(), args);
        let before = bind_tokens(tokens.drop_last(), args)->Ok_0;
        if let TokenView::Argument(argument) = tokens.last() {
            lemma_resolve_in_pool(argument, before.next, args);
            let slot = resolve(argument, before.next, args)->Ok_0;
            if !before.order.contains(slot) {
                assert(before.order.push(slot).no_duplicates());
            }
        }
    }
}

/// The order of first references only grows: what it was after the first
/// `j` tokens is how it starts in the end.
pub proof fn lemma_order_grows(tokens: Seq<TokenView>, args: ArgumentsView, j: int)
    requires
        0 <= j <= tokens.len(),
        bind_tokens(tokens, args) is Ok,
    ensures
        bind_tokens(tokens.take(j), args) is Ok,
        progress_before(tokens, args, j).order.len() <= bind_tokens(
            tokens,
            args,
        )->Ok_0.order.len(),
        forall|p: int|
            0 <= p < progress_before(tokens, args, j).order.len() ==> bind_tokens(
                tokens,
                args,
            )->Ok_0.order[p] == #[trigger] progress_before(tokens, args, j).order[p],
    decreases tokens.len() - j,
{
    lemma_prefix_binds(tokens, args, j);
    if j < tokens.len() {
        lemma_order_grows(tokens, args, j + 1);
        lemma_bind_unfold(tokens, args, j);
        let here = progress_before(tokens, args, j).order;
        let after = progress_before(tokens, args, j + 1).order;
        let whole = bind_tokens(tokens, args)->Ok_0.order;
        assert(here.len() <= after.len());
        assert forall|p: int| 0 <= p < here.len() implies whole[p] == #[trigger] here[p] by {
            assert(after[p] == here[p]);
            assert(whole[p] == after[p]);
        }
    } else {
        assert(tokens.take(j) =~= tokens);
    }
}

/// After a reference is bound, its argument stands in the order at the
/// place that its number says.
pub proof fn lemma_number_is_place(tokens: Seq<TokenView>, args: ArgumentsView, i: int)
    requires
        0 <= i < tokens.len(),
        tokens[i] is Argument,
        bind_tokens(tokens, args) is Ok,
    ensures
        1 <= number_at(tokens, args, i) <= bind_tokens(tokens, args)->Ok_0.order.len(),
        bind_tokens(tokens, args)->Ok_0.order[number_at(tokens, args, i) - 1] == slot_at(
            tokens,
            args,
            i,
        ),
        resolve(tokens[i]->Argument_0, progress_before(tokens, args, i).next, args) is Ok,
        bind_tokens(tokens.take(i + 1), args)->Ok_0.text == progress_before(tokens, args, i).text
            + placeholder(number_at(tokens, args, i)),
{
    lemma_prefix_binds(tokens, args, i);
    lemma_prefix_binds(tokens, args, i + 1);
    lemma_bind_unfold(tokens, args, i);
    lemma_order_grows(tokens, args, i + 1);
    let before = progress_before(tokens, args, i);
    let after = progress_before(tokens, args, i + 1);
    let slot = slot_at(tokens, args, i);
    let n = number_at(tokens, args, i);
    if before.order.contains(slot) {
        assert(after.order[n - 1] == slot);
    } else {
        assert(after.order[n - 1] == slot);
    }
}

/// Every argument in the order was referred to by a token.
pub proof fn lemma_order_is_referred(tokens: Seq<TokenView>, args: ArgumentsView, slot: Slot)
    requires
        bind_tokens(tokens, args) is Ok,
        bind_tokens(tokens, args)->Ok_0.order.contains(slot),
    ensures
        exists|k: int|
            0 <= k < tokens.len() && tokens[k] is Argument && #[trigger] slot_at(tokens, args, k)
                == slot,
    decreases tokens.len(),
{
    if tokens.len() > 0 {
        let n = tokens.len() - 1;
        let front = tokens.drop_last();
        let before = bind_tokens(front, args)->Ok_0;
        assert(front =~= tokens.take(n));
        if before.order.contains(slot) {
            lemma_order_is_referred(front, args, slot);
            let k = choose|k: int|
                0 <= k < front.len() && front[k] is Argument && #[trigger] slot_at(front, args, k)
                    == slot;
            assert(front.take(k) =~= tokens.take(k));
            assert(slot_at(tokens, args, k) == slot);
        } else {
            let argument = tokens.last()->Argument_0;
            let last = resolve(argument, before.next, args)->Ok_0;
            lemma_contains_push(before.order, last, slot);
            assert(slot_at(tokens, args, n) == slot);
        }
    }
}

/// However often a template refers to one argument, the query holds one
/// placeholder number for it, and the parameter list holds the argument
/// once, at the place of that number.
pub proof fn lemma_one_number_per_argument(
    tokens: Seq<TokenView>,
    args: ArgumentsView,
    i: int,
    j: int,
)
    requires
        bind_outcome(tokens, args) is Ok,
        0 <= i < tokens.len(),
        0 <= j < tokens.len(),
        tokens[i] is Argument,
        tokens[j] is Argument,
        slot_at(tokens, args, i) == slot_at(tokens, args, j),
    ensures
        number_at(tokens, args, i) == number_at(tokens, args, j),
        bind_tokens(tokens.take(i + 1), args)->Ok_0.text == progress_before(tokens, args, i).text
            + placeholder(number_at(tokens, args, i)),
        bind_tokens(tokens.take(j + 1), args)->Ok_0.text == progress_before(tokens, args, j).text
            + placeholder(number_at(tokens, args, i)),
        1 <= number_at(tokens, args, i) <= bind_outcome(tokens, args)->Ok_0.parameters.len(),
        bind_outcome(tokens, args)->Ok_0.parameters[number_at(tokens, args, i) - 1] == expression(
            slot_at(tokens, args, i),
            args,
        ),
        forall|p: int|
            0 <= p < bind_tokens(tokens, args)->Ok_0.order.len() && p != number_at(tokens, args, i)
                - 1 ==> #[trigger] bind_tokens(tokens, args)->Ok_0.order[p] != slot_at(
                tokens,
                args,
                i,
            ),
{
    lemma_progress(tokens, args);
    lemma_number_is_place(tokens, args, i);
    lemma_number_is_place(tokens, args, j);
}

/// Two references that are written alike, by name or by number, mean one
/// argument and hold one placeholder number, wherever they stand in the
/// template.
pub proof fn lemma_same_reference_same_number(
    tokens: Seq<TokenView>,
    args: ArgumentsView,
    i: int,
    j: int,
)
    requires
        bind_outcome(tokens, args) is Ok,
        0 <= i < tokens.len(),
        0 <= j < tokens.len(),
        tokens[i] is Argument,
        tokens[i] != TokenView::Argument(ArgumentView::Next),
        tokens[j] == tokens[i],
    ensures
        slot_at(tokens, args, i) == slot_at(tokens, args, j),
        number_at(tokens, args, i) == number_at(tokens, args, j),
{
    lemma_one_number_per_argument(tokens, args, i, j);
}

/// Placeholder numbers follow the order of first reference in the
/// template: a reference that is the first to its argument gets a greater
/// number than every reference before it.
pub proof fn lemma_first_reference_order(
    tokens: Seq<TokenView>,
    args: ArgumentsView,
    i: int,
    j: int,
)
    requires
        bind_outcome(tokens, args) is Ok,
        0 <= i < j < tokens.len(),
        tokens[i] is Argument,
        tokens[j] is Argument,
        forall|k: int|
            0 <= k < j && tokens[k] is Argument ==> #[trigger] slot_at(tokens, args, k) != slot_at(
                tokens,
                args,
                j,
            ),
    ensures
        number_at(tokens, args, i) < number_at(tokens, args, j),
        number_at(tokens, args, j) == progress_before(tokens, args, j).order.len() + 1,
{
    let front = tokens.take(j);
    let slot = slot_at(tokens, args, j);
    lemma_prefix_binds(tokens, args, j);
    if progress_before(tokens, args, j).order.contains(slot) {
        lemma_order_is_referred(front, args, slot);
        let k = choose|k: int|
            0 <= k < front.len() && front[k] is Argument && #[trigger] slot_at(front, args, k)
                == slot;
        assert(front.take(k) =~= tokens.take(k));
        assert(slot_at(tokens, args, k) == slot);
    }
    assert(front.take(i) =~= tokens.take(i));
    assert(slot_at(front, args, i) == slot_at(tokens, args, i));
    lemma_number_is_place(front, args, i);
}

/// Whether no two arguments of the pool have one name.
pub open spec fn distinct_names(pool: Seq<NamedView>) -> bool {
    forall|j: int, k: int|
        0 <= j < k < pool.len() ==> (#[trigger] pool[j]).name != (#[trigger] pool[k]).name
}

/// Whether two calls differ at most in the order in which they give their
/// named arguments, none of which comes twice.
pub open spec fn reordered(a: ArgumentsView, b: ArgumentsView) -> bool {
    &&& a.unnamed == b.unnamed
    &&& a.variables == b.variables
    &&& distinct_names(a.named)
    &&& distinct_names(b.named)
    &&& forall|j: int| 0 <= j < a.named.len() ==> b.named.contains(#[trigger] a.named[j])
    &&& forall|k: int| 0 <= k < b.named.len() ==> a.named.contains(#[trigger] b.named[k])
}

/// The argument of the call `b` that the argument `slot` of the call `a`
/// is: a named argument is found by its name, any other stays in place.
pub open spec fn counterpart(slot: Slot, a: ArgumentsView, b: ArgumentsView) -> Slot {
    match slot.pool {
        Pool::Named => match position(b.named, a.named[slot.index].name) {
            Some(k) => Slot { pool: Pool::Named, index: k },
            None => slot,
        },
        _ => slot,
    }
}

/// The counterparts of the arguments of an order.
pub open spec fn counterparts(order: Seq<Slot>, a: ArgumentsView, b: ArgumentsView) -> Seq<Slot> {
    order.map_values(|slot: Slot| counterpart(slot, a, b))
}

/// Where no name comes twice, a name is found at the place of its
/// argument.
pub proof fn lemma_position_distinct(pool: Seq<NamedView>, k: int)
    requires
        distinct_names(pool),
        0 <= k < pool.len(),
    ensures
        position(pool, pool[k].name) == Some(k),
{
    lemma_position_from(pool, pool[k].name, 0);
    let j = position(pool, pool[k].name)->Some_0;
    if j < k {
        assert(pool[j].name != pool[k].name);
    }
}

/// The counterpart of a named argument is that argument in the other
/// call.
pub proof fn lemma_counterpart(a: ArgumentsView, b: ArgumentsView, j: int)
    requires
        reordered(a, b),
        0 <= j < a.named.len(),
    ensures
        counterpart(Slot { pool: Pool::Named, index: j }, a, b).pool == Pool::Named,
        0 <= counterpart(Slot { pool: Pool::Named, index: j }, a, b).index < b.named.len(),
        b.named[counterpart(Slot { pool: Pool::Named, index: j }, a, b).index] == a.named[j],
{
    assert(b.named.contains(a.named[j]));
    let k = choose|k: int| 0 <= k < b.named.len() && b.named[k] == a.named[j];
    lemma_position_distinct(b.named, k);
}

/// A reference means in the one call the counterpart of what it means in
/// the other, and finds nothing in the one where it finds nothing in the
/// other.
pub proof fn lemma_resolve_reordered(
    argument: ArgumentView,
    next: nat,
    a: ArgumentsView,
    b: ArgumentsView,
)
    requires
        reordered(a, b),
    ensures
        resolve(argument, next, b) == match resolve(argument, next, a) {
            Ok(slot) => Ok::<Slot, BindErrorView>(counterpart(slot, a, b)),
            Err(e) => Err(e),
        },
{
    if let ArgumentView::Named(name) = argument {
        lemma_position_from(a.named, name, 0);
        lemma_position_from(b.named, name, 0);
        match position(a.named, name) {
            Some(j) => {
                lemma_counterpart(a, b, j);
            },
            None => {
                if let Some(k) = position(b.named, name) {
                    assert(a.named.contains(b.named[k]));
                    let j = choose|j: int| 0 <= j < a.named.len() && a.named[j] == b.named[k];
                    assert(a.named[j].name == name);
                }
            },
        }
    }
}

/// Different arguments have different counterparts.
pub proof fn lemma_counterpart_injective(s: Slot, t: Slot, a: ArgumentsView, b: ArgumentsView)
    requires
        reordered(a, b),
        0 <= s.index < pool_len(s.pool, a),
        0 <= t.index < pool_len(t.pool, a),
        counterpart(s, a, b) == counterpart(t, a, b),
    ensures
        s == t,
{
    if s.pool == Pool::Named {
        lemma_counterpart(a, b, s.index);
    }
    if t.pool == Pool::Named {
        lemma_counterpart(a, b, t.index);
    }
    if s.pool == Pool::Named && t.pool == Pool::Named && s.index != t.index {
        if s.index < t.index {
            assert(a.named[s.index].name != a.named[t.index].name);
        } else {
            assert(a.named[t.index].name != a.named[s.index].name);
        }
    }
}

/// An argument is in an order where its counterpart is in the order of
/// the counterparts, and has the same number there.
pub proof fn lemma_counterparts(order: Seq<Slot>, slot: Slot, a: ArgumentsView, b: ArgumentsView)
    requires
        reordered(a, b),
        order.no_duplicates(),
        in_pools(order, a),
        0 <= slot.index < pool_len(slot.pool, a),
    ensures
        counterparts(order, a, b).no_duplicates(),
        counterparts(order, a, b).contains(counterpart(slot, a, b)) == order.contains(slot),
        number(counterparts(order, a, b), counterpart(slot, a, b)) == number(order, slot),
        counterparts(record(order, slot), a, b) == record(
            counterparts(order, a, b),
            counterpart(slot, a, b),
        ),
{
    let other = counterparts(order, a, b);
    let twin = counterpart(slot, a, b);
    assert forall|p: int, q: int| 0 <= p < other.len() && 0 <= q < other.len() && p != q implies other[p]
        != other[q] by {
        if other[p] == other[q] {
            lemma_counterpart_injective(order[p], order[q], a, b);
        }
    }
    if order.contains(slot) {
        let p = choose|p: int| 0 <= p < order.len() && order[p] == slot;
        assert(other[p] == twin);
        assert(other[order.index_of(slot)] == twin);
    }
    if other.contains(twin) {
        let p = choose|p: int| 0 <= p < other.len() && other[p] == twin;
        lemma_counterpart_injective(order[p], slot, a, b);
        assert(order[p] == slot);
    }
    assert(counterparts(record(order, slot), a, b) =~= record(other, twin));
}

/// Binding a template to two calls that differ in the order of their
/// named arguments comes equally far: to the same text, to the same
/// arguments in the same order of first reference, or to the same error.
pub proof fn lemma_bind_tokens_reordered(tokens: Seq<TokenView>, a: ArgumentsView, b: ArgumentsView)
    requires
        reordered(a, b),
    ensures
        bind_tokens(tokens, b) == match bind_tokens(tokens, a) {
            Ok(p) => Ok::<Progress, BindErrorView>(
                Progress { next: p.next, order: counterparts(p.order, a, b), text: p.text },
            ),
            Err(e) => Err(e),
        },
    decreases tokens.len(),
{
    if tokens.len() == 0 {
        assert(counterparts(Seq::<Slot>::empty(), a, b) =~= Seq::<Slot>::empty());
    } else {
        lemma_bind_tokens_reordered(tokens.drop_last(), a, b);
        if let Ok(before) = bind_tokens(tokens.drop_last(), a) {
            lemma_progress(tokens.drop_last(), a);
            if let TokenView::Argument(argument) = tokens.last() {
                lemma_resolve_reordered(argument, before.next, a, b);
                lemma_resolve_in_pool(argument, before.next, a);
                if let Ok(slot) = resolve(argument, before.next, a) {
                    lemma_counterparts(before.order, slot, a, b);
                }
            }
        }
    }
}

/// The first place from `k` on that is not in the order is not in it, and
/// where there is none, every place from `k` on is in it.
proof fn lemma_unused_from(order: Seq<Slot>, pool: Pool, len: nat, k: nat)
    ensures
        match unused_from(order, pool, len, k) {
            Some(m) => k <= m < len && !order.contains(Slot { pool, index: m as int }),
            None => forall|j: int|
                k <= j < len ==> order.contains(#[trigger] slot_of(pool, j)),
        },
    decreases len - k,
{
    if k < len && order.contains(Slot { pool, index: k as int }) {
        lemma_unused_from(order, pool, len, k + 1);
        assert(slot_of(pool, k as int) == Slot { pool, index: k as int });
    }
}

proof fn lemma_all_used_reordered(order: Seq<Slot>, a: ArgumentsView, b: ArgumentsView)
    requires
        reordered(a, b),
        order.no_duplicates(),
        in_pools(order, a),
        first_unused(order, a) is None,
    ensures
        first_unused(counterparts(order, a, b), b) is None,
{
    let other = counterparts(order, a, b);
    lemma_unused_from(order, Pool::Unnamed, a.unnamed.len(), 0);
    lemma_unused_from(order, Pool::Named, a.named.len(), 0);
    lemma_unused_from(other, Pool::Unnamed, b.unnamed.len(), 0);
    lemma_unused_from(other, Pool::Named, b.named.len(), 0);
    if let Some(m) = unused_from(other, Pool::Unnamed, b.unnamed.len(), 0) {
        let slot = slot_of(Pool::Unnamed, m as int);
        assert(order.contains(slot));
        lemma_counterparts(order, slot, a, b);
    } else if let Some(m) = unused_from(other, Pool::Named, b.named.len(), 0) {
        assert(a.named.contains(b.named[m as int]));
        let j = choose|j: int| 0 <= j < a.named.len() && a.named[j] == b.named[m as int];
        let slot = slot_of(Pool::Named, j);
        assert(order.contains(slot));
        lemma_position_distinct(b.named, m as int);
        lemma_counterparts(order, slot, a, b);
    }
}

/// The order in which a call gives its named arguments plays no part:
/// two calls that differ in nothing else give the same query and the same
/// parameters, or both give none.
pub proof fn lemma_call_order_is_immaterial(
    tokens: Seq<TokenView>,
    a: ArgumentsView,
    b: ArgumentsView,
)
    requires
        reordered(a, b),
    ensures
        bind_outcome(tokens, a) is Ok <==> bind_outcome(tokens, b) is Ok,
        bind_outcome(tokens, a) is Ok ==> bind_outcome(tokens, b) == bind_outcome(tokens, a),
{
    lemma_bind_tokens_reordered(tokens, a, b);
    lemma_bind_tokens_reordered(tokens, b, a);
    if let Ok(p) = bind_tokens(tokens, a) {
        let q = bind_tokens(tokens, b)->Ok_0;
        lemma_progress(tokens, a);
        lemma_progress(tokens, b);
        if first_unused(p.order, a) is None {
            lemma_all_used_reordered(p.order, a, b);
        }
        if first_unused(q.order, b) is None {
            lemma_all_used_reordered(q.order, b, a);
        }
        if bind_outcome(tokens, a) is Ok {
            let left = p.order.map_values(|slot: Slot| expression(slot, a));
            let right = q.order.map_values(|slot: Slot| expression(slot, b));
            assert forall|i: int| 0 <= i < left.len() implies left[i] == right[i] by {
                if p.order[i].pool == Pool::Named {
                    lemma_counterpart(a, b, p.order[i].index);
                }
            }
            assert(left =~= right);
        }
    }
}

/// Where some place from `k` on is not in the order, there is a first.
pub proof fn lemma_unused_found(order: Seq<Slot>, pool: Pool, len: nat, k: nat, missing: nat)
    requires
        k <= missing < len,
        !order.contains(Slot { pool, index: missing as int }),
    ensures
        unused_from(order, pool, len, k) is Some,
    decreases len - k,
{
    if order.contains(Slot { pool, index: k as int }) {
        lemma_unused_found(order, pool, len, k + 1, missing);
    }
}

/// An argument of the call, unnamed or named, that no reference of the
/// template means is always an error.
pub proof fn lemma_unused_argument_is_error(
    tokens: Seq<TokenView>,
    args: ArgumentsView,
    slot: Slot,
)
    requires
        slot.pool != Pool::Variable,
        0 <= slot.index < pool_len(slot.pool, args),
        forall|k: int|
            0 <= k < tokens.len() && tokens[k] is Argument && bind_tokens(tokens.take(k + 1), args)
                is Ok ==> #[trigger] slot_at(tokens, args, k) != slot,
    ensures
        bind_outcome(tokens, args) is Err,
{
    if bind_tokens(tokens, args) is Ok {
        let order = bind_tokens(tokens, args)->Ok_0.order;
        if order.contains(slot) {
            lemma_order_is_referred(tokens, args, slot);
            let k = choose|k: int|
                0 <= k < tokens.len() && tokens[k] is Argument && #[trigger] slot_at(
                    tokens,
                    args,
                    k,
                ) == slot;
            lemma_prefix_binds(tokens, args, k + 1);
        }
        lemma_unused_found(order, slot.pool, pool_len(slot.pool, args), 0, slot.index as nat);
    }
}

/// A named argument whose name stands in no reference is always an error.
pub proof fn lemma_unused_name_is_error(tokens: Seq<TokenView>, args: ArgumentsView, j: int)
    requires
        0 <= j < args.named.len(),
        forall|k: int|
            0 <= k < tokens.len() ==> #[trigger] tokens[k] != TokenView::Argument(
                ArgumentView::Named(args.named[j].name),
            ),
    ensures
        bind_outcome(tokens, args) is Err,
{
    let slot = Slot { pool: Pool::Named, index: j };
    assert forall|k: int|
        0 <= k < tokens.len() && tokens[k] is Argument && bind_tokens(tokens.take(k + 1), args)
            is Ok implies #[trigger] slot_at(tokens, args, k) != slot by {
        lemma_bind_unfold(tokens, args, k);
        if let ArgumentView::Named(name) = tokens[k]->Argument_0 {
            lemma_position_from(args.named, name, 0);
        }
    }
    lemma_unused_argument_is_error(tokens, args, slot);
}

/// An unnamed argument that no `{N}` names and that the `{}` of the
/// template do not reach is always an error.
pub proof fn lemma_unused_position_is_error(tokens: Seq<TokenView>, args: ArgumentsView, n: nat)
    requires
        n < args.unnamed.len(),
        count_next(tokens) <= n,
        forall|k: int|
            0 <= k < tokens.len() ==> #[trigger] tokens[k] != TokenView::Argument(
                ArgumentView::Positional(n),
            ),
    ensures
        bind_outcome(tokens, args) is Err,
{
    let slot = Slot { pool: Pool::Unnamed, index: n as int };
    assert forall|k: int|
        0 <= k < tokens.len() && tokens[k] is Argument && bind_tokens(tokens.take(k + 1), args)
            is Ok implies #[trigger] slot_at(tokens, args, k) != slot by {
        lemma_bind_unfold(tokens, args, k);
        lemma_progress(tokens.take(k + 1), args);
        lemma_count_next_grows(tokens, k + 1);
    }
    lemma_unused_argument_is_error(tokens, args, slot);
}

/// A prefix holds no more `{}` than the whole.
pub proof fn lemma_count_next_grows(tokens: Seq<TokenView>, j: int)
    requires
        0 <= j <= tokens.len(),
    ensures
        count_next(tokens.take(j)) <= count_next(tokens),
    decreases tokens.len() - j,
{
    if j < tokens.len() {
        lemma_count_next_grows(tokens, j + 1);
        assert(tokens.take(j + 1).drop_last() =~= tokens.take(j));
    } else {
        assert(tokens.take(j) =~= tokens);
    }
}

/// Whether a reference finds nothing: `{}` after as many `{}` as there are
/// unnamed arguments, `{N}` beyond them, or `{name}` that neither a named
/// argument nor a variable has.
pub open spec fn finds_nothing(tokens: Seq<TokenView>, args: ArgumentsView, i: int) -> bool {
    match tokens[i] {
        TokenView::Argument(ArgumentView::Next) => count_next(tokens.take(i))
            >= args.unnamed.len(),
        TokenView::Argument(ArgumentView::Positional(n)) => n >= args.unnamed.len(),
        TokenView::Argument(ArgumentView::Named(name)) => {
            &&& forall|j: int| 0 <= j < args.named.len() ==> (#[trigger] args.named[j]).name != name
            &&& forall|j: int|
                0 <= j < args.variables.len() ==> (#[trigger] args.variables[j]).name != name
        },
        _ => false,
    }
}

/// A reference that finds neither an argument nor a variable is always an
/// error.
pub proof fn lemma_missing_argument_is_error(tokens: Seq<TokenView>, args: ArgumentsView, i: int)
    requires
        0 <= i < tokens.len(),
        finds_nothing(tokens, args, i),
    ensures
        bind_outcome(tokens, args) is Err,
{
    if bind_tokens(tokens.take(i), args) is Ok {
        lemma_bind_unfold(tokens, args, i);
        lemma_progress(tokens.take(i), args);
        if let TokenView::Argument(ArgumentView::Named(name)) = tokens[i] {
            lemma_position_from(args.named, name, 0);
            lemma_position_from(args.variables, name, 0);
        }
        assert(bind_tokens(tokens.take(i + 1), args) is Err);
        lemma_prefix_error(tokens, args, i + 1);
    } else {
        lemma_prefix_error(tokens, args, i);
    }
}


/// An argument as a call writes it: `expr`, or `name = expr`.
#[derive(Debug, PartialEq, Eq)]
pub enum CallArgument {
    Unnamed(String),
    Named(String, String),
}

/// What a [`CallArgument`] stands for in contracts.
pub enum CallArgumentView {
    Unnamed(Seq<char>),
    Named(Seq<char>, Seq<char>),
}

impl View for CallArgument {
    type V = CallArgumentView;

    open spec fn view(&self) -> CallArgumentView {
        match self {
            CallArgument::Unnamed(expr) => CallArgumentView::Unnamed(expr@),
            CallArgument::Named(name, expr) => CallArgumentView::Named(name@, expr@),
        }
    }
}

/// The views of the arguments of a call.
pub open spec fn call_views(call: Seq<CallArgument>) -> Seq<CallArgumentView> {
    call.map_values(|a: CallArgument| a@)
}

/// The unnamed and the named arguments of a call.
pub struct Collected {
    pub unnamed: Seq<Seq<char>>,
    pub named: Seq<NamedView>,
}

/// `named` with `expr` under `name`: in place of what the name had, or at
/// the end.
pub open spec fn upsert(named: Seq<NamedView>, name: Seq<char>, expr: Seq<char>) -> Seq<
    NamedView,
> {
    match position(named, name) {
        Some(j) => named.update(j, NamedView { name, expr }),
        None => named.push(NamedView { name, expr }),
    }
}

/// The arguments of a call, sorted into the unnamed and the named: a name
/// that comes twice keeps its last expression, and an unnamed argument
/// after a named one is an error.
pub open spec fn collect(call: Seq<CallArgumentView>) -> Result<Collected, BindErrorView>
    decreases call.len(),
{
    if call.len() == 0 {
        Ok(Collected { unnamed: Seq::empty(), named: Seq::empty() })
    } else {
        match collect(call.drop_last()) {
            Ok(before) => match call.last() {
                CallArgumentView::Unnamed(expr) => if before.named.len() > 0 {
                    Err(BindErrorView::PositionalAfterNamed((call.len() - 1) as nat))
                } else {
                    Ok(Collected { unnamed: before.unnamed.push(expr), ..before })
                },
                CallArgumentView::Named(name, expr) => Ok(
                    Collected { named: upsert(before.named, name, expr), ..before },
                ),
            },
            Err(e) => Err(e),
        }
    }
}

/// An error in a call stays the outcome, whatever arguments follow.
pub proof fn lemma_collect_error(call: Seq<CallArgumentView>, j: int)
    requires
        0 <= j <= call.len(),
        collect(call.take(j)) is Err,
    ensures
        collect(call) == collect(call.take(j)),
    decreases call.len() - j,
{
    if j < call.len() {
        assert(call.take(j + 1).drop_last() =~= call.take(j));
        lemma_collect_error(call, j + 1);
    } else {
        assert(call.take(j) =~= call);
    }
}

/// The named arguments of a call hold no name twice.
pub proof fn lemma_collect_distinct(call: Seq<CallArgumentView>)
    requires
        collect(call) is Ok,
    ensures
        distinct_names(collect(call)->Ok_0.named),
    decreases call.len(),
{
    if call.len() > 0 {
        lemma_collect_distinct(call.drop_last());
        let before = collect(call.drop_last())->Ok_0.named;
        if let CallArgumentView::Named(name, expr) = call.last() {
            lemma_position_from(before, name, 0);
            let after = upsert(before, name, expr);
            assert forall|j: int, k: int| 0 <= j < k < after.len() implies (#[trigger] after[j]).name
                != (#[trigger] after[k]).name by {
                if k < before.len() {
                    assert(before[j].name != before[k].name);
                } else {
                    assert(before[j].name != name);
                }
            }
        }
    }
}

impl Arguments {
    /// The pools of a call: its arguments sorted into the unnamed and the
    /// named, beside the variables in scope.
    pub fn from_call(call: &Vec<CallArgument>, variables: Vec<NamedArgument>) -> (r: Result<
        Arguments,
        BindError,
    >)
        ensures
            match r {
                Ok(args) => collect(call_views(call@)) == Ok::<Collected, BindErrorView>(
                    Collected { unnamed: args@.unnamed, named: args@.named },
                ) && args.variables == variables && distinct_names(args@.named),
                Err(e) => collect(call_views(call@)) == Err::<Collected, BindErrorView>(e@),
            },
    {
        let ghost cv = call_views(call@);
        let mut unnamed: Vec<String> = Vec::new();
        let mut named: Vec<NamedArgument> = Vec::new();
        let mut i: usize = 0;
        proof {
            assert(cv.take(0) =~= Seq::<CallArgumentView>::empty());
            assert(string_views(unnamed@) =~= Seq::<Seq<char>>::empty());
            assert(named_views(named@) =~= Seq::<NamedView>::empty());
        }
        while i < call.len()
            invariant
                i <= call@.len(),
                cv == call_views(call@),
                collect(cv.take(i as int)) == Ok::<Collected, BindErrorView>(
                    Collected { unnamed: string_views(unnamed@), named: named_views(named@) },
                ),
            decreases call@.len() - i,
        {
            let ghost before = Collected {
                unnamed: string_views(unnamed@),
                named: named_views(named@),
            };
            proof {
                assert(cv.take(i + 1).drop_last() =~= cv.take(i as int));
                assert(cv.take(i + 1).last() == call@[i as int]@);
            }
            match &call[i] {
                CallArgument::Unnamed(expr) => {
                    if named.len() > 0 {
                        proof {
                            lemma_collect_error(cv, i + 1);
                        }
                        return Err(BindError::PositionalAfterNamed(i));
                    }
                    unnamed.push(expr.clone());
                    assert(string_views(unnamed@) =~= before.unnamed.push(expr@));
                },
                CallArgument::Named(name, expr) => {
                    let entry = NamedArgument { name: name.clone(), expr: expr.clone() };
                    match find(&named, name.as_str()) {
                        Some(j) => {
                            named.set(j, entry);
                            assert(named_views(named@) =~= before.named.update(
                                j as int,
                                NamedView { name: name@, expr: expr@ },
                            ));
                        },
                        None => {
                            named.push(entry);
                            assert(named_views(named@) =~= before.named.push(
                                NamedView { name: name@, expr: expr@ },
                            ));
                        },
                    }
                },
            }
            i += 1;
        }
        proof {
            assert(cv.take(call@.len() as int) =~= cv);
            lemma_collect_distinct(cv);
        }
        Ok(Arguments { unnamed, named, variables })
    }
}

/// The last place below `i` at which the call gives an argument of the
/// name.
pub open spec fn last_named(call: Seq<CallArgumentView>, name: Seq<char>, i: int) -> Option<int>
    decreases i,
{
    if 0 < i <= call.len() {
        match call[i - 1] {
            CallArgumentView::Named(n, _) if n == name => Some(i - 1),
            _ => last_named(call, name, i - 1),
        }
    } else {
        None
    }
}

/// The argument of the call that an error is about, by its place in the
/// call: the unnamed argument that follows a named one, the unnamed
/// argument that is not used, or the argument that gave the unused name
/// its expression. An error about a reference is about no argument.
pub open spec fn culprit_of(e: BindErrorView, call: Seq<CallArgumentView>) -> Option<int> {
    match e {
        BindErrorView::PositionalAfterNamed(p) => if p < call.len() {
            Some(p as int)
        } else {
            None
        },
        BindErrorView::UnusedPositional(n) => if n < call.len() && call[n as int] is Unnamed {
            Some(n as int)
        } else {
            None
        },
        BindErrorView::UnusedNamed(name) => last_named(call, name, call.len() as int),
        _ => None,
    }
}

/// The variables that a template takes from the scope around it: one for
/// each reference by name, which stands for itself.
pub open spec fn free_variables_of(tokens: Seq<TokenView>) -> Seq<NamedView>
    decreases tokens.len(),
{
    if tokens.len() == 0 {
        Seq::empty()
    } else {
        let before = free_variables_of(tokens.drop_last());
        match tokens.last() {
            TokenView::Argument(ArgumentView::Named(name)) => before.push(
                NamedView { name, expr: name },
            ),
            _ => before,
        }
    }
}

/// The variables that a template takes from the scope around it.
pub fn free_variables(tokens: &Vec<Token<'_>>) -> (r: Vec<NamedArgument>)
    ensures
        named_views(r@) == free_variables_of(token_views(tokens@)),
{
    let ghost tv = token_views(tokens@);
    let mut r: Vec<NamedArgument> = Vec::new();
    let mut i: usize = 0;
    proof {
        assert(tv.take(0) =~= Seq::<TokenView>::empty());
        assert(named_views(r@) =~= Seq::<NamedView>::empty());
    }
    while i < tokens.len()
        invariant
            i <= tokens@.len(),
            tv == token_views(tokens@),
            named_views(r@) == free_variables_of(tv.take(i as int)),
        decreases tokens@.len() - i,
    {
        let ghost before = named_views(r@);
        proof {
            assert(tv.take(i + 1).drop_last() =~= tv.take(i as int));
            assert(tv.take(i + 1).last() == tokens@[i as int]@);
        }
        match &tokens[i] {
            Token::Argument(Argument::Named(name)) => {
                r.push(NamedArgument { name: (*name).to_owned(), expr: (*name).to_owned() });
                assert(named_views(r@) =~= before.push(NamedView { name: name@, expr: name@ }));
            },
            _ => {},
        }
        i += 1;
    }
    proof {
        assert(tv.take(tokens@.len() as int) =~= tv);
    }
    r
}

/// A name that a template refers to is among its free variables.
pub proof fn lemma_free_variables_hold_every_name(tokens: Seq<TokenView>, i: int)
    requires
        0 <= i < tokens.len(),
        tokens[i] is Argument,
        tokens[i]->Argument_0 is Named,
    ensures
        position(free_variables_of(tokens), tokens[i]->Argument_0->Named_0) is Some,
    decreases tokens.len(),
{
    let name = tokens[i]->Argument_0->Named_0;
    let all = free_variables_of(tokens);
    let before = free_variables_of(tokens.drop_last());
    lemma_position_from(all, name, 0);
    if i < tokens.len() - 1 {
        lemma_free_variables_hold_every_name(tokens.drop_last(), i);
        lemma_position_from(before, name, 0);
        let j = position(before, name)->Some_0;
        assert(all[j] == before[j]);
    } else {
        assert(all[all.len() - 1].name == name);
    }
}

/// With the free variables of the template in scope, no name is ever
/// missing.
pub proof fn lemma_names_are_never_missing(tokens: Seq<TokenView>, args: ArgumentsView)
    requires
        args.variables == free_variables_of(tokens),
    ensures
        !(bind_outcome(tokens, args) matches Err(BindErrorView::MissingName(_))),
{
    lemma_never_missing_upto(tokens, args, tokens.len() as int);
    assert(tokens.take(tokens.len() as int) =~= tokens);
}

proof fn lemma_never_missing_upto(tokens: Seq<TokenView>, args: ArgumentsView, j: int)
    requires
        args.variables == free_variables_of(tokens),
        0 <= j <= tokens.len(),
    ensures
        !(bind_tokens(tokens.take(j), args) matches Err(BindErrorView::MissingName(_))),
    decreases j,
{
    if j > 0 {
        lemma_never_missing_upto(tokens, args, j - 1);
        lemma_bind_unfold(tokens, args, j - 1);
        if let TokenView::Argument(ArgumentView::Named(name)) = tokens[j - 1] {
            lemma_free_variables_hold_every_name(tokens, j - 1);
        }
    } else {
        assert(tokens.take(0) =~= Seq::<TokenView>::empty());
    }
}

/// The message of an error.
pub open spec fn error_message(e: BindErrorView) -> Seq<char> {
    match e {
        BindErrorView::MissingPosition(n) => "missing argument for position "@ + decimal(n),
        BindErrorView::MissingIndex(n) => "missing argument for index "@ + decimal(n),
        BindErrorView::MissingName(name) => "missing argument for name "@ + name,
        BindErrorView::UnusedPositional(_) => "argument never used"@,
        BindErrorView::UnusedNamed(_) => "argument never used"@,
        BindErrorView::PositionalAfterNamed(_) =>
            "positional arguments cannot follow named arguments"@,
    }
}

impl BindError {
    /// The argument of the call that this error is about, by its place
    /// in the call, if it is about one.
    pub fn culprit(&self, call: &Vec<CallArgument>) -> (r: Option<usize>)
        ensures
            match r {
                Some(p) => culprit_of(self@, call_views(call@)) == Some(p as int),
                None => culprit_of(self@, call_views(call@)) is None,
            },
    {
        let ghost cv = call_views(call@);
        match self {
            BindError::PositionalAfterNamed(p) => if *p < call.len() {
                Some(*p)
            } else {
                None
            },
            BindError::UnusedPositional(n) => {
                if *n < call.len() {
                    assert(cv[*n as int] == call@[*n as int]@);
                    match &call[*n] {
                        CallArgument::Unnamed(_) => Some(*n),
                        CallArgument::Named(_, _) => None,
                    }
                } else {
                    None
                }
            },
            BindError::UnusedNamed(name) => {
                let mut i: usize = call.len();
                while i > 0
                    invariant
                        i <= call@.len(),
                        cv == call_views(call@),
                        self@ == BindErrorView::UnusedNamed(name@),
                        last_named(cv, name@, call@.len() as int) == last_named(
                            cv,
                            name@,
                            i as int,
                        ),
                    decreases i,
                {
                    assert(cv[i - 1] == call@[i - 1]@);
                    match &call[i - 1] {
                        CallArgument::Named(n, _) => {
                            if *n == *name {
                                return Some(i - 1);
                            }
                        },
                        CallArgument::Unnamed(_) => {},
                    }
                    i -= 1;
                }
                None
            },
            _ => None,
        }
    }

    /// The message for the author of the call.
    pub fn message(&self) -> (r: String)
        ensures
            r@ == error_message(self@),
    {
        match self {
            BindError::MissingPosition(n) => {
                let mut r = "missing argument for position ".to_owned();
                push_decimal(&mut r, *n);
                r
            },
            BindError::MissingIndex(n) => {
                let mut r = "missing argument for index ".to_owned();
                push_decimal(&mut r, *n);
                r
            },
            BindError::MissingName(name) => {
                let mut r = "missing argument for name ".to_owned();
                r.append(name.as_str());
                r
            },
            BindError::UnusedPositional(_) => "argument never used".to_owned(),
            BindError::UnusedNamed(_) => "argument never used".to_owned(),
            BindError::PositionalAfterNamed(_) =>
                "positional arguments cannot follow named arguments".to_owned(),
        }
    }
}


} // verus!
