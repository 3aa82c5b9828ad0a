//! Ties an executable closure to the pure function it implements.
//!
//! Filters, sorters and generators are pure by contract: the same item and
//! query must always give the same answer. A closure supplied by a caller is
//! admitted as such a stage only when some specification-level function
//! describes it exactly: the closure accepts every argument, and every result
//! it may return equals what that function says. These predicates state that
//! relationship for each closure shape the adapters accept, and `..._spec_of`
//! names the described function so contracts can speak about it.

use vstd::prelude::*;

verus! {

/// The predicate closure shape `Fn(&Context, &str) -> bool` computes `p`.
pub open spec fn filter_fn_models<Context, F: Fn(&Context, &str) -> bool>(
    f: F,
    p: spec_fn(Context, Seq<char>) -> bool,
) -> bool {
    &&& (forall|ctx: &Context, s: &str| #[trigger] call_requires(f, (ctx, s)))
    &&& (forall|ctx: &Context, s: &str, r: bool|
        #[trigger] call_ensures(f, (ctx, s), r) ==> r == p(*ctx, s@))
}

/// The pure predicate a filter closure implements.
pub open spec fn filter_spec_of<Context, F: Fn(&Context, &str) -> bool>(f: F) -> spec_fn(
    Context,
    Seq<char>,
) -> bool {
    choose|p: spec_fn(Context, Seq<char>) -> bool| filter_fn_models(f, p)
}

/// The comparator closure shape `Fn(&Context, &Context, &str) -> Ordering`
/// computes `p`.
pub open spec fn sorter_fn_models<Context, F: Fn(&Context, &Context, &str) -> core::cmp::Ordering>(
    f: F,
    p: spec_fn(Context, Context, Seq<char>) -> core::cmp::Ordering,
) -> bool {
    &&& (forall|lhs: &Context, rhs: &Context, s: &str| #[trigger] call_requires(f, (lhs, rhs, s)))
    &&& (forall|lhs: &Context, rhs: &Context, s: &str, r: core::cmp::Ordering|
        #[trigger] call_ensures(f, (lhs, rhs, s), r) ==> r == p(*lhs, *rhs, s@))
}

/// The pure comparator a sorter closure implements.
pub open spec fn sorter_spec_of<Context, F: Fn(&Context, &Context, &str) -> core::cmp::Ordering>(
    f: F,
) -> spec_fn(Context, Context, Seq<char>) -> core::cmp::Ordering {
    choose|p: spec_fn(Context, Context, Seq<char>) -> core::cmp::Ordering| sorter_fn_models(f, p)
}

/// The producer closure shape `Fn(&str) -> Vec<Item>` computes `p`.
pub open spec fn generator_fn_models<Item, F: Fn(&str) -> Vec<Item>>(
    f: F,
    p: spec_fn(Seq<char>) -> Seq<Item>,
) -> bool {
    &&& (forall|s: &str| #[trigger] call_requires(f, (s,)))
    &&& (forall|s: &str, r: Vec<Item>| #[trigger] call_ensures(f, (s,), r) ==> r@ == p(s@))
}

/// The pure producer a generator closure implements.
pub open spec fn generator_spec_of<Item, F: Fn(&str) -> Vec<Item>>(f: F) -> spec_fn(
    Seq<char>,
) -> Seq<Item> {
    choose|p: spec_fn(Seq<char>) -> Seq<Item>| generator_fn_models(f, p)
}

/// The by-reference projection shape `Fn(&A) -> B` computes `q`.
pub open spec fn project_fn_models<A, B, F: Fn(&A) -> B>(f: F, q: spec_fn(A) -> B) -> bool {
    &&& (forall|a: &A| #[trigger] call_requires(f, (a,)))
    &&& (forall|a: &A, b: B| #[trigger] call_ensures(f, (a,), b) ==> b == q(*a))
}

/// The pure projection a by-reference closure implements.
pub open spec fn project_spec_of<A, B, F: Fn(&A) -> B>(f: F) -> spec_fn(A) -> B {
    choose|q: spec_fn(A) -> B| project_fn_models(f, q)
}

/// The by-value conversion shape `Fn(A) -> B` computes `q`.
pub open spec fn convert_fn_models<A, B, F: Fn(A) -> B>(f: F, q: spec_fn(A) -> B) -> bool {
    &&& (forall|a: A| #[trigger] call_requires(f, (a,)))
    &&& (forall|a: A, b: B| #[trigger] call_ensures(f, (a,), b) ==> b == q(a))
}

/// The pure conversion a by-value closure implements.
pub open spec fn convert_spec_of<A, B, F: Fn(A) -> B>(f: F) -> spec_fn(A) -> B {
    choose|q: spec_fn(A) -> B| convert_fn_models(f, q)
}

/// The closure accepts every argument; nothing is said of its results.
/// Suits side-effecting consumers, whose outcome is not a function of the
/// argument.
pub open spec fn consumer_fn_total<A, R, F: Fn(&A) -> R>(f: F) -> bool {
    forall|a: &A| #[trigger] call_requires(f, (a,))
}

} // verus!
