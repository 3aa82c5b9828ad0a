//! Filters: pure predicates over an item and the live query string.

use crate::pure::{filter_fn_models, filter_spec_of, project_fn_models, project_spec_of};
use vstd::prelude::*;

verus! {

/// A pure predicate over `(item, query string)`. Registered filters decide
/// which retrieved items stay in a batch; the engine combines several
/// filters under an AND or OR policy.
pub trait Filter {
    type Context;

    /// The implementation really is the pure predicate `spec_predicate`.
    spec fn wf(&self) -> bool;

    /// The pure predicate this filter computes.
    spec fn spec_predicate(&self, ctx: Self::Context, input: Seq<char>) -> bool;

    /// Decide whether `ctx` passes under the query `input`.
    fn predicate(&self, ctx: &Self::Context, input: &str) -> (r: bool)
        requires
            self.wf(),
        ensures
            r == self.spec_predicate(*ctx, input@),
    ;
}

/// A [`Filter`] made from a plain closure.
#[verifier::reject_recursive_types(Context)]
pub struct ClosureFilter<Context, F> where F: Fn(&Context, &str) -> bool {
    f: F,
    _marker: core::marker::PhantomData<Context>,
}

impl<Context, F> ClosureFilter<Context, F> where F: Fn(&Context, &str) -> bool {
    /// The wrapped closure.
    pub closed spec fn func(&self) -> F {
        self.f
    }

    pub fn new(f: F) -> (r: Self)
        ensures
            r.func() == f,
    {
        ClosureFilter { f, _marker: core::marker::PhantomData }
    }
}

impl<Context, F> Filter for ClosureFilter<Context, F> where F: Fn(&Context, &str) -> bool {
    type Context = Context;

    open spec fn wf(&self) -> bool {
        exists|p: spec_fn(Context, Seq<char>) -> bool| filter_fn_models(self.func(), p)
    }

    open spec fn spec_predicate(&self, ctx: Context, input: Seq<char>) -> bool {
        filter_spec_of(self.func())(ctx, input)
    }

    fn predicate(&self, ctx: &Context, input: &str) -> (r: bool) {
        let r = (self.f)(ctx, input);
        proof {
            let p = choose|p: spec_fn(Context, Seq<char>) -> bool|
                filter_fn_models(self.func(), p);
            assert(call_ensures(self.f, (ctx, input), r));
            assert(r == p(*ctx, input@));
        }
        r
    }
}

/// Attaches a filter written for context type `A` to an engine whose item
/// type is `Cushion`, through a pure projection `&Cushion -> A`. Wrapping
/// changes only the type a filter is addressed as, never its answers.
#[verifier::reject_recursive_types(FilterContext)]
#[verifier::reject_recursive_types(Cushion)]
pub struct FilterWrapper<FilterContext, FilterT, F, Cushion> where
    F: Fn(&Cushion) -> FilterContext,
    FilterT: Filter<Context = FilterContext>,
 {
    f: F,
    filter: FilterT,
    _marker: core::marker::PhantomData<(FilterContext, Cushion)>,
}

impl<FilterContext, FilterT, F, Cushion> FilterWrapper<FilterContext, FilterT, F, Cushion> where
    F: Fn(&Cushion) -> FilterContext,
    FilterT: Filter<Context = FilterContext>,
 {
    /// The projection from the engine's item type to the filter's own.
    pub closed spec fn transformer(&self) -> F {
        self.f
    }

    /// The wrapped filter.
    pub closed spec fn inner(&self) -> FilterT {
        self.filter
    }

    pub fn new(filter: FilterT, transformer: F) -> (r: Self)
        ensures
            r.transformer() == transformer,
            r.inner() == filter,
    {
        FilterWrapper { f: transformer, filter, _marker: core::marker::PhantomData }
    }
}

impl<FilterContext, FilterT, F, Cushion> Filter for FilterWrapper<
    FilterContext,
    FilterT,
    F,
    Cushion,
> where F: Fn(&Cushion) -> FilterContext, FilterT: Filter<Context = FilterContext> {
    type Context = Cushion;

    open spec fn wf(&self) -> bool {
        &&& self.inner().wf()
        &&& exists|q: spec_fn(Cushion) -> FilterContext| project_fn_models(self.transformer(), q)
    }

    open spec fn spec_predicate(&self, ctx: Cushion, input: Seq<char>) -> bool {
        self.inner().spec_predicate(project_spec_of(self.transformer())(ctx), input)
    }

    fn predicate(&self, ctx: &Cushion, input: &str) -> (r: bool) {
        let projected = (self.f)(ctx);
        proof {
            let q = choose|q: spec_fn(Cushion) -> FilterContext|
                project_fn_models(self.transformer(), q);
            assert(call_ensures(self.f, (ctx,), projected));
            assert(projected == q(*ctx));
        }
        self.filter.predicate(&projected, input)
    }
}

} // verus!
