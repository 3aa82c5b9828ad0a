//! Sorters: pure comparators over two items and the live query string.
//! Several sorters form a lexicographic chain: they are consulted in
//! registration order and the first non-equal answer wins.

use crate::pure::{project_fn_models, project_spec_of, sorter_fn_models, sorter_spec_of};
use core::cmp::Ordering;
use vstd::prelude::*;

verus! {

/// A pure comparator over `(item, item, query string)`.
pub trait Sorter {
    type Context;

    /// The implementation really is the pure comparator `spec_compare`.
    spec fn wf(&self) -> bool;

    /// The pure comparator this sorter computes.
    spec fn spec_compare(&self, lhs: Self::Context, rhs: Self::Context, input: Seq<char>) -> Ordering;

    /// Order `lhs` against `rhs` under the query `input`.
    fn compare(&self, lhs: &Self::Context, rhs: &Self::Context, input: &str) -> (r: Ordering)
        requires
            self.wf(),
        ensures
            r == self.spec_compare(*lhs, *rhs, input@),
    ;
}

/// The verdict of a lexicographic chain of sorters: the first non-equal
/// answer wins; an empty chain leaves every pair equal (stable ties).
pub open spec fn spec_chain_cmp<S: Sorter>(
    sorters: Seq<S>,
    lhs: S::Context,
    rhs: S::Context,
    input: Seq<char>,
) -> Ordering
    decreases sorters.len(),
{
    if sorters.len() == 0 {
        Ordering::Equal
    } else {
        let c = sorters[0].spec_compare(lhs, rhs, input);
        if c == Ordering::Equal {
            spec_chain_cmp(sorters.skip(1), lhs, rhs, input)
        } else {
            c
        }
    }
}

/// A [`Sorter`] made from a plain closure.
#[verifier::reject_recursive_types(Context)]
pub struct ClosureSorter<Context, F> where F: Fn(&Context, &Context, &str) -> Ordering {
    f: F,
    _marker: core::marker::PhantomData<Context>,
}

impl<Context, F> ClosureSorter<Context, F> where F: Fn(&Context, &Context, &str) -> Ordering {
    /// The wrapped closure.
    pub closed spec fn func(&self) -> F {
        self.f
    }

    pub fn new(f: F) -> (r: Self)
        ensures
            r.func() == f,
    {
        ClosureSorter { f, _marker: core::marker::PhantomData }
    }
}

impl<Context, F> Sorter for ClosureSorter<Context, F> where F: Fn(
    &Context,
    &Context,
    &str,
) -> Ordering {
    type Context = Context;

    open spec fn wf(&self) -> bool {
        exists|p: spec_fn(Context, Context, Seq<char>) -> Ordering|
            sorter_fn_models(self.func(), p)
    }

    open spec fn spec_compare(&self, lhs: Context, rhs: Context, input: Seq<char>) -> Ordering {
        sorter_spec_of(self.func())(lhs, rhs, input)
    }

    fn compare(&self, lhs: &Context, rhs: &Context, input: &str) -> (r: Ordering) {
        let r = (self.f)(lhs, rhs, input);
        proof {
            let p = choose|p: spec_fn(Context, Context, Seq<char>) -> Ordering|
                sorter_fn_models(self.func(), p);
            assert(call_ensures(self.f, (lhs, rhs, input), r));
            assert(r == p(*lhs, *rhs, input@));
        }
        r
    }
}

/// Attaches a sorter written for context type `A` to an engine whose item
/// type is `Cushion`, through a pure projection `&Cushion -> A`. Wrapping
/// changes only the type a sorter is addressed as, never its ordering.
#[verifier::reject_recursive_types(SorterContext)]
#[verifier::reject_recursive_types(Cushion)]
pub struct SorterWrapper<SorterContext, SorterT, F, Cushion> where
    F: Fn(&Cushion) -> SorterContext,
    SorterT: Sorter<Context = SorterContext>,
 {
    f: F,
    sorter: SorterT,
    _marker: core::marker::PhantomData<(SorterContext, Cushion)>,
}

impl<SorterContext, SorterT, F, Cushion> SorterWrapper<SorterContext, SorterT, F, Cushion> where
    F: Fn(&Cushion) -> SorterContext,
    SorterT: Sorter<Context = SorterContext>,
 {
    /// The projection from the engine's item type to the sorter's own.
    pub closed spec fn transformer(&self) -> F {
        self.f
    }

    /// The wrapped sorter.
    pub closed spec fn inner(&self) -> SorterT {
        self.sorter
    }

    pub fn new(sorter: SorterT, transformer: F) -> (r: Self)
        ensures
            r.transformer() == transformer,
            r.inner() == sorter,
    {
        SorterWrapper { f: transformer, sorter, _marker: core::marker::PhantomData }
    }
}

impl<SorterContext, SorterT, F, Cushion> Sorter for SorterWrapper<
    SorterContext,
    SorterT,
    F,
    Cushion,
> where F: Fn(&Cushion) -> SorterContext, SorterT: Sorter<Context = SorterContext> {
    type Context = Cushion;

    open spec fn wf(&self) -> bool {
        &&& self.inner().wf()
        &&& exists|q: spec_fn(Cushion) -> SorterContext| project_fn_models(self.transformer(), q)
    }

    open spec fn spec_compare(&self, lhs: Cushion, rhs: Cushion, input: Seq<char>) -> Ordering {
        self.inner().spec_compare(
            project_spec_of(self.transformer())(lhs),
            project_spec_of(self.transformer())(rhs),
            input,
        )
    }

    fn compare(&self, lhs: &Cushion, rhs: &Cushion, input: &str) -> (r: Ordering) {
        let pl = (self.f)(lhs);
        let pr = (self.f)(rhs);
        proof {
            let q = choose|q: spec_fn(Cushion) -> SorterContext|
                project_fn_models(self.transformer(), q);
            assert(call_ensures(self.f, (lhs,), pl));
            assert(call_ensures(self.f, (rhs,), pr));
            assert(pl == q(*lhs) && pr == q(*rhs));
        }
        self.sorter.compare(&pl, &pr, input)
    }
}

} // verus!
