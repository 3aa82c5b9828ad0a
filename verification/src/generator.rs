//! Generators: query-triggered producers that return one bounded batch of
//! items per invocation. Unlike a [`crate::source::Source`], a generator is
//! re-run for every query and its output is not replayed across queries.
//! A generator is infallible by contract: "nothing found" is an empty vector.

use crate::pure::{convert_fn_models, convert_spec_of, generator_fn_models, generator_spec_of};
use vstd::prelude::*;

verus! {

/// A pure producer over the query string alone.
pub trait Generator {
    type Item;

    /// The implementation really is the pure producer `spec_generate`.
    spec fn wf(&self) -> bool;

    /// The items this generator produces for a query.
    spec fn spec_generate(&self, input: Seq<char>) -> Seq<Self::Item>;

    /// Produce the items for the query `input`.
    fn generate(&self, input: &str) -> (r: Vec<Self::Item>)
        requires
            self.wf(),
        ensures
            r@ == self.spec_generate(input@),
    ;
}

/// A [`Generator`] made from a plain closure.
#[verifier::reject_recursive_types(Item)]
pub struct ClosureGenerator<Item, F> where F: Fn(&str) -> Vec<Item> {
    f: F,
    _marker: core::marker::PhantomData<Item>,
}

impl<Item, F> ClosureGenerator<Item, F> where F: Fn(&str) -> Vec<Item> {
    /// The wrapped closure.
    pub closed spec fn func(&self) -> F {
        self.f
    }

    pub fn new(f: F) -> (r: Self)
        ensures
            r.func() == f,
    {
        ClosureGenerator { f, _marker: core::marker::PhantomData }
    }
}

impl<Item, F> Generator for ClosureGenerator<Item, F> where F: Fn(&str) -> Vec<Item> {
    type Item = Item;

    open spec fn wf(&self) -> bool {
        exists|p: spec_fn(Seq<char>) -> Seq<Item>| generator_fn_models(self.func(), p)
    }

    open spec fn spec_generate(&self, input: Seq<char>) -> Seq<Item> {
        generator_spec_of(self.func())(input)
    }

    fn generate(&self, input: &str) -> (r: Vec<Item>) {
        let r = (self.f)(input);
        proof {
            let p = choose|p: spec_fn(Seq<char>) -> Seq<Item>|
                generator_fn_models(self.func(), p);
            assert(call_ensures(self.f, (input,), r));
            assert(r@ == p(input@));
        }
        r
    }
}

/// Attaches a generator producing items of type `A` to an engine whose item
/// type is `Cushion`, through a pure conversion `A -> Cushion` applied to
/// each produced item. Wrapping changes only the item type, never how many
/// items come out or their order.
#[verifier::reject_recursive_types(Item)]
#[verifier::reject_recursive_types(Cushion)]
pub struct GenWrapper<Item, GenT, F, Cushion> where
    F: Fn(Item) -> Cushion,
    GenT: Generator<Item = Item>,
 {
    f: F,
    generator: GenT,
    _marker: core::marker::PhantomData<Cushion>,
}

impl<Item, GenT, F, Cushion> GenWrapper<Item, GenT, F, Cushion> where
    F: Fn(Item) -> Cushion,
    GenT: Generator<Item = Item>,
 {
    /// The conversion from the generator's item type to the engine's.
    pub closed spec fn transformer(&self) -> F {
        self.f
    }

    /// The wrapped generator.
    pub closed spec fn inner(&self) -> GenT {
        self.generator
    }

    pub fn new(generator: GenT, transformer: F) -> (r: Self)
        ensures
            r.transformer() == transformer,
            r.inner() == generator,
    {
        GenWrapper { f: transformer, generator, _marker: core::marker::PhantomData }
    }
}

impl<Item, GenT, F, Cushion> Generator for GenWrapper<Item, GenT, F, Cushion> where
    F: Fn(Item) -> Cushion,
    GenT: Generator<Item = Item>,
 {
    type Item = Cushion;

    open spec fn wf(&self) -> bool {
        &&& self.inner().wf()
        &&& exists|q: spec_fn(Item) -> Cushion| convert_fn_models(self.transformer(), q)
    }

    open spec fn spec_generate(&self, input: Seq<char>) -> Seq<Cushion> {
        self.inner().spec_generate(input).map_values(convert_spec_of(self.transformer()))
    }

    fn generate(&self, input: &str) -> (r: Vec<Cushion>) {
        let ghost produced = self.inner().spec_generate(input@);
        let ghost q = convert_spec_of(self.transformer());
        let mut items = self.generator.generate(input);
        let mut out: Vec<Cushion> = Vec::new();
        proof {
            assert(convert_fn_models(self.transformer(), q));
            assert(out@ =~= produced.take(0 as int).map_values(q));
        }
        while items.len() > 0
            invariant
                convert_fn_models(self.transformer(), q),
                items@ == produced.skip(out.len() as int),
                out.len() <= produced.len(),
                out@ == produced.take(out.len() as int).map_values(q),
            decreases items.len(),
        {
            let ghost done = out.len() as int;
            let x = items.remove(0);
            proof {
                assert(x == produced[done]);
                assert(items@ =~= produced.skip(done + 1));
            }
            let y = (self.f)(x);
            proof {
                assert(call_ensures(self.f, (produced[done],), y));
                assert(y == q(produced[done]));
            }
            out.push(y);
            proof {
                assert(produced.take(done + 1) =~= produced.take(done).push(produced[done]));
                assert(produced.take(done + 1).map_values(q) =~= produced.take(done).map_values(
                    q,
                ).push(q(produced[done])));
            }
        }
        proof {
            assert(produced.take(produced.len() as int) =~= produced);
        }
        out
    }
}

} // verus!
