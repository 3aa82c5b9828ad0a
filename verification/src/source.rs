//! Sources: streaming, query-independent item producers, pulled one item at
//! a time. A source surfaces end-of-stream as an absence signal, never an
//! error, and once it reports empty it stays empty.

use crate::pure::{convert_fn_models, convert_spec_of};
use vstd::prelude::*;

verus! {

/// A streaming producer consumed incrementally by the engine.
pub trait Source {
    type Item;

    /// Implementation invariant, preserved across pulls.
    spec fn wf(&self) -> bool;

    /// The items this source will still yield, in order.
    spec fn remaining(&self) -> Seq<Self::Item>;

    /// Pull the next item, or report exhaustion.
    fn next(&mut self) -> (r: Option<Self::Item>)
        requires
            old(self).wf(),
        ensures
            final(self).wf(),
            (match r {
                Some(v) => old(self).remaining().len() > 0 && v == old(self).remaining()[0]
                    && final(self).remaining() == old(self).remaining().skip(1),
                None => old(self).remaining().len() == 0 && final(self).remaining() == old(
                    self,
                ).remaining(),
            }),
    ;
}

/// A [`Source`] that yields the contents of a vector, front to back.
pub struct VecSource<T> {
    items: Vec<T>,
}

impl<T> VecSource<T> {
    pub fn new(items: Vec<T>) -> (r: Self)
        ensures
            r.remaining() == items@,
            r.wf(),
    {
        VecSource { items }
    }
}

impl<T> Source for VecSource<T> {
    type Item = T;

    open spec fn wf(&self) -> bool {
        true
    }

    closed spec fn remaining(&self) -> Seq<T> {
        self.items@
    }

    fn next(&mut self) -> (r: Option<T>) {
        if self.items.is_empty() {
            None
        } else {
            let v = self.items.remove(0);
            proof {
                assert(self.items@ =~= old(self).items@.skip(1));
            }
            Some(v)
        }
    }
}

/// Build a [`VecSource`] from already-collected items.
pub fn from_iter<T>(items: Vec<T>) -> (r: VecSource<T>)
    ensures
        r.remaining() == items@,
        r.wf(),
{
    VecSource::new(items)
}

/// Attaches a source yielding items of type `A` to an engine whose item type
/// is `Cushion`, through a pure conversion `A -> Cushion` applied to each
/// pulled item. Wrapping changes only the item type, never how many items
/// come out or their order.
#[verifier::reject_recursive_types(SourceContext)]
#[verifier::reject_recursive_types(Cushion)]
pub struct SourceWrapper<SourceContext, SourceT, F, Cushion> where
    F: Fn(SourceContext) -> Cushion,
    SourceT: Source<Item = SourceContext>,
 {
    f: F,
    source: SourceT,
    _marker: core::marker::PhantomData<Cushion>,
}

impl<SourceContext, SourceT, F, Cushion> SourceWrapper<SourceContext, SourceT, F, Cushion> where
    F: Fn(SourceContext) -> Cushion,
    SourceT: Source<Item = SourceContext>,
 {
    /// The conversion from the source's item type to the engine's.
    pub closed spec fn transformer(&self) -> F {
        self.f
    }

    /// The wrapped source.
    pub closed spec fn inner(&self) -> SourceT {
        self.source
    }

    pub fn new(source: SourceT, transformer: F) -> (r: Self)
        ensures
            r.transformer() == transformer,
            r.inner() == source,
    {
        SourceWrapper { f: transformer, source, _marker: core::marker::PhantomData }
    }
}

impl<SourceContext, SourceT, F, Cushion> Source for SourceWrapper<
    SourceContext,
    SourceT,
    F,
    Cushion,
> where F: Fn(SourceContext) -> Cushion, SourceT: Source<Item = SourceContext> {
    type Item = Cushion;

    open spec fn wf(&self) -> bool {
        &&& self.inner().wf()
        &&& exists|q: spec_fn(SourceContext) -> Cushion| convert_fn_models(self.transformer(), q)
    }

    open spec fn remaining(&self) -> Seq<Cushion> {
        self.inner().remaining().map_values(convert_spec_of(self.transformer()))
    }

    fn next(&mut self) -> (r: Option<Cushion>) {
        let ghost before = self.source.remaining();
        let ghost q = convert_spec_of(self.transformer());
        proof {
            assert(exists|qq: spec_fn(SourceContext) -> Cushion|
                convert_fn_models(self.transformer(), qq));
        }
        let r = self.source.next();
        proof {
            assert(self.source.wf());
            assert(self.transformer() == old(self).transformer());
            assert(exists|qq: spec_fn(SourceContext) -> Cushion|
                convert_fn_models(self.transformer(), qq));
            assert(self.wf());
        }
        match r {
            Some(x) => {
                let y = (self.f)(x);
                proof {
                    assert(convert_fn_models(self.transformer(), q));
                    assert(call_ensures(self.f, (before[0],), y));
                    assert(y == q(before[0]));
                    assert(self.source.remaining().map_values(q) =~= before.map_values(q).skip(
                        1,
                    ));
                }
                Some(y)
            },
            None => {
                None
            },
        }
    }
}

/// Wrap `source` so its items are converted by `f` before the engine sees
/// them.
pub fn transform_source<Cushion, SourceContext, SourceT, F>(source: SourceT, f: F) -> (r:
    SourceWrapper<SourceContext, SourceT, F, Cushion>) where
    F: Fn(SourceContext) -> Cushion,
    SourceT: Source<Item = SourceContext>,

    ensures
        r.transformer() == f,
        r.inner() == source,
{
    SourceWrapper::new(source, f)
}

} // verus!
