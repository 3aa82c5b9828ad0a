//! The batch-assembly and incremental-merge engine.
//!
//! A [`Batcher`] pulls candidate items from registered producers, applies the
//! registered predicates and comparators keyed on the live query string, and
//! exposes the growing, always-sorted result set through repeated
//! [`Batcher::prepare`] / [`Batcher::merge`] calls. Already-retrieved source
//! items are cached in an id-replay buffer so a query change re-offers them
//! without pulling their source again.

use crate::filter::Filter;
use crate::generator::Generator;
use crate::pure::{project_fn_models, project_spec_of};
use crate::sorter::{spec_chain_cmp, Sorter};
use crate::source::Source;
use crate::ui::{Buffer, Position};
use crate::EngineError;
use core::cmp::Ordering;
use vstd::prelude::*;

verus! {

/// The mathematical state of a [`Batcher`]: every registered stage, the
/// projection it was configured with (as the pure function it implements),
/// and the session cursors.
#[verifier::ext_equal]
#[verifier::reject_recursive_types(Cushion)]
#[verifier::reject_recursive_types(UIContext)]
pub struct BatcherView<Cushion, UIContext, Src, F, S, G> {
    /// Registered filters, in registration order.
    pub filters: Seq<F>,
    /// Registered sorters; they compare lexicographically in this order.
    pub sorters: Seq<S>,
    /// Registered generators, in registration order.
    pub generators: Seq<G>,
    /// Registered sources, in registration order.
    pub sources: Seq<Src>,
    /// The pure item-to-UI projection, once one was registered.
    pub projection: Option<spec_fn(Cushion) -> UIContext>,
    /// The batch budget; zero means unbounded.
    pub batch_size: usize,
    /// Filter policy: all filters must pass (`true`) or any (`false`).
    pub filter_and: bool,
    /// The live query string.
    pub input: Seq<char>,
    /// The item store: every candidate retrieved so far, id = index.
    pub items: Seq<Cushion>,
    /// Ids of items that came from sources, for unmetered replay.
    pub replay: Seq<usize>,
    /// Read cursor into `replay`.
    pub replay_pos: usize,
    /// One-item lookahead on the current source.
    pub peeked: Option<Cushion>,
    /// Whether no pull was ever attempted, so the first pull must not
    /// advance the source index.
    pub first_source: bool,
    /// Index of the next generator to run for this query.
    pub gen_index: usize,
    /// Index of the source currently being drained.
    pub source_index: usize,
}

/// The order two stored ids compare under: the lexicographic sorter chain,
/// applied to the items the ids refer to, under the live query.
pub open spec fn items_cmp<Cushion, S>(
    sorters: Seq<S>,
    items: Seq<Cushion>,
    input: Seq<char>,
) -> spec_fn(usize, usize) -> Ordering where S: Sorter<Context = Cushion> {
    |lhs: usize, rhs: usize|
        spec_chain_cmp(sorters, items[lhs as int], items[rhs as int], input)
}

/// The comparator the engine orders result entries by.
pub open spec fn view_cmp<Cushion, UIContext, Src, F, S, G>(
    v: BatcherView<Cushion, UIContext, Src, F, S, G>,
) -> spec_fn(usize, usize) -> Ordering where S: Sorter<Context = Cushion> {
    items_cmp(v.sorters, v.items, v.input)
}

/// Whether a stored id survives the filter phase, as a predicate over ids.
pub open spec fn passes_pred<Cushion, F>(
    filters: Seq<F>,
    items: Seq<Cushion>,
    input: Seq<char>,
    policy_and: bool,
) -> spec_fn(usize) -> bool where F: Filter<Context = Cushion> {
    |id: usize| spec_passes(filters, items[id as int], input, policy_and)
}

/// The projection step, as a function from a stored id to the visible
/// `(projection, id)` entry.
pub open spec fn pair_proj<Cushion, UIContext>(
    proj: spec_fn(Cushion) -> UIContext,
    items: Seq<Cushion>,
) -> spec_fn(usize) -> (UIContext, usize) {
    |id: usize| (proj(items[id as int]), id)
}

/// Whether `item` passes the registered filters under the given policy:
/// all of them when `policy_and`, at least one otherwise.
pub open spec fn spec_passes<Cushion, F: Filter<Context = Cushion>>(
    filters: Seq<F>,
    item: Cushion,
    input: Seq<char>,
    policy_and: bool,
) -> bool {
    if policy_and {
        forall|i: int| 0 <= i < filters.len() ==> (#[trigger] filters[i]).spec_predicate(item, input)
    } else {
        exists|i: int| 0 <= i < filters.len() && (#[trigger] filters[i]).spec_predicate(item, input)
    }
}

/// One fully filtered and sorted increment of `(projection, id)` pairs,
/// produced by [`Batcher::prepare`] and folded into the visible buffer by
/// [`Batcher::merge`].
pub struct Prepared<T>(Buffer<(T, usize)>);

impl<T> View for Prepared<T> {
    type V = Seq<(T, usize)>;

    closed spec fn view(&self) -> Seq<(T, usize)> {
        self.0@
    }
}

impl<T> Prepared<T> {
    /// Unwrap the batch.
    pub fn into_inner(self) -> (r: Buffer<(T, usize)>)
        ensures
            r@ == self@,
    {
        self.0
    }

    /// Wrap a finished batch.
    pub fn new(value: Buffer<(T, usize)>) -> (r: Self)
        ensures
            r@ == value@,
    {
        Prepared(value)
    }
}

/// The stable two-pointer merge of two sequences, ordered by `c` over the
/// id half of each entry. On a tie the entry already in `dst` goes first,
/// so earlier-discovered items keep their place.
pub open spec fn spec_merge<U>(
    c: spec_fn(usize, usize) -> Ordering,
    dst: Seq<(U, usize)>,
    src: Seq<(U, usize)>,
) -> Seq<(U, usize)>
    decreases dst.len() + src.len(),
{
    if dst.len() == 0 {
        src
    } else if src.len() == 0 {
        dst
    } else if c(dst[0].1, src[0].1) != Ordering::Greater {
        seq![dst[0]] + spec_merge(c, dst.skip(1), src)
    } else {
        seq![src[0]] + spec_merge(c, dst, src.skip(1))
    }
}

/// Insert `x` into `s` behind every entry that is not Greater than it:
/// the insertion-sort step. Entries already present that tie with `x`
/// stay in front of it.
pub open spec fn spec_insert<U>(
    c: spec_fn(usize, usize) -> Ordering,
    s: Seq<(U, usize)>,
    x: (U, usize),
) -> Seq<(U, usize)>
    decreases s.len(),
{
    if s.len() == 0 {
        seq![x]
    } else if c(s.last().1, x.1) == Ordering::Greater {
        spec_insert(c, s.drop_last(), x).push(s.last())
    } else {
        s.push(x)
    }
}

/// Stable insertion sort of `s` under `c` over the id half of each entry:
/// entries are taken in order and each is placed behind every entry not
/// Greater than it, so ties keep their first-seen order.
pub open spec fn spec_sort<U>(
    c: spec_fn(usize, usize) -> Ordering,
    s: Seq<(U, usize)>,
) -> Seq<(U, usize)>
    decreases s.len(),
{
    if s.len() == 0 {
        Seq::empty()
    } else {
        spec_insert(c, spec_sort(c, s.drop_last()), s.last())
    }
}

/// A positional characterization of [`spec_insert`]: inserting at the
/// boundary `j` of the Greater-than-`x` suffix is the insertion-sort step.
proof fn lemma_insert_at<U>(
    c: spec_fn(usize, usize) -> Ordering,
    s: Seq<(U, usize)>,
    x: (U, usize),
    j: int,
)
    requires
        0 <= j <= s.len(),
        forall|k: int| j <= k < s.len() ==> c((#[trigger] s[k]).1, x.1) == Ordering::Greater,
        j > 0 ==> c(s[j - 1].1, x.1) != Ordering::Greater,
    ensures
        spec_insert(c, s, x) == s.insert(j, x),
    decreases s.len(),
{
    if s.len() == 0 {
        assert(s.insert(0, x) =~= seq![x]);
    } else if j == s.len() {
        assert(c(s.last().1, x.1) != Ordering::Greater);
        assert(s.insert(j, x) =~= s.push(x));
    } else {
        assert(c(s.last().1, x.1) == Ordering::Greater);
        lemma_insert_at(c, s.drop_last(), x, j);
        assert(spec_insert(c, s, x) == s.drop_last().insert(j, x).push(s.last()));
        assert(s.drop_last().insert(j, x).push(s.last()) =~= s.insert(j, x));
    }
}

/// The state the source phase of one `prepare` call works on: the not-yet
/// pulled tail of every source, the session cursors, and the raw id batch
/// being assembled.
#[verifier::ext_equal]
pub struct SourcePhase<C> {
    /// What each source will still yield, in registration order.
    pub remainings: Seq<Seq<C>>,
    /// The item store.
    pub items: Seq<C>,
    /// Ids of source items, for replay.
    pub replay: Seq<usize>,
    /// Read cursor into `replay`.
    pub pos: int,
    /// One-item lookahead on the current source.
    pub peeked: Option<C>,
    /// Whether no pull was ever attempted yet.
    pub first: bool,
    /// Index of the source currently being drained.
    pub idx: int,
    /// Budget still available for fresh pulls.
    pub budget: int,
    /// Ids assembled for this batch so far.
    pub batch: Seq<usize>,
}

/// How many items a lookahead slot holds.
pub open spec fn peek_count<C>(peeked: Option<C>) -> int {
    if peeked is Some {
        1
    } else {
        0
    }
}

/// How many items the current source still holds.
pub open spec fn current_remaining<C>(st: SourcePhase<C>) -> int {
    if 0 <= st.idx < st.remainings.len() {
        st.remainings[st.idx].len() as int
    } else {
        0
    }
}

/// Refill the lookahead slot from the current source.
pub open spec fn refill<C>(st: SourcePhase<C>) -> SourcePhase<C> {
    let rem = st.remainings[st.idx];
    if rem.len() > 0 {
        SourcePhase {
            peeked: Some(rem[0]),
            remainings: st.remainings.update(st.idx, rem.skip(1)),
            ..st
        }
    } else {
        SourcePhase { peeked: None, ..st }
    }
}

/// The unmetered replay step of one `prepare` call: with any budget left,
/// every id still ahead of the replay cursor joins the batch, at no cost.
pub open spec fn replay_phase<C>(st: SourcePhase<C>) -> SourcePhase<C> {
    if st.budget <= 0 {
        st
    } else {
        SourcePhase { batch: st.batch + st.replay.skip(st.pos), pos: st.replay.len() as int, ..st }
    }
}

/// The fresh-pull loop of one `prepare` call. While budget remains: commit
/// the lookahead item if there is one (assign it the next id, append it to
/// the batch and the replay buffer, spend one unit of budget) and refill
/// the lookahead; on an empty lookahead advance to the next source, except
/// that the very first pull attempt must not advance the source index;
/// stop when the budget or the sources are exhausted.
pub open spec fn run_pulls<C>(st: SourcePhase<C>) -> SourcePhase<C>
    decreases
            st.remainings.len() - st.idx,
            current_remaining(st) + peek_count(st.peeked),
            (if st.first {
                1int
            } else {
                0int
            }),
{
    if st.budget <= 0 {
        st
    } else if 0 <= st.idx && st.idx < st.remainings.len() {
        match st.peeked {
            Some(c) => {
                let id = st.items.len() as usize;
                let st2 = SourcePhase {
                    items: st.items.push(c),
                    replay: st.replay.push(id),
                    pos: st.pos + 1,
                    peeked: None,
                    budget: st.budget - 1,
                    batch: st.batch.push(id),
                    ..st
                };
                run_pulls(refill(st2))
            },
            None => {
                if !st.first {
                    if st.idx + 1 == st.remainings.len() {
                        SourcePhase { idx: st.idx + 1, ..st }
                    } else {
                        run_pulls(refill(SourcePhase { idx: st.idx + 1, ..st }))
                    }
                } else {
                    run_pulls(refill(SourcePhase { first: false, ..st }))
                }
            },
        }
    } else {
        st
    }
}

/// What the generators `lo..hi` produce for `input`, concatenated in
/// registration order.
pub open spec fn gens_output<Cushion, G: Generator<Item = Cushion>>(
    gens: Seq<G>,
    lo: int,
    hi: int,
    input: Seq<char>,
) -> Seq<Cushion>
    decreases hi - lo,
{
    if lo < hi {
        gens[lo].spec_generate(input) + gens_output(gens, lo + 1, hi, input)
    } else {
        Seq::empty()
    }
}

/// Extending the generator slice by one appends that generator's output.
proof fn lemma_gens_output_snoc<Cushion, G: Generator<Item = Cushion>>(
    gens: Seq<G>,
    lo: int,
    hi: int,
    input: Seq<char>,
)
    requires
        lo <= hi,
    ensures
        gens_output(gens, lo, hi + 1, input) == gens_output(gens, lo, hi, input) + gens[
            hi
        ].spec_generate(input),
    decreases hi - lo,
{
    if lo == hi {
        assert(gens_output(gens, hi + 1, hi + 1, input) == Seq::<Cushion>::empty());
        assert(gens_output(gens, lo, hi, input) == Seq::<Cushion>::empty());
        assert(gens_output(gens, lo, hi + 1, input) =~= gens_output(gens, lo, hi, input) + gens[
            hi
        ].spec_generate(input));
    } else {
        lemma_gens_output_snoc(gens, lo + 1, hi, input);
        assert(gens_output(gens, lo, hi + 1, input) =~= gens_output(gens, lo, hi, input) + gens[
            hi
        ].spec_generate(input));
    }
}

/// The pull budget one `prepare` call starts with: the configured batch
/// size, or effectively unbounded when it is zero.
pub open spec fn budget_of(batch_size: usize) -> int {
    if batch_size == 0 {
        usize::MAX as int
    } else {
        batch_size as int
    }
}

/// How many generators one `prepare` call runs, given `budget`: the next
/// not-yet-run generators, no more than the budget allows. A generator call
/// is one unit of work regardless of how many items it yields.
pub open spec fn gen_run_count_b<Cushion, UIContext, Src, F, S, G>(
    v: BatcherView<Cushion, UIContext, Src, F, S, G>,
    budget: int,
) -> int {
    let total = v.generators.len() as int;
    if (v.gen_index as int) < total && budget > 0 {
        if budget < total - (v.gen_index as int) {
            budget
        } else {
            total - (v.gen_index as int)
        }
    } else {
        0
    }
}

/// The session state after the producer phases of one `prepare` call on
/// state `v`: run the due generators, then replay cached source ids, then
/// pull fresh source items while budget remains.
pub open spec fn prepare_source_state<Cushion, UIContext, Src, F, S, G>(
    v: BatcherView<Cushion, UIContext, Src, F, S, G>,
) -> SourcePhase<Cushion> where
    Src: Source<Item = Cushion>,
    G: Generator<Item = Cushion>,
 {
    let b0 = budget_of(v.batch_size);
    let k = gen_run_count_b(v, b0);
    let gseq = gens_output(v.generators, v.gen_index as int, v.gen_index + k, v.input);
    run_pulls(
        replay_phase(
            SourcePhase {
                remainings: v.sources.map_values(|s: Src| s.remaining()),
                items: v.items + gseq,
                replay: v.replay,
                pos: v.replay_pos as int,
                peeked: v.peeked,
                first: v.first_source,
                idx: v.source_index as int,
                budget: b0 - k,
                batch: Seq::new(gseq.len(), |i: int| (v.items.len() + i) as usize),
            },
        ),
    )
}

/// The batch one `prepare` call hands out, given the engine state `v` it
/// started from and the source-phase outcome `st`: the assembled ids whose
/// items pass the filter policy, each projected and paired with its id,
/// sorted by the sorter chain.
pub open spec fn prepared_output<Cushion, UIContext, Src, F, S, G>(
    v: BatcherView<Cushion, UIContext, Src, F, S, G>,
    st: SourcePhase<Cushion>,
) -> Seq<(UIContext, usize)> where
    F: Filter<Context = Cushion>,
    S: Sorter<Context = Cushion>,

    recommends
        v.projection is Some,
{
    let kept = st.batch.filter(passes_pred(v.filters, st.items, v.input, v.filter_and));
    let pairs = kept.map_values(pair_proj(v.projection.unwrap(), st.items));
    spec_sort(items_cmp(v.sorters, st.items, v.input), pairs)
}

struct BatcherState<Cushion> {
    input: String,
    /// Every item retrieved so far; an item's id is its index here.
    items: Vec<Cushion>,
    /// Ids of source items, replayed without budget on later batches.
    replay: Buffer<usize>,
    replay_pos: Position,
    peeked_item: Option<Cushion>,
    first_source: bool,
    gen_index: usize,
    source_index: usize,
}

/// The engine. See the module documentation.
#[verifier::reject_recursive_types(Cushion)]
#[verifier::reject_recursive_types(UIContext)]
pub struct Batcher<Cushion, UIContext, Src, F, S, G, PF> where
    Src: Source<Item = Cushion>,
    F: Filter<Context = Cushion>,
    S: Sorter<Context = Cushion>,
    G: Generator<Item = Cushion>,
    PF: Fn(&Cushion) -> UIContext,
 {
    filters: Vec<F>,
    sorters: Vec<S>,
    generators: Vec<G>,
    sources: Vec<Src>,
    cushion_to_ui: Option<PF>,
    batch_size: usize,
    filter_and: bool,
    state: BatcherState<Cushion>,
}

impl<Cushion, UIContext, Src, F, S, G, PF> View for Batcher<
    Cushion,
    UIContext,
    Src,
    F,
    S,
    G,
    PF,
> where
    Src: Source<Item = Cushion>,
    F: Filter<Context = Cushion>,
    S: Sorter<Context = Cushion>,
    G: Generator<Item = Cushion>,
    PF: Fn(&Cushion) -> UIContext,
 {
    type V = BatcherView<Cushion, UIContext, Src, F, S, G>;

    closed spec fn view(&self) -> BatcherView<Cushion, UIContext, Src, F, S, G> {
        BatcherView {
            filters: self.filters@,
            sorters: self.sorters@,
            generators: self.generators@,
            sources: self.sources@,
            projection: match self.cushion_to_ui {
                Some(f) => Some(project_spec_of(f)),
                None => None,
            },
            batch_size: self.batch_size,
            filter_and: self.filter_and,
            input: self.state.input@,
            items: self.state.items@,
            replay: self.state.replay@,
            replay_pos: self.state.replay_pos.0,
            peeked: self.state.peeked_item,
            first_source: self.state.first_source,
            gen_index: self.state.gen_index,
            source_index: self.state.source_index,
        }
    }
}

impl<Cushion, UIContext, Src, F, S, G, PF> Default for Batcher<
    Cushion,
    UIContext,
    Src,
    F,
    S,
    G,
    PF,
> where
    Src: Source<Item = Cushion>,
    F: Filter<Context = Cushion>,
    S: Sorter<Context = Cushion>,
    G: Generator<Item = Cushion>,
    PF: Fn(&Cushion) -> UIContext,
 {
    /// A fresh engine: no stages registered, no projection, an unbounded
    /// batch budget, the AND filter policy, an empty query and an empty
    /// item store.
    fn default() -> (r: Self)
        ensures
            r.inv(),
            r@.filters.len() == 0,
            r@.sorters.len() == 0,
            r@.generators.len() == 0,
            r@.sources.len() == 0,
            r@.projection is None,
            r@.batch_size == 0,
            r@.filter_and == true,
            r@.input == Seq::<char>::empty(),
            r@.items.len() == 0,
            r@.replay.len() == 0,
            r@.replay_pos == 0,
            r@.peeked is None,
            r@.first_source == true,
            r@.gen_index == 0,
            r@.source_index == 0,
    {
        Batcher {
            filters: Vec::new(),
            sorters: Vec::new(),
            generators: Vec::new(),
            sources: Vec::new(),
            cushion_to_ui: None,
            batch_size: 0,
            filter_and: true,
            state: BatcherState {
                input: String::new(),
                items: Vec::new(),
                replay: Buffer::default(),
                replay_pos: Position::default(),
                peeked_item: None,
                first_source: true,
                gen_index: 0,
                source_index: 0,
            },
        }
    }
}

impl<Cushion, UIContext, Src, F, S, G, PF> Batcher<Cushion, UIContext, Src, F, S, G, PF> where
    Src: Source<Item = Cushion>,
    F: Filter<Context = Cushion>,
    S: Sorter<Context = Cushion>,
    G: Generator<Item = Cushion>,
    PF: Fn(&Cushion) -> UIContext,
 {
    /// The registered projection really is the pure function the view says.
    pub closed spec fn projection_wf(&self) -> bool {
        match self.cushion_to_ui {
            Some(f) => exists|q: spec_fn(Cushion) -> UIContext| project_fn_models(f, q),
            None => true,
        }
    }

    /// The engine's invariant: every registered stage is well-formed, every
    /// cached id refers to a stored item, the cursors are in range, and a
    /// missing lookahead (after the very first pull) means the current
    /// source is drained.
    pub open spec fn inv(&self) -> bool {
        &&& (forall|i: int| 0 <= i < self@.filters.len() ==> (#[trigger] self@.filters[i]).wf())
        &&& (forall|i: int| 0 <= i < self@.sorters.len() ==> (#[trigger] self@.sorters[i]).wf())
        &&& (forall|i: int|
            0 <= i < self@.generators.len() ==> (#[trigger] self@.generators[i]).wf())
        &&& (forall|i: int| 0 <= i < self@.sources.len() ==> (#[trigger] self@.sources[i]).wf())
        &&& self.projection_wf()
        &&& (forall|i: int|
            0 <= i < self@.replay.len() ==> (#[trigger] self@.replay[i]) < self@.items.len())
        &&& self@.replay_pos <= self@.replay.len()
        &&& self@.source_index <= self@.sources.len()
        &&& self@.gen_index <= self@.generators.len()
    }

    /// How many registered sources this engine has.
    pub fn source_count(&self) -> (r: usize)
        ensures
            r == self@.sources.len(),
    {
        self.sources.len()
    }

    /// How many registered filters this engine has.
    pub fn filter_count(&self) -> (r: usize)
        ensures
            r == self@.filters.len(),
    {
        self.filters.len()
    }

    /// How many registered sorters this engine has.
    pub fn sorter_count(&self) -> (r: usize)
        ensures
            r == self@.sorters.len(),
    {
        self.sorters.len()
    }

    /// How many registered generators this engine has.
    pub fn generator_count(&self) -> (r: usize)
        ensures
            r == self@.generators.len(),
    {
        self.generators.len()
    }

    /// Register a source.
    pub fn add_raw_source(&mut self, source: Src)
        requires
            old(self).inv(),
            source.wf(),
        ensures
            final(self).inv(),
            final(self)@ == (BatcherView { sources: old(self)@.sources.push(source), ..old(self)@ }),
    {
        self.sources.push(source);
    }

    /// Register a filter.
    pub fn add_raw_filter(&mut self, filter: F)
        requires
            old(self).inv(),
            filter.wf(),
        ensures
            final(self).inv(),
            final(self)@ == (BatcherView { filters: old(self)@.filters.push(filter), ..old(self)@ }),
    {
        self.filters.push(filter);
    }

    /// Register a sorter; it ranks after all previously registered ones in
    /// the lexicographic chain.
    pub fn add_raw_sorter(&mut self, sorter: S)
        requires
            old(self).inv(),
            sorter.wf(),
        ensures
            final(self).inv(),
            final(self)@ == (BatcherView { sorters: old(self)@.sorters.push(sorter), ..old(self)@ }),
    {
        self.sorters.push(sorter);
    }

    /// Register a generator.
    pub fn add_raw_generator(&mut self, generator: G)
        requires
            old(self).inv(),
            generator.wf(),
        ensures
            final(self).inv(),
            final(self)@ == (BatcherView {
                generators: old(self)@.generators.push(generator),
                ..old(self)@
            }),
    {
        self.generators.push(generator);
    }

    /// Register the item-to-UI projection. `transformer` must be pure.
    pub fn set_ui(&mut self, transformer: PF)
        requires
            old(self).inv(),
            exists|q: spec_fn(Cushion) -> UIContext| project_fn_models(transformer, q),
        ensures
            final(self).inv(),
            final(self)@ == (BatcherView {
                projection: Some(project_spec_of(transformer)),
                ..old(self)@
            }),
    {
        self.cushion_to_ui = Some(transformer);
    }

    /// Set the batch budget: how many units of work one `prepare` call may
    /// spend on producers. Zero means unbounded.
    pub fn set_batch_size(&mut self, batch_size: usize)
        requires
            old(self).inv(),
        ensures
            final(self).inv(),
            final(self)@ == (BatcherView { batch_size, ..old(self)@ }),
    {
        self.batch_size = batch_size;
    }

    /// Set the filter policy: `true` keeps items that pass every filter,
    /// `false` keeps items that pass at least one.
    pub fn set_filter_and(&mut self, flag: bool)
        requires
            old(self).inv(),
        ensures
            final(self).inv(),
            final(self)@ == (BatcherView { filter_and: flag, ..old(self)@ }),
    {
        self.filter_and = flag;
    }

    /// Accept a changed query string and reset the per-query state: the
    /// generator cursor and the replay cursor start over, and the visible
    /// buffer is cleared to be rebuilt. The item store, the replay buffer's
    /// contents, the source cursor and the lookahead persist, so streaming
    /// sources are not re-pulled.
    pub fn input(&mut self, buf: &mut Buffer<(UIContext, usize)>, input: &str)
        requires
            old(self).inv(),
        ensures
            final(self).inv(),
            final(self)@ == (BatcherView {
                input: input@,
                gen_index: 0,
                replay_pos: 0,
                ..old(self)@
            }),
            final(buf)@ == Seq::<(UIContext, usize)>::empty(),
    {
        self.state.input = input.to_owned();
        self.state.gen_index = 0;
        buf.reset();
        self.state.replay_pos.reset();
    }

    /// Consume the engine and hand out the chosen item by id. The id must
    /// be one obtained from the visible buffer; anything at or beyond the
    /// item count is rejected.
    pub fn compute_cushion(self, id: usize) -> (r: Result<Cushion, EngineError>)
        ensures
            (id as int) < self@.items.len() ==> r == Ok::<Cushion, EngineError>(
                self@.items[id as int],
            ),
            (id as int) >= self@.items.len() ==> r == Err::<Cushion, EngineError>(
                EngineError::IndexOutOfRange,
            ),
    {
        let mut this = self;
        if this.state.items.len() > id {
            Ok(this.state.items.swap_remove(id))
        } else {
            Err(EngineError::IndexOutOfRange)
        }
    }

    /// Evaluate the lexicographic sorter chain on the items two ids refer
    /// to: the first non-equal verdict wins.
    fn chain_compare(&self, lhs: usize, rhs: usize) -> (r: Ordering)
        requires
            self.inv(),
            (lhs as int) < self@.items.len(),
            (rhs as int) < self@.items.len(),
        ensures
            r == view_cmp(self@)(lhs, rhs),
    {
        let ghost full = self@.sorters;
        let ghost l = self@.items[lhs as int];
        let ghost rr = self@.items[rhs as int];
        let ghost q = self@.input;
        let mut i: usize = 0;
        proof {
            assert(full.skip(0) =~= full);
        }
        while i < self.sorters.len()
            invariant
                self.inv(),
                0 <= i <= self@.sorters.len(),
                full == self@.sorters,
                l == self@.items[lhs as int],
                rr == self@.items[rhs as int],
                q == self@.input,
                (lhs as int) < self@.items.len(),
                (rhs as int) < self@.items.len(),
                spec_chain_cmp(full.skip(i as int), l, rr, q) == spec_chain_cmp(full, l, rr, q),
            decreases self@.sorters.len() - i,
        {
            let c = self.sorters[i].compare(
                &self.state.items[lhs],
                &self.state.items[rhs],
                self.state.input.as_str(),
            );
            proof {
                assert(full.skip(i as int)[0] == full[i as int]);
                assert(full.skip(i as int).skip(1) =~= full.skip(i as int + 1));
            }
            match c {
                Ordering::Equal => {
                    i = i + 1;
                },
                _ => {
                    return c;
                },
            }
        }
        Ordering::Equal
    }

    /// Fold a prepared batch into the (already sorted) visible buffer by a
    /// stable two-pointer merge: on a comparator tie the entry already in
    /// the buffer goes first. Returns whether an outstanding lookahead item
    /// remains, i.e. whether the caller should run another
    /// `prepare`/`merge` round for this query.
    pub fn merge(&self, buf: &mut Buffer<(UIContext, usize)>, from: Prepared<UIContext>) -> (r:
        bool)
        requires
            self.inv(),
            forall|i: int|
                0 <= i < old(buf)@.len() ==> (#[trigger] old(buf)@[i]).1 < self@.items.len(),
            forall|i: int| 0 <= i < from@.len() ==> (#[trigger] from@[i]).1 < self@.items.len(),
        ensures
            final(buf)@ == spec_merge(view_cmp(self@), old(buf)@, from@),
            r == (self@.peeked is Some),
    {
        let ghost c = view_cmp(self@);
        let ghost dst0 = buf@;
        let ghost src0 = from@;
        let mut dstv: Vec<(UIContext, usize)> = Vec::new();
        core::mem::swap(buf.as_mut(), &mut dstv);
        let mut srcb = from.into_inner();
        let mut srcv: Vec<(UIContext, usize)> = Vec::new();
        core::mem::swap(srcb.as_mut(), &mut srcv);
        let mut merged: Vec<(UIContext, usize)> = Vec::new();
        while dstv.len() > 0 && srcv.len() > 0
            invariant
                self.inv(),
                c == view_cmp(self@),
                forall|i: int| 0 <= i < dstv@.len() ==> (#[trigger] dstv@[i]).1 < self@.items.len(),
                forall|i: int| 0 <= i < srcv@.len() ==> (#[trigger] srcv@[i]).1 < self@.items.len(),
                merged@ + spec_merge(c, dstv@, srcv@) == spec_merge(c, dst0, src0),
            decreases dstv.len() + srcv.len(),
        {
            let ghost d = dstv@;
            let ghost s = srcv@;
            let a = dstv[0].1;
            let b = srcv[0].1;
            let verdict = self.chain_compare(a, b);
            if !matches!(verdict, Ordering::Greater) {
                let entry = dstv.remove(0);
                merged.push(entry);
                proof {
                    assert(dstv@ =~= d.skip(1));
                    assert(spec_merge(c, d, s) == seq![d[0]] + spec_merge(c, d.skip(1), s));
                    assert(merged@ + spec_merge(c, dstv@, srcv@) =~= (merged@.drop_last()
                        + spec_merge(c, d, s)));
                }
            } else {
                let entry = srcv.remove(0);
                merged.push(entry);
                proof {
                    assert(srcv@ =~= s.skip(1));
                    assert(spec_merge(c, d, s) == seq![s[0]] + spec_merge(c, d, s.skip(1)));
                    assert(merged@ + spec_merge(c, dstv@, srcv@) =~= (merged@.drop_last()
                        + spec_merge(c, d, s)));
                }
            }
        }
        merged.append(&mut dstv);
        merged.append(&mut srcv);
        core::mem::swap(buf.as_mut(), &mut merged);
        self.state.peeked_item.is_some()
    }

    /// Sort a batch of `(projection, id)` pairs by the sorter chain applied
    /// to the items the ids refer to: a stable insertion sort.
    fn sort_pairs(&self, src: Vec<(UIContext, usize)>) -> (r: Vec<(UIContext, usize)>)
        requires
            self.inv(),
            forall|i: int| 0 <= i < src@.len() ==> (#[trigger] src@[i]).1 < self@.items.len(),
        ensures
            r@ == spec_sort(view_cmp(self@), src@),
    {
        let ghost c = view_cmp(self@);
        let ghost s0 = src@;
        let mut src = src;
        let mut out: Vec<(UIContext, usize)> = Vec::new();
        proof {
            assert(s0.take(0) =~= Seq::<(UIContext, usize)>::empty());
        }
        while src.len() > 0
            invariant
                self.inv(),
                c == view_cmp(self@),
                src@.len() <= s0.len(),
                src@ == s0.skip(s0.len() - src@.len()),
                forall|i: int| 0 <= i < s0.len() ==> (#[trigger] s0[i]).1 < self@.items.len(),
                forall|i: int| 0 <= i < out@.len() ==> (#[trigger] out@[i]).1 < self@.items.len(),
                out@ == spec_sort(c, s0.take(s0.len() - src@.len())),
            decreases src.len(),
        {
            let ghost done = s0.len() - src@.len();
            let x = src.remove(0);
            proof {
                assert(x == s0[done]);
                assert(src@ =~= s0.skip(done + 1));
            }
            let mut j: usize = out.len();
            loop
                invariant_except_break
                    self.inv(),
                    c == view_cmp(self@),
                    j <= out@.len(),
                    x.1 < self@.items.len(),
                    forall|i: int| 0 <= i < out@.len() ==> (#[trigger] out@[i]).1 < self@.items.len(),
                    forall|k: int|
                        j <= k < out@.len() ==> c((#[trigger] out@[k]).1, x.1) == Ordering::Greater,
                ensures
                    j <= out@.len(),
                    forall|k: int|
                        j <= k < out@.len() ==> c((#[trigger] out@[k]).1, x.1) == Ordering::Greater,
                    j > 0 ==> c(out@[j - 1].1, x.1) != Ordering::Greater,
                decreases j,
            {
                if j == 0 {
                    break ;
                }
                let verdict = self.chain_compare(out[j - 1].1, x.1);
                if !matches!(verdict, Ordering::Greater) {
                    break ;
                }
                j = j - 1;
            }
            proof {
                lemma_insert_at(c, out@, x, j as int);
                assert(s0.take(done + 1).drop_last() =~= s0.take(done));
                assert(s0.take(done + 1).last() == s0[done]);
            }
            out.insert(j, x);
        }
        proof {
            assert(s0.take(s0.len() as int) =~= s0);
        }
        out
    }

    /// The source-phase state this engine is in, for a given budget and
    /// partially assembled batch.
    pub open spec fn pull_model(&self, budget: int, batch: Seq<usize>) -> SourcePhase<Cushion> {
        SourcePhase {
            remainings: self@.sources.map_values(|s: Src| s.remaining()),
            items: self@.items,
            replay: self@.replay,
            pos: self@.replay_pos as int,
            peeked: self@.peeked,
            first: self@.first_source,
            idx: self@.source_index as int,
            budget,
            batch,
        }
    }

    /// Decide whether the stored item `id` passes the filter policy under
    /// the live query.
    #[verifier::loop_isolation(false)]
    fn passes_filters(&self, id: usize) -> (r: bool)
        requires
            self.inv(),
            (id as int) < self@.items.len(),
        ensures
            r == spec_passes(self@.filters, self@.items[id as int], self@.input, self@.filter_and),
    {
        let item = &self.state.items[id];
        let q = self.state.input.as_str();
        if self.filter_and {
            let mut i: usize = 0;
            while i < self.filters.len()
                invariant
                    self.inv(),
                    i <= self@.filters.len(),
                    (id as int) < self@.items.len(),
                    *item == self@.items[id as int],
                    q@ == self@.input,
                    forall|k: int|
                        0 <= k < i ==> (#[trigger] self@.filters[k]).spec_predicate(
                            self@.items[id as int],
                            self@.input,
                        ),
                decreases self@.filters.len() - i,
            {
                if !self.filters[i].predicate(item, q) {
                    proof {
                        assert(!(self@.filters[i as int]).spec_predicate(
                            self@.items[id as int],
                            self@.input,
                        ));
                    }
                    return false;
                }
                i = i + 1;
            }
            true
        } else {
            let mut i: usize = 0;
            while i < self.filters.len()
                invariant
                    self.inv(),
                    i <= self@.filters.len(),
                    (id as int) < self@.items.len(),
                    *item == self@.items[id as int],
                    q@ == self@.input,
                    forall|k: int|
                        0 <= k < i ==> !(#[trigger] self@.filters[k]).spec_predicate(
                            self@.items[id as int],
                            self@.input,
                        ),
                decreases self@.filters.len() - i,
            {
                if self.filters[i].predicate(item, q) {
                    proof {
                        assert((self@.filters[i as int]).spec_predicate(
                            self@.items[id as int],
                            self@.input,
                        ));
                    }
                    return true;
                }
                i = i + 1;
            }
            false
        }
    }

    /// Replay every cached source id still ahead of the replay cursor into
    /// the batch. Replay is unmetered: these items were paid for by an
    /// earlier batch of this query.
    #[verifier::loop_isolation(false)]
    fn replay_cached(&mut self, batch: &mut Vec<usize>)
        requires
            old(self).inv(),
        ensures
            final(self).inv(),
            final(self)@ == (BatcherView {
                replay_pos: old(self)@.replay.len() as usize,
                ..old(self)@
            }),
            final(batch)@ == old(batch)@ + old(self)@.replay.skip(old(self)@.replay_pos as int),
    {
        let ghost pos0 = self@.replay_pos as int;
        let ghost b0 = batch@;
        while self.state.replay_pos.0 < self.state.replay.len()
            invariant
                self.inv(),
                self@ == (BatcherView { replay_pos: self@.replay_pos, ..old(self)@ }),
                pos0 <= self@.replay_pos as int <= self@.replay.len(),
                batch@ == b0 + self@.replay.subrange(pos0, self@.replay_pos as int),
            decreases self@.replay.len() - self@.replay_pos,
        {
            let ghost p = self@.replay_pos as int;
            let mut cursor = self.state.replay_pos;
            let got: Option<usize> = {
                let entry = self.state.replay.next(&mut cursor);
                match entry {
                    Some(id) => Some(*id),
                    None => None,
                }
            };
            self.state.replay_pos = cursor;
            match got {
                Some(id) => {
                    batch.push(id);
                    proof {
                        assert(self@.replay.subrange(pos0, p + 1) =~= self@.replay.subrange(
                            pos0,
                            p,
                        ).push(self@.replay[p]));
                    }
                },
                None => {
                    proof {
                        assert(false);
                    }
                },
            }
        }
        proof {
            assert(self@.replay.subrange(pos0, self@.replay.len() as int) =~= self@.replay.skip(
                pos0,
            ));
        }
    }

    /// Pull fresh items from the sources while budget remains, committing
    /// the lookahead and refilling it after every step.
    fn pull_sources(&mut self, batch: &mut Vec<usize>, budget: usize)
        requires
            old(self).inv(),
            budget > 0 ==> old(self)@.replay_pos as int == old(self)@.replay.len(),
            forall|i: int|
                0 <= i < old(batch)@.len() ==> (#[trigger] old(batch)@[i]) < old(self)@.items.len(),
        ensures
            final(self).inv(),
            forall|i: int|
                0 <= i < final(batch)@.len() ==> (#[trigger] final(batch)@[i]) < final(self)@.items.len(),
            ({
                let stf = run_pulls(old(self).pull_model(budget as int, old(batch)@));
                &&& final(self)@.items == stf.items
                &&& final(self)@.replay == stf.replay
                &&& final(self)@.replay_pos as int == stf.pos
                &&& final(self)@.peeked == stf.peeked
                &&& final(self)@.first_source == stf.first
                &&& final(self)@.source_index as int == stf.idx
                &&& final(self)@.sources.map_values(|s: Src| s.remaining()) == stf.remainings
                &&& final(self)@.sources.len() == old(self)@.sources.len()
                &&& final(batch)@ == stf.batch
                &&& final(self)@.filters == old(self)@.filters
                &&& final(self)@.sorters == old(self)@.sorters
                &&& final(self)@.generators == old(self)@.generators
                &&& final(self)@.projection == old(self)@.projection
                &&& final(self)@.batch_size == old(self)@.batch_size
                &&& final(self)@.filter_and == old(self)@.filter_and
                &&& final(self)@.input == old(self)@.input
                &&& final(self)@.gen_index == old(self)@.gen_index
            }),
    {
        let ghost v00 = old(self)@;
        let ghost target = run_pulls(old(self).pull_model(budget as int, old(batch)@));
        let mut budget = budget;
        while budget != 0
            invariant_except_break
                self.inv(),
                budget != 0 ==> self@.replay_pos as int == self@.replay.len(),
                forall|i: int|
                    0 <= i < batch@.len() ==> (#[trigger] batch@[i]) < self@.items.len(),
                run_pulls(self.pull_model(budget as int, batch@)) == target,
                self@.sources.len() == v00.sources.len(),
                self@.filters == v00.filters,
                self@.sorters == v00.sorters,
                self@.generators == v00.generators,
                self@.projection == v00.projection,
                self@.batch_size == v00.batch_size,
                self@.filter_and == v00.filter_and,
                self@.input == v00.input,
                self@.gen_index == v00.gen_index,
            ensures
                self.inv(),
                forall|i: int|
                    0 <= i < batch@.len() ==> (#[trigger] batch@[i]) < self@.items.len(),
                self.pull_model(budget as int, batch@) == target,
                self@.sources.len() == v00.sources.len(),
                self@.filters == v00.filters,
                self@.sorters == v00.sorters,
                self@.generators == v00.generators,
                self@.projection == v00.projection,
                self@.batch_size == v00.batch_size,
                self@.filter_and == v00.filter_and,
                self@.input == v00.input,
                self@.gen_index == v00.gen_index,
            decreases
                    self@.sources.len() - self@.source_index,
                    current_remaining(self.pull_model(budget as int, batch@)) + peek_count(
                        self@.peeked,
                    ),
                    (if self@.first_source {
                        1int
                    } else {
                        0int
                    }),
        {
            let ghost pre = self.pull_model(budget as int, batch@);
            if self.state.source_index < self.sources.len() {
                let taken = self.state.peeked_item.take();
                match taken {
                    Some(cushion) => {
                        budget = budget - 1;
                        let id = self.state.items.len();
                        self.state.items.push(cushion);
                        batch.push(id);
                        self.state.replay.push(id);
                        self.state.replay_pos.0 = self.state.replay.len();
                    },
                    None => {
                        if !self.state.first_source {
                            self.state.source_index = self.state.source_index + 1;
                            if self.state.source_index == self.sources.len() {
                                proof {
                                    let post = self.pull_model(budget as int, batch@);
                                    assert(run_pulls(pre) == post);
                                    assert(run_pulls(post) == post);
                                }
                                break ;
                            }
                        } else {
                            self.state.first_source = false;
                        }
                    },
                }
                let ghost mid = self.pull_model(budget as int, batch@);
                let ghost rems = mid.remainings;
                let ghost cur = self@.source_index as int;
                let s = &mut self.sources[self.state.source_index];
                let fetched = s.next();
                self.state.peeked_item = fetched;
                proof {
                    let post = self.pull_model(budget as int, batch@);
                    assert(post.remainings =~= rems.update(
                        cur,
                        self@.sources[cur].remaining(),
                    ));
                    assert(post =~= refill(mid));
                    assert(run_pulls(pre) == run_pulls(post));
                }
            } else {
                proof {
                    assert(run_pulls(pre) == pre);
                }
                break ;
            }
        }
    }

    /// Run the next slice of not-yet-run generators against the live query,
    /// storing every produced item and recording its id. One generator call
    /// is one unit of `budget`, regardless of how many items it yields.
    #[verifier::loop_isolation(false)]
    fn run_generator_phase(&mut self, batch: &mut Vec<usize>, budget: usize) -> (spent: usize)
        requires
            old(self).inv(),
            old(batch)@.len() == 0,
        ensures
            final(self).inv(),
            spent == gen_run_count_b(old(self)@, budget as int),
            final(self)@ == (BatcherView {
                items: old(self)@.items + gens_output(
                    old(self)@.generators,
                    old(self)@.gen_index as int,
                    old(self)@.gen_index + gen_run_count_b(old(self)@, budget as int),
                    old(self)@.input,
                ),
                gen_index: (old(self)@.gen_index + gen_run_count_b(old(self)@, budget as int)) as usize,
                ..old(self)@
            }),
            final(batch)@ == Seq::new(
                (final(self)@.items.len() - old(self)@.items.len()) as nat,
                |i: int| (old(self)@.items.len() + i) as usize,
            ),
            forall|i: int|
                0 <= i < final(batch)@.len() ==> (#[trigger] final(batch)@[i]) < final(self)@.items.len(),
    {
        let ghost items0 = self@.items;
        let gen_len = self.generators.len();
        if self.state.gen_index < gen_len && budget > 0 {
            let rem_gens = gen_len - self.state.gen_index;
            let to_run = if budget < rem_gens {
                budget
            } else {
                rem_gens
            };
            let g0 = self.state.gen_index;
            let mut gi: usize = 0;
            proof {
                assert(items0 + gens_output(self@.generators, g0 as int, g0 as int, self@.input)
                    =~= items0);
            }
            while gi < to_run
                invariant
                    self.inv(),
                    gi <= to_run,
                    self@ == (BatcherView {
                        items: items0 + gens_output(
                            self@.generators,
                            g0 as int,
                            g0 + gi,
                            self@.input,
                        ),
                        ..old(self)@
                    }),
                    batch@.len() == self@.items.len() - items0.len(),
                    forall|i: int|
                        0 <= i < batch@.len() ==> (#[trigger] batch@[i]) == items0.len() + i,
                decreases to_run - gi,
            {
                let idx = g0 + gi;
                let mut produced = self.generators[idx].generate(self.state.input.as_str());
                let ghost pseq = produced@;
                let ghost before = self@.items;
                proof {
                    assert(before + pseq.take(0) =~= before);
                }
                while produced.len() > 0
                    invariant
                        self.inv(),
                        produced@.len() <= pseq.len(),
                        produced@ == pseq.skip(pseq.len() - produced@.len()),
                        self@ == (BatcherView {
                            items: before + pseq.take(pseq.len() - produced@.len()),
                            ..old(self)@
                        }),
                        batch@.len() == self@.items.len() - items0.len(),
                        forall|i: int|
                            0 <= i < batch@.len() ==> (#[trigger] batch@[i]) == items0.len() + i,
                    decreases produced.len(),
                {
                    let ghost consumed = pseq.len() - produced@.len();
                    let item = produced.remove(0);
                    proof {
                        assert(item == pseq[consumed]);
                        assert(produced@ =~= pseq.skip(consumed + 1));
                    }
                    let id = self.state.items.len();
                    self.state.items.push(item);
                    batch.push(id);
                    proof {
                        assert(pseq.take(consumed + 1) =~= pseq.take(consumed).push(
                            pseq[consumed],
                        ));
                        assert((before + pseq.take(consumed)).push(pseq[consumed]) =~= before
                            + pseq.take(consumed + 1));
                    }
                }
                proof {
                    assert(pseq.take(pseq.len() as int) =~= pseq);
                    lemma_gens_output_snoc(self@.generators, g0 as int, idx as int, self@.input);
                    assert((items0 + gens_output(self@.generators, g0 as int, idx as int, self@.input))
                        + pseq =~= items0 + gens_output(
                        self@.generators,
                        g0 as int,
                        idx + 1,
                        self@.input,
                    ));
                }
                gi = gi + 1;
            }
            self.state.gen_index = self.state.gen_index + to_run;
            proof {
                assert(final(batch)@ =~= Seq::new(
                    (self@.items.len() - items0.len()) as nat,
                    |i: int| (items0.len() + i) as usize,
                ));
            }
            to_run
        } else {
            proof {
                assert(gens_output(
                    self@.generators,
                    self@.gen_index as int,
                    self@.gen_index as int,
                    self@.input,
                ) == Seq::<Cushion>::empty());
                assert(items0 + Seq::<Cushion>::empty() =~= items0);
                assert(self@ =~= (BatcherView {
                    items: old(self)@.items + gens_output(
                        old(self)@.generators,
                        old(self)@.gen_index as int,
                        old(self)@.gen_index as int,
                        old(self)@.input,
                    ),
                    gen_index: old(self)@.gen_index,
                    ..old(self)@
                }));
                assert(final(batch)@ =~= Seq::new(
                    0,
                    |i: int| (items0.len() + i) as usize,
                ));
            }
            0
        }
    }

    /// Assemble the next batch for the live query: run due generators,
    /// replay cached source ids, pull fresh source items while budget
    /// remains, then filter, project and sort the assembled ids. Fails,
    /// leaving the engine untouched, when no projection was registered.
    #[verifier::loop_isolation(false)]
    pub fn prepare(&mut self) -> (r: Result<Prepared<UIContext>, EngineError>)
        requires
            old(self).inv(),
        ensures
            final(self).inv(),
            old(self)@.projection is None ==> r == Err::<Prepared<UIContext>, EngineError>(
                EngineError::ProjectionNotSet,
            ) && final(self)@ == old(self)@,
            old(self)@.projection is Some ==> ({
                let st = prepare_source_state(old(self)@);
                &&& r is Ok
                &&& r.unwrap()@ == prepared_output(old(self)@, st)
                &&& final(self)@.items == st.items
                &&& final(self)@.replay == st.replay
                &&& final(self)@.replay_pos as int == st.pos
                &&& final(self)@.peeked == st.peeked
                &&& final(self)@.first_source == st.first
                &&& final(self)@.source_index as int == st.idx
                &&& final(self)@.sources.map_values(|s: Src| s.remaining()) == st.remainings
                &&& final(self)@.sources.len() == old(self)@.sources.len()
                &&& final(self)@.gen_index as int == old(self)@.gen_index + gen_run_count_b(
                    old(self)@,
                    budget_of(old(self)@.batch_size),
                )
                &&& final(self)@.filters == old(self)@.filters
                &&& final(self)@.sorters == old(self)@.sorters
                &&& final(self)@.generators == old(self)@.generators
                &&& final(self)@.projection == old(self)@.projection
                &&& final(self)@.batch_size == old(self)@.batch_size
                &&& final(self)@.filter_and == old(self)@.filter_and
                &&& final(self)@.input == old(self)@.input
            }),
    {
        if self.cushion_to_ui.is_none() {
            return Err(EngineError::ProjectionNotSet);
        }
        let ghost v0 = self@;
        let mut batch_count: usize = if self.batch_size == 0 {
            usize::MAX
        } else {
            self.batch_size
        };
        proof {
            assert(batch_count as int == budget_of(v0.batch_size));
        }
        let mut ids: Vec<usize> = Vec::new();
        let spent = self.run_generator_phase(&mut ids, batch_count);
        batch_count = batch_count - spent;
        let ghost st1 = self.pull_model(batch_count as int, ids@);
        if batch_count > 0 {
            self.replay_cached(&mut ids);
        }
        proof {
            self.state.replay.lemma_len_bounded();
            assert(self.pull_model(batch_count as int, ids@) =~= replay_phase(st1));
            assert(forall|i: int| 0 <= i < ids@.len() ==> (#[trigger] ids@[i]) < self@.items.len());
        }
        self.pull_sources(&mut ids, batch_count);
        let ghost st = prepare_source_state(v0);
        proof {
            assert(st == run_pulls(replay_phase(st1)));
        }
        let ghost pred = passes_pred(v0.filters, st.items, v0.input, v0.filter_and);
        let mut kept: Vec<usize> = Vec::new();
        let mut i: usize = 0;
        proof {
            assert(ids@.take(0).filter(pred) =~= Seq::<usize>::empty());
        }
        while i < ids.len()
            invariant
                i <= ids@.len(),
                kept@ == ids@.take(i as int).filter(pred),
                forall|k: int| 0 <= k < kept@.len() ==> (#[trigger] kept@[k]) < self@.items.len(),
            decreases ids@.len() - i,
        {
            let id = ids[i];
            let keep = self.passes_filters(id);
            proof {
                Seq::lemma_filter_push(ids@.take(i as int), id, pred);
                assert(ids@.take(i as int + 1) =~= ids@.take(i as int).push(id));
            }
            if keep {
                kept.push(id);
            }
            i = i + 1;
        }
        proof {
            assert(ids@.take(ids@.len() as int) =~= ids@);
        }
        let ghost mapper = pair_proj(v0.projection.unwrap(), st.items);
        let mut pairs: Vec<(UIContext, usize)> = Vec::new();
        match &self.cushion_to_ui {
            Some(f) => {
                let ghost q = project_spec_of(*f);
                let mut j: usize = 0;
                proof {
                    assert(kept@.take(0).map_values(mapper) =~= Seq::<(UIContext, usize)>::empty());
                }
                while j < kept.len()
                    invariant
                        j <= kept@.len(),
                        pairs@ == kept@.take(j as int).map_values(mapper),
                        forall|k: int|
                            0 <= k < pairs@.len() ==> (#[trigger] pairs@[k]).1 < self@.items.len(),
                    decreases kept@.len() - j,
                {
                    let id = kept[j];
                    let shown = f(&self.state.items[id]);
                    proof {
                        assert(project_fn_models(*f, q));
                        assert(call_ensures(*f, (&self@.items[id as int],), shown));
                        assert(shown == q(self@.items[id as int]));
                        assert(kept@.take(j as int + 1) =~= kept@.take(j as int).push(id));
                        assert(kept@.take(j as int + 1).map_values(mapper) =~= kept@.take(
                            j as int,
                        ).map_values(mapper).push(mapper(id)));
                    }
                    pairs.push((shown, id));
                    j = j + 1;
                }
                proof {
                    assert(kept@.take(kept@.len() as int) =~= kept@);
                }
            },
            None => {
                proof {
                    assert(false);
                }
            },
        }
        let sorted = self.sort_pairs(pairs);
        proof {
            assert(v0.generators == old(self).generators@);
            assert(old(self).generators.len() == old(self).generators@.len());
            assert(v0.gen_index + gen_run_count_b(v0, budget_of(v0.batch_size))
                <= v0.generators.len() <= usize::MAX);
        }
        Ok(Prepared::new(Buffer::from(sorted)))
    }
}

} // verus!
