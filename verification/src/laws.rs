//! The engine's global guarantees, stated and proved over the mathematical
//! model: merging never loses a visible entry, the visible buffer stays
//! totally ordered, fresh pulls spend the budget exactly, and replaying a
//! drained query does not depend on the budget or touch the sources.

use crate::batcher::{
    gen_run_count_b, gens_output, items_cmp, peek_count, prepare_source_state, prepared_output,
    refill, replay_phase, run_pulls, spec_insert, spec_merge, spec_passes, spec_sort, BatcherView,
    SourcePhase,
};
use crate::filter::Filter;
use crate::generator::Generator;
use crate::sorter::{spec_chain_cmp, Sorter};
use crate::source::Source;
use core::cmp::Ordering;
use vstd::multiset::Multiset;
use vstd::prelude::*;
use vstd::seq_lib::lemma_multiset_commutative;

verus! {

/// The mirror image of a comparator verdict.
pub open spec fn ord_flip(o: Ordering) -> Ordering {
    match o {
        Ordering::Less => Ordering::Greater,
        Ordering::Equal => Ordering::Equal,
        Ordering::Greater => Ordering::Less,
    }
}

/// What it takes for an id comparator to order batches: swapping the
/// arguments mirrors the verdict, and "not Greater" carries over chains.
pub open spec fn total_preorder(c: spec_fn(usize, usize) -> Ordering) -> bool {
    &&& (forall|a: usize, b: usize| #[trigger] c(a, b) == ord_flip(c(b, a)))
    &&& (forall|a: usize, b: usize, d: usize|
        #![trigger c(a, b), c(b, d)]
        c(a, b) != Ordering::Greater && c(b, d) != Ordering::Greater ==> c(a, d)
            != Ordering::Greater)
}

/// A lawful sorter mirrors its verdict under argument swap, and its
/// "not Greater" relation is transitive: what callers expect of any
/// comparator.
pub open spec fn sorter_lawful<S: Sorter>(s: S, input: Seq<char>) -> bool {
    &&& (forall|a: S::Context, b: S::Context| #[trigger]
        s.spec_compare(a, b, input) == ord_flip(s.spec_compare(b, a, input)))
    &&& (forall|a: S::Context, b: S::Context, d: S::Context|
        #![trigger s.spec_compare(a, b, input), s.spec_compare(b, d, input)]
        s.spec_compare(a, b, input) != Ordering::Greater && s.spec_compare(b, d, input)
            != Ordering::Greater ==> s.spec_compare(a, d, input) != Ordering::Greater)
}

/// The batch is ordered: no adjacent pair compares Greater.
pub open spec fn sorted_by_cmp<U>(c: spec_fn(usize, usize) -> Ordering, s: Seq<(U, usize)>) -> bool {
    forall|i: int|
        0 <= i < s.len() - 1 ==> (#[trigger] c(s[i].1, s[i + 1].1)) != Ordering::Greater
}

/// A chain of lawful sorters compares lawfully: the lexicographic
/// combination mirrors under swap and keeps "not Greater" transitive.
pub proof fn lemma_chain_cmp_lawful<S: Sorter>(sorters: Seq<S>, input: Seq<char>)
    requires
        forall|i: int| 0 <= i < sorters.len() ==> sorter_lawful(#[trigger] sorters[i], input),
    ensures
        forall|a: S::Context, b: S::Context| #[trigger]
            spec_chain_cmp(sorters, a, b, input) == ord_flip(spec_chain_cmp(sorters, b, a, input)),
        forall|a: S::Context, b: S::Context, d: S::Context|
            #![trigger spec_chain_cmp(sorters, a, b, input), spec_chain_cmp(sorters, b, d, input)]
            spec_chain_cmp(sorters, a, b, input) != Ordering::Greater && spec_chain_cmp(
                sorters,
                b,
                d,
                input,
            ) != Ordering::Greater ==> spec_chain_cmp(sorters, a, d, input) != Ordering::Greater,
    decreases sorters.len(),
{
    if sorters.len() == 0 {
    } else {
        let rest = sorters.skip(1);
        assert(forall|i: int| 0 <= i < rest.len() ==> sorter_lawful(#[trigger] rest[i], input))
            by {
            assert(forall|i: int|
                0 <= i < rest.len() ==> #[trigger] rest[i] == sorters[i + 1]);
        }
        lemma_chain_cmp_lawful(rest, input);
        let s0 = sorters[0];
        assert forall|a: S::Context, b: S::Context| #[trigger]
            spec_chain_cmp(sorters, a, b, input) == ord_flip(
            spec_chain_cmp(sorters, b, a, input),
        ) by {
            let cab = s0.spec_compare(a, b, input);
            assert(cab == ord_flip(s0.spec_compare(b, a, input)));
            if cab == Ordering::Equal {
                assert(spec_chain_cmp(sorters, a, b, input) == spec_chain_cmp(rest, a, b, input));
                assert(spec_chain_cmp(sorters, b, a, input) == spec_chain_cmp(rest, b, a, input));
            }
        }
        assert forall|a: S::Context, b: S::Context, d: S::Context|
            #![trigger spec_chain_cmp(sorters, a, b, input), spec_chain_cmp(sorters, b, d, input)]
            spec_chain_cmp(sorters, a, b, input) != Ordering::Greater && spec_chain_cmp(
                sorters,
                b,
                d,
                input,
            ) != Ordering::Greater implies spec_chain_cmp(sorters, a, d, input)
            != Ordering::Greater by {
            let cab = s0.spec_compare(a, b, input);
            let cbd = s0.spec_compare(b, d, input);
            let cad = s0.spec_compare(a, d, input);
            assert(cab != Ordering::Greater);
            assert(cbd != Ordering::Greater);
            assert(cad != Ordering::Greater);
            if cad == Ordering::Equal {
                if cab == Ordering::Equal && cbd == Ordering::Equal {
                    assert(spec_chain_cmp(sorters, a, b, input) == spec_chain_cmp(
                        rest,
                        a,
                        b,
                        input,
                    ));
                    assert(spec_chain_cmp(sorters, b, d, input) == spec_chain_cmp(
                        rest,
                        b,
                        d,
                        input,
                    ));
                    assert(spec_chain_cmp(rest, a, d, input) != Ordering::Greater);
                    assert(spec_chain_cmp(sorters, a, d, input) == spec_chain_cmp(
                        rest,
                        a,
                        d,
                        input,
                    ));
                } else if cab == Ordering::Less {
                    // a < b and b <= d, yet a equals d under the head
                    // sorter: then d <= a gives d <= b, so b == d under it,
                    // and b <= a contradicts a < b.
                    assert(s0.spec_compare(d, a, input) != Ordering::Greater);
                    assert(s0.spec_compare(d, b, input) != Ordering::Greater);
                    assert(s0.spec_compare(b, d, input) != Ordering::Less);
                    assert(cbd == Ordering::Equal);
                    assert(s0.spec_compare(b, a, input) != Ordering::Greater);
                    assert(false);
                } else {
                    // a == b under the head sorter, so b < d is impossible
                    // alongside a == d by the same exchange.
                    assert(cab == Ordering::Equal);
                    assert(cbd == Ordering::Less);
                    assert(s0.spec_compare(d, a, input) == Ordering::Equal);
                    assert(s0.spec_compare(d, b, input) != Ordering::Greater);
                    assert(s0.spec_compare(b, d, input) != Ordering::Less);
                    assert(false);
                }
            }
        }
    }
}

/// A chain of lawful sorters orders stored ids as a total preorder.
pub proof fn lemma_items_cmp_preorder<Cushion, S: Sorter<Context = Cushion>>(
    sorters: Seq<S>,
    items: Seq<Cushion>,
    input: Seq<char>,
)
    requires
        forall|i: int| 0 <= i < sorters.len() ==> sorter_lawful(#[trigger] sorters[i], input),
    ensures
        total_preorder(items_cmp(sorters, items, input)),
{
    lemma_chain_cmp_lawful(sorters, input);
    let c = items_cmp(sorters, items, input);
    assert forall|a: usize, b: usize| #[trigger] c(a, b) == ord_flip(c(b, a)) by {
        assert(spec_chain_cmp(sorters, items[a as int], items[b as int], input) == ord_flip(
            spec_chain_cmp(sorters, items[b as int], items[a as int], input),
        ));
    }
    assert forall|a: usize, b: usize, d: usize|
        #![trigger c(a, b), c(b, d)]
        c(a, b) != Ordering::Greater && c(b, d) != Ordering::Greater implies c(a, d)
        != Ordering::Greater by {
        assert(spec_chain_cmp(sorters, items[a as int], items[b as int], input)
            != Ordering::Greater);
        assert(spec_chain_cmp(sorters, items[b as int], items[d as int], input)
            != Ordering::Greater);
    }
}

/// Merging loses nothing and invents nothing: the merged buffer holds
/// exactly the entries of the old buffer and of the incoming batch. In
/// particular, for a fixed query, repeated merges only add entries.
pub proof fn lemma_merge_multiset<U>(
    c: spec_fn(usize, usize) -> Ordering,
    dst: Seq<(U, usize)>,
    src: Seq<(U, usize)>,
)
    ensures
        spec_merge(c, dst, src).to_multiset() == dst.to_multiset().add(src.to_multiset()),
        spec_merge(c, dst, src).len() == dst.len() + src.len(),
    decreases dst.len() + src.len(),
{
    broadcast use vstd::seq_lib::group_to_multiset_ensures;

    if dst.len() == 0 {
        assert(dst.to_multiset() =~= Multiset::<(U, usize)>::empty());
        assert(dst.to_multiset().add(src.to_multiset()) =~= src.to_multiset());
    } else if src.len() == 0 {
        assert(src.to_multiset() =~= Multiset::<(U, usize)>::empty());
        assert(dst.to_multiset().add(src.to_multiset()) =~= dst.to_multiset());
    } else if c(dst[0].1, src[0].1) != Ordering::Greater {
        lemma_merge_multiset(c, dst.skip(1), src);
        lemma_multiset_commutative(seq![dst[0]], spec_merge(c, dst.skip(1), src));
        lemma_multiset_commutative(seq![dst[0]], dst.skip(1));
        assert(seq![dst[0]] + dst.skip(1) =~= dst);
        assert(spec_merge(c, dst, src).to_multiset() =~= dst.to_multiset().add(
            src.to_multiset(),
        ));
    } else {
        lemma_merge_multiset(c, dst, src.skip(1));
        lemma_multiset_commutative(seq![src[0]], spec_merge(c, dst, src.skip(1)));
        lemma_multiset_commutative(seq![src[0]], src.skip(1));
        assert(seq![src[0]] + src.skip(1) =~= src);
        assert(spec_merge(c, dst, src).to_multiset() =~= dst.to_multiset().add(
            src.to_multiset(),
        ));
    }
}

/// The first entry of a merge is the first entry of one of its inputs.
proof fn lemma_merge_first<U>(
    c: spec_fn(usize, usize) -> Ordering,
    dst: Seq<(U, usize)>,
    src: Seq<(U, usize)>,
)
    requires
        dst.len() + src.len() > 0,
    ensures
        (dst.len() > 0 && spec_merge(c, dst, src)[0] == dst[0]) || (src.len() > 0 && spec_merge(
            c,
            dst,
            src,
        )[0] == src[0]),
{
}

/// After every merge of sorted inputs under a total preorder, the visible
/// buffer is still sorted: no adjacent pair compares Greater.
pub proof fn lemma_merge_sorted<U>(
    c: spec_fn(usize, usize) -> Ordering,
    dst: Seq<(U, usize)>,
    src: Seq<(U, usize)>,
)
    requires
        total_preorder(c),
        sorted_by_cmp(c, dst),
        sorted_by_cmp(c, src),
    ensures
        sorted_by_cmp(c, spec_merge(c, dst, src)),
    decreases dst.len() + src.len(),
{
    lemma_merge_multiset(c, dst, src);
    if dst.len() == 0 || src.len() == 0 {
    } else if c(dst[0].1, src[0].1) != Ordering::Greater {
        let rest = spec_merge(c, dst.skip(1), src);
        assert(sorted_by_cmp(c, dst.skip(1))) by {
            assert(forall|i: int|
                0 <= i < dst.skip(1).len() ==> #[trigger] dst.skip(1)[i] == dst[i + 1]);
        }
        lemma_merge_sorted(c, dst.skip(1), src);
        let merged = spec_merge(c, dst, src);
        assert(merged =~= seq![dst[0]] + rest);
        lemma_merge_multiset(c, dst.skip(1), src);
        assert forall|i: int|
            0 <= i < merged.len() - 1 implies (#[trigger] c(merged[i].1, merged[i + 1].1))
            != Ordering::Greater by {
            if i == 0 {
                if dst.skip(1).len() == 0 {
                    assert(rest =~= src);
                    assert(merged[1] == src[0]);
                } else if src.len() == 0 {
                    assert(rest =~= dst.skip(1));
                    assert(merged[1] == dst[1]);
                } else {
                    lemma_merge_first(c, dst.skip(1), src);
                    assert(rest[0] == dst.skip(1)[0] || rest[0] == src[0]);
                    assert(dst.skip(1)[0] == dst[1]);
                    assert(c(dst[0].1, dst[1].1) != Ordering::Greater);
                    assert(merged[1] == rest[0]);
                }
            } else {
                let j = i - 1;
                assert(merged[i] == rest[j] && merged[i + 1] == rest[j + 1]);
                assert(c(rest[j].1, rest[j + 1].1) != Ordering::Greater);
            }
        }
    } else {
        let rest = spec_merge(c, dst, src.skip(1));
        assert(sorted_by_cmp(c, src.skip(1))) by {
            assert(forall|i: int|
                0 <= i < src.skip(1).len() ==> #[trigger] src.skip(1)[i] == src[i + 1]);
        }
        lemma_merge_sorted(c, dst, src.skip(1));
        let merged = spec_merge(c, dst, src);
        assert(merged =~= seq![src[0]] + rest);
        lemma_merge_multiset(c, dst, src.skip(1));
        assert(c(src[0].1, dst[0].1) != Ordering::Greater);
        assert forall|i: int|
            0 <= i < merged.len() - 1 implies (#[trigger] c(merged[i].1, merged[i + 1].1))
            != Ordering::Greater by {
            if i == 0 {
                if src.skip(1).len() == 0 {
                    assert(rest =~= dst);
                    assert(merged[1] == dst[0]);
                } else if dst.len() == 0 {
                } else {
                    lemma_merge_first(c, dst, src.skip(1));
                    assert(rest[0] == dst[0] || rest[0] == src.skip(1)[0]);
                    assert(src.skip(1)[0] == src[1]);
                    assert(c(src[0].1, src[1].1) != Ordering::Greater);
                    assert(merged[1] == rest[0]);
                }
            } else {
                let j = i - 1;
                assert(merged[i] == rest[j] && merged[i + 1] == rest[j + 1]);
                assert(c(rest[j].1, rest[j + 1].1) != Ordering::Greater);
            }
        }
    }
}

/// One insertion-sort step keeps the batch sorted and adds exactly the new
/// entry.
proof fn lemma_insert_sorted<U>(
    c: spec_fn(usize, usize) -> Ordering,
    s: Seq<(U, usize)>,
    x: (U, usize),
)
    requires
        total_preorder(c),
        sorted_by_cmp(c, s),
    ensures
        sorted_by_cmp(c, spec_insert(c, s, x)),
        spec_insert(c, s, x).to_multiset() == s.to_multiset().insert(x),
        spec_insert(c, s, x).len() == s.len() + 1,
    decreases s.len(),
{
    broadcast use vstd::seq_lib::group_to_multiset_ensures;

    if s.len() == 0 {
        assert(spec_insert(c, s, x) =~= Seq::<(U, usize)>::empty().push(x));
        assert(s.to_multiset() =~= Multiset::<(U, usize)>::empty());
    } else if c(s.last().1, x.1) == Ordering::Greater {
        assert(sorted_by_cmp(c, s.drop_last())) by {
            assert(forall|i: int|
                0 <= i < s.drop_last().len() ==> #[trigger] s.drop_last()[i] == s[i]);
        }
        lemma_insert_sorted(c, s.drop_last(), x);
        let inner = spec_insert(c, s.drop_last(), x);
        let res = inner.push(s.last());
        assert(spec_insert(c, s, x) == res);
        // the boundary pair: the last entry of `inner` is either `x`, which
        // sits below `s.last()` by the swap law, or an entry of
        // `s.drop_last()`, which sat below `s.last()` already
        assert forall|i: int|
            0 <= i < res.len() - 1 implies (#[trigger] c(res[i].1, res[i + 1].1))
            != Ordering::Greater by {
            if i < inner.len() - 1 {
                assert(res[i] == inner[i] && res[i + 1] == inner[i + 1]);
                assert(c(inner[i].1, inner[i + 1].1) != Ordering::Greater);
            } else {
                assert(res[i] == inner.last() && res[i + 1] == s.last());
                if s.drop_last().len() == 0 {
                    assert(inner =~= seq![x]);
                    assert(c(x.1, s.last().1) == ord_flip(c(s.last().1, x.1)));
                } else if c(s.drop_last().last().1, x.1) == Ordering::Greater {
                    assert(inner == spec_insert(c, s.drop_last().drop_last(), x).push(
                        s.drop_last().last(),
                    ));
                    assert(inner.last() == s.drop_last().last());
                    assert(s.drop_last().last() == s[s.len() - 2]);
                    assert(c(s[s.len() - 2].1, s[s.len() - 1].1) != Ordering::Greater);
                } else {
                    assert(inner == s.drop_last().push(x));
                    assert(inner.last() == x);
                    assert(c(x.1, s.last().1) == ord_flip(c(s.last().1, x.1)));
                }
            }
        }
        assert(s.drop_last().push(s.last()) =~= s);
        assert(res.to_multiset() =~= s.to_multiset().insert(x));
    } else {
        let res = s.push(x);
        assert(spec_insert(c, s, x) == res);
        assert forall|i: int|
            0 <= i < res.len() - 1 implies (#[trigger] c(res[i].1, res[i + 1].1))
            != Ordering::Greater by {
            if i < s.len() - 1 {
                assert(res[i] == s[i] && res[i + 1] == s[i + 1]);
            } else {
                assert(res[i] == s.last() && res[i + 1] == x);
            }
        }
    }
}

/// The stable insertion sort orders its input under any total preorder and
/// neither loses nor invents an entry.
pub proof fn lemma_sort_sorted<U>(c: spec_fn(usize, usize) -> Ordering, s: Seq<(U, usize)>)
    requires
        total_preorder(c),
    ensures
        sorted_by_cmp(c, spec_sort(c, s)),
        spec_sort(c, s).to_multiset() == s.to_multiset(),
        spec_sort(c, s).len() == s.len(),
    decreases s.len(),
{
    broadcast use vstd::seq_lib::group_to_multiset_ensures;

    if s.len() == 0 {
    } else {
        lemma_sort_sorted(c, s.drop_last());
        lemma_insert_sorted(c, spec_sort(c, s.drop_last()), s.last());
        assert(s.drop_last().push(s.last()) =~= s);
        assert(spec_sort(c, s).to_multiset() =~= s.to_multiset());
    }
}

/// The batch `prepare` hands out is sorted under the active comparator
/// chain, whenever the registered sorters are lawful comparators.
pub proof fn lemma_prepared_output_sorted<Cushion, UIContext, Src, F, S, G>(
    v: BatcherView<Cushion, UIContext, Src, F, S, G>,
    st: SourcePhase<Cushion>,
) where
    Src: Source<Item = Cushion>,
    F: Filter<Context = Cushion>,
    S: Sorter<Context = Cushion>,
    G: Generator<Item = Cushion>,

    requires
        forall|i: int| 0 <= i < v.sorters.len() ==> sorter_lawful(#[trigger] v.sorters[i], v.input),
    ensures
        sorted_by_cmp(items_cmp(v.sorters, st.items, v.input), prepared_output(v, st)),
{
    lemma_items_cmp_preorder(v.sorters, st.items, v.input);
    let kept = st.batch.filter(
        crate::batcher::passes_pred(v.filters, st.items, v.input, v.filter_and),
    );
    let pairs = kept.map_values(crate::batcher::pair_proj(v.projection.unwrap(), st.items));
    lemma_sort_sorted(items_cmp(v.sorters, st.items, v.input), pairs);
}

/// With the AND policy two filters keep exactly the items both accept (the
/// intersection of their predicate sets); with the OR policy, exactly the
/// items either accepts (the union).
pub proof fn lemma_two_filter_policy<Cushion, F: Filter<Context = Cushion>>(
    f: F,
    g: F,
    item: Cushion,
    input: Seq<char>,
)
    ensures
        spec_passes(seq![f, g], item, input, true) == (f.spec_predicate(item, input)
            && g.spec_predicate(item, input)),
        spec_passes(seq![f, g], item, input, false) == (f.spec_predicate(item, input)
            || g.spec_predicate(item, input)),
{
    let fs = seq![f, g];
    assert(fs[0] == f && fs[1] == g);
    if f.spec_predicate(item, input) && g.spec_predicate(item, input) {
        assert forall|i: int| 0 <= i < fs.len() implies (#[trigger] fs[i]).spec_predicate(
            item,
            input,
        ) by {
            if i == 0 {
            } else {
                assert(fs[i] == g);
            }
        }
    }
    if spec_passes(fs, item, input, true) {
        assert(fs[0].spec_predicate(item, input));
        assert(fs[1].spec_predicate(item, input));
    }
    if f.spec_predicate(item, input) {
        assert(fs[0].spec_predicate(item, input));
    }
    if g.spec_predicate(item, input) {
        assert(fs[1].spec_predicate(item, input));
    }
}

/// How many items the sources can still deliver, from the current source
/// on, lookahead included.
pub open spec fn suffix_len<C>(rs: Seq<Seq<C>>, i: int) -> nat
    decreases rs.len() - i,
{
    if 0 <= i < rs.len() {
        rs[i].len() + suffix_len(rs, i + 1)
    } else {
        0
    }
}

/// The items still available to fresh pulls.
pub open spec fn pull_available<C>(st: SourcePhase<C>) -> int {
    peek_count(st.peeked) + suffix_len(st.remainings, st.idx)
}

/// Sequences that agree from position `i` on have the same tail weight.
proof fn lemma_suffix_len_agree<C>(rs: Seq<Seq<C>>, rs2: Seq<Seq<C>>, i: int)
    requires
        rs2.len() == rs.len(),
        forall|k: int| i <= k < rs.len() ==> rs2[k] == rs[k],
    ensures
        suffix_len(rs2, i) == suffix_len(rs, i),
    decreases rs.len() - i,
{
    if 0 <= i < rs.len() {
        lemma_suffix_len_agree(rs, rs2, i + 1);
    }
}

/// Budget exactness for sources: the fresh-pull loop commits exactly
/// `min(budget, available)` new items. In particular, with a single finite
/// source of `N` items and batch size `B`, every `prepare` call assigns
/// exactly `B` new ids until fewer than `B` remain, then exactly the
/// remainder.
pub proof fn lemma_pull_budget_exact<C>(st: SourcePhase<C>)
    requires
        0 <= st.budget,
        0 <= st.idx <= st.remainings.len(),
        st.peeked is None && !st.first && st.idx < st.remainings.len()
            ==> st.remainings[st.idx].len() == 0,
        st.idx == st.remainings.len() ==> st.peeked is None,
    ensures
        run_pulls(st).items.len() - st.items.len() == (if st.budget <= pull_available(st) {
            st.budget
        } else {
            pull_available(st)
        }),
        run_pulls(st).batch.len() - st.batch.len() == run_pulls(st).items.len() - st.items.len(),
    decreases
            st.remainings.len() - st.idx,
            crate::batcher::current_remaining(st) + peek_count(st.peeked),
            (if st.first {
                1int
            } else {
                0int
            }),
{
    if st.budget <= 0 {
    } else if st.idx < st.remainings.len() {
        match st.peeked {
            Some(k) => {
                let id = st.items.len() as usize;
                let st2 = SourcePhase {
                    items: st.items.push(k),
                    replay: st.replay.push(id),
                    pos: st.pos + 1,
                    peeked: None,
                    budget: st.budget - 1,
                    batch: st.batch.push(id),
                    ..st
                };
                let stf = refill(st2);
                lemma_pull_budget_exact(stf);
                let rem = st.remainings[st.idx];
                if rem.len() > 0 {
                    lemma_suffix_len_agree(
                        st.remainings,
                        stf.remainings,
                        st.idx + 1,
                    );
                    assert(suffix_len(stf.remainings, stf.idx) == suffix_len(
                        stf.remainings,
                        st.idx + 1,
                    ) + rem.skip(1).len());
                    assert(pull_available(stf) == pull_available(st) - 1);
                } else {
                    assert(pull_available(stf) == pull_available(st) - 1);
                }
            },
            None => {
                if !st.first {
                    let adv = SourcePhase { idx: st.idx + 1, ..st };
                    assert(suffix_len(st.remainings, st.idx) == suffix_len(
                        st.remainings,
                        st.idx + 1,
                    ));
                    if st.idx + 1 == st.remainings.len() {
                        assert(pull_available(st) == 0);
                    } else {
                        let stf = refill(adv);
                        lemma_pull_budget_exact(stf);
                        let rem = st.remainings[st.idx + 1];
                        if rem.len() > 0 {
                            lemma_suffix_len_agree(st.remainings, stf.remainings, st.idx + 2);
                            assert(suffix_len(stf.remainings, st.idx + 1) == rem.skip(1).len()
                                + suffix_len(stf.remainings, st.idx + 2));
                            assert(pull_available(stf) == pull_available(st));
                        } else {
                            assert(pull_available(stf) == pull_available(st));
                        }
                    }
                } else {
                    let fst = SourcePhase { first: false, ..st };
                    let stf = refill(fst);
                    lemma_pull_budget_exact(stf);
                    let rem = st.remainings[st.idx];
                    if rem.len() > 0 {
                        lemma_suffix_len_agree(st.remainings, stf.remainings, st.idx + 1);
                        assert(suffix_len(stf.remainings, stf.idx) == rem.skip(1).len()
                            + suffix_len(stf.remainings, st.idx + 1));
                        assert(pull_available(stf) == pull_available(st));
                    } else {
                        assert(pull_available(stf) == pull_available(st));
                    }
                }
            },
        }
    } else {
        assert(pull_available(st) == 0);
    }
}

/// Budget exactness at the `prepare` level: a call on an engine without
/// generators stores exactly `min(batch budget, items still available)`
/// fresh items. With a single finite source of `N` items and batch size
/// `B`, that is exactly `B` per call until fewer than `B` remain, then the
/// remainder, and the total over all calls is `N`.
pub proof fn lemma_prepare_budget_exact<Cushion, UIContext, Src, F, S, G>(
    v: BatcherView<Cushion, UIContext, Src, F, S, G>,
) where
    Src: Source<Item = Cushion>,
    F: Filter<Context = Cushion>,
    S: Sorter<Context = Cushion>,
    G: Generator<Item = Cushion>,

    requires
        v.generators.len() == 0,
        0 <= v.source_index <= v.sources.len(),
        v.replay_pos <= v.replay.len(),
        v.peeked is None && !v.first_source && v.source_index < v.sources.len() ==> v.sources[
            v.source_index as int
        ].remaining().len() == 0,
        v.source_index == v.sources.len() ==> v.peeked is None,
    ensures
        ({
            let st = prepare_source_state(v);
            let budget = crate::batcher::budget_of(v.batch_size);
            let avail = peek_count(v.peeked) + suffix_len(
                v.sources.map_values(|s: Src| s.remaining()),
                v.source_index as int,
            );
            st.items.len() - v.items.len() == (if budget <= avail {
                budget
            } else {
                avail
            })
        }),
{
    let b0 = crate::batcher::budget_of(v.batch_size);
    assert(b0 > 0);
    let k = gen_run_count_b(v, b0);
    assert(k == 0);
    let gseq = gens_output(v.generators, v.gen_index as int, v.gen_index + k, v.input);
    assert(gseq == Seq::<Cushion>::empty());
    assert(v.items + gseq =~= v.items);
    let st1 = SourcePhase {
        remainings: v.sources.map_values(|s: Src| s.remaining()),
        items: v.items + gseq,
        replay: v.replay,
        pos: v.replay_pos as int,
        peeked: v.peeked,
        first: v.first_source,
        idx: v.source_index as int,
        budget: b0 - k,
        batch: Seq::new(gseq.len(), |i: int| (v.items.len() + i) as usize),
    };
    let str = replay_phase(st1);
    assert(str.items == st1.items && str.peeked == st1.peeked && str.remainings == st1.remainings
        && str.idx == st1.idx && str.first == st1.first && str.budget == st1.budget);
    assert(forall|i: int|
        0 <= i < v.sources.len() ==> #[trigger] str.remainings[i] == v.sources[i].remaining());
    lemma_pull_budget_exact(str);
}

/// A fresh-pull loop over drained sources does nothing: no new item, no new
/// batch entry, no source touched.
proof fn lemma_pulls_drained<C>(st: SourcePhase<C>)
    requires
        0 <= st.idx <= st.remainings.len(),
        st.peeked is None,
        forall|i: int| st.idx <= i < st.remainings.len() ==> (#[trigger] st.remainings[i]).len() == 0,
    ensures
        run_pulls(st).items == st.items,
        run_pulls(st).batch == st.batch,
        run_pulls(st).replay == st.replay,
        run_pulls(st).pos == st.pos,
        run_pulls(st).remainings == st.remainings,
        run_pulls(st).peeked is None,
    decreases
            st.remainings.len() - st.idx,
            crate::batcher::current_remaining(st) + peek_count(st.peeked),
            (if st.first {
                1int
            } else {
                0int
            }),
{
    if st.budget <= 0 {
    } else if st.idx < st.remainings.len() {
        assert(st.remainings[st.idx].len() == 0);
        if !st.first {
            if st.idx + 1 == st.remainings.len() {
            } else {
                lemma_pulls_drained(refill(SourcePhase { idx: st.idx + 1, ..st }));
            }
        } else {
            lemma_pulls_drained(refill(SourcePhase { first: false, ..st }));
        }
    }
}

/// Replay independence from budget: once the sources are drained for a
/// query and no generators are registered, `prepare` re-offers exactly the
/// cached ids, pulls nothing, and its outcome is the same whatever the
/// batch size.
pub proof fn lemma_replay_independent_of_budget<Cushion, UIContext, Src, F, S, G>(
    v: BatcherView<Cushion, UIContext, Src, F, S, G>,
    other_batch_size: usize,
) where
    Src: Source<Item = Cushion>,
    F: Filter<Context = Cushion>,
    S: Sorter<Context = Cushion>,
    G: Generator<Item = Cushion>,

    requires
        v.generators.len() == 0,
        v.replay_pos == 0,
        v.peeked is None,
        0 <= v.source_index <= v.sources.len(),
        forall|i: int|
            v.source_index <= i < v.sources.len() ==> (#[trigger] v.sources[i]).remaining().len()
                == 0,
    ensures
        ({
            let st = prepare_source_state(v);
            let v2 = BatcherView { batch_size: other_batch_size, ..v };
            let st2 = prepare_source_state(v2);
            &&& st.items == v.items
            &&& st.batch == v.replay
            &&& st.replay == v.replay
            &&& st.remainings == v.sources.map_values(|s: Src| s.remaining())
            &&& st.peeked is None
            &&& st2.items == st.items
            &&& st2.batch == st.batch
            &&& prepared_output(v2, st2) == prepared_output(v, st)
        }),
{
    let st = prepare_source_state(v);
    let v2 = BatcherView { batch_size: other_batch_size, ..v };
    let st2 = prepare_source_state(v2);
    lemma_prepare_drained(v);
    lemma_prepare_drained(v2);
}

/// The drained-query shape of one `prepare` call, shared by both budgets.
proof fn lemma_prepare_drained<Cushion, UIContext, Src, F, S, G>(
    v: BatcherView<Cushion, UIContext, Src, F, S, G>,
) where
    Src: Source<Item = Cushion>,
    F: Filter<Context = Cushion>,
    S: Sorter<Context = Cushion>,
    G: Generator<Item = Cushion>,

    requires
        v.generators.len() == 0,
        v.replay_pos == 0,
        v.peeked is None,
        0 <= v.source_index <= v.sources.len(),
        forall|i: int|
            v.source_index <= i < v.sources.len() ==> (#[trigger] v.sources[i]).remaining().len()
                == 0,
    ensures
        ({
            let st = prepare_source_state(v);
            &&& st.items == v.items
            &&& st.batch == v.replay
            &&& st.replay == v.replay
            &&& st.remainings == v.sources.map_values(|s: Src| s.remaining())
            &&& st.peeked is None
        }),
{
    let b0 = crate::batcher::budget_of(v.batch_size);
    assert(b0 > 0);
    let k = gen_run_count_b(v, b0);
    assert(k == 0);
    let gseq = gens_output(v.generators, v.gen_index as int, v.gen_index + k, v.input);
    assert(gseq == Seq::<Cushion>::empty());
    assert(v.items + gseq =~= v.items);
    assert(Seq::new(gseq.len(), |i: int| (v.items.len() + i) as usize) =~= Seq::<usize>::empty());
    let st1 = SourcePhase {
        remainings: v.sources.map_values(|s: Src| s.remaining()),
        items: v.items + gseq,
        replay: v.replay,
        pos: v.replay_pos as int,
        peeked: v.peeked,
        first: v.first_source,
        idx: v.source_index as int,
        budget: b0 - k,
        batch: Seq::new(gseq.len(), |i: int| (v.items.len() + i) as usize),
    };
    let str = replay_phase(st1);
    assert(str.batch =~= v.replay.skip(0));
    assert(v.replay.skip(0) =~= v.replay);
    assert(forall|i: int|
        str.idx <= i < str.remainings.len() ==> (#[trigger] str.remainings[i]).len() == 0) by {
        assert(forall|i: int|
            0 <= i < v.sources.len() ==> #[trigger] str.remainings[i] == v.sources[
                i
            ].remaining());
    }
    lemma_pulls_drained(str);
}

} // verus!
