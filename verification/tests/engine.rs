use ltrait::batcher::Batcher;
use ltrait::filter::ClosureFilter;
use ltrait::generator::ClosureGenerator;
use ltrait::sorter::ClosureSorter;
use ltrait::source::{from_iter, VecSource};
use ltrait::ui::{Buffer, Position};
use ltrait::EngineError;
use std::cmp::Ordering;

type FilterT = ClosureFilter<i32, fn(&i32, &str) -> bool>;
type SorterT = ClosureSorter<i32, fn(&i32, &i32, &str) -> Ordering>;
type GenT = ClosureGenerator<i32, fn(&str) -> Vec<i32>>;
type ProjT = fn(&i32) -> i32;
type Engine = Batcher<i32, i32, VecSource<i32>, FilterT, SorterT, GenT, ProjT>;

type UnitGenT = ClosureGenerator<(), fn(&str) -> Vec<()>>;
type UnitFilterT = ClosureFilter<(), fn(&(), &str) -> bool>;
type UnitSorterT = ClosureSorter<(), fn(&(), &(), &str) -> Ordering>;
type UnitEngine = Batcher<(), (), VecSource<()>, UnitFilterT, UnitSorterT, UnitGenT, fn(&()) -> ()>;

type UnitUiEngine = Batcher<i32, (), VecSource<i32>, FilterT, SorterT, GenT, fn(&i32) -> ()>;

fn identity_proj(x: &i32) -> i32 {
    *x
}

fn drop_proj(_x: &i32) {}

fn ascending(a: &i32, b: &i32, _q: &str) -> Ordering {
    a.cmp(b)
}

fn even_only(x: &i32, _q: &str) -> bool {
    x % 2 == 0
}

fn upper_half(x: &i32, _q: &str) -> bool {
    *x > 5
}

/// Drive the engine to exhaustion for the current query and return the
/// visible buffer.
fn drain(engine: &mut Engine, buf: &mut Buffer<(i32, usize)>) -> Vec<i32> {
    let mut rounds = 0;
    let mut more = true;
    while more {
        let prepared = engine.prepare().expect("projection was registered");
        more = engine.merge(buf, prepared);
        rounds += 1;
        assert!(rounds < 100_000, "engine did not converge");
    }
    visible_values(buf)
}

fn visible_values(buf: &Buffer<(i32, usize)>) -> Vec<i32> {
    let mut pos = Position::default();
    let mut out = Vec::new();
    while let Some(&(value, _id)) = buf.next(&mut pos) {
        out.push(value);
    }
    out
}

#[test]
fn add_source() {
    let mut batcher: Engine = Batcher::default();
    batcher.add_raw_source(from_iter(vec![1, 2]));
    assert_eq!(batcher.source_count(), 1);
}

#[test]
fn add_filter() {
    let mut batcher: Engine = Batcher::default();
    batcher.add_raw_filter(ClosureFilter::new(
        (|x: &i32, input: &str| *x == 0i32 && input == "") as fn(&i32, &str) -> bool,
    ));
    assert_eq!(batcher.filter_count(), 1);
}

#[test]
fn add_sorter() {
    let mut batcher: Engine = Batcher::default();
    batcher.add_raw_sorter(ClosureSorter::new(
        (|lhs: &i32, rhs: &i32, _q: &str| lhs.cmp(rhs)) as fn(&i32, &i32, &str) -> Ordering,
    ));
    assert_eq!(batcher.sorter_count(), 1);
}

#[test]
fn add_generator() {
    let mut batcher: UnitEngine = Batcher::default();
    batcher.add_raw_generator(ClosureGenerator::new(
        (|input: &str| {
            println!("{input}");
            vec![]
        }) as fn(&str) -> Vec<()>,
    ));
    assert_eq!(batcher.generator_count(), 1);
}

#[test]
fn test_prepare() {
    let mut batcher: UnitUiEngine = Batcher::default();
    batcher.set_ui(drop_proj);
    batcher.add_raw_source(from_iter(vec![1, 2]));
    let buf = batcher.prepare().expect("projection was registered");
    assert_eq!(buf.into_inner().len(), 2);
}

#[test]
fn prepare_without_projection_is_an_error() {
    let mut batcher: Engine = Batcher::default();
    batcher.add_raw_source(from_iter(vec![1]));
    match batcher.prepare() {
        Err(e) => assert_eq!(e, EngineError::ProjectionNotSet),
        Ok(_) => panic!("prepare must fail before a projection is set"),
    }
    // the failed call left the engine untouched: registering the projection
    // afterwards still sees the full source
    batcher.set_ui(identity_proj);
    let mut buf = Buffer::default();
    assert_eq!(drain(&mut batcher, &mut buf), vec![1]);
}

#[test]
fn test_source() {
    let mut engine: Engine = Batcher::default();
    engine.add_raw_source(from_iter((0..5000).collect()));
    engine.set_ui(identity_proj);
    let mut buf = Buffer::default();
    let seen = drain(&mut engine, &mut buf);
    assert_eq!(seen.len(), 5000);
}

#[test]
fn test_filter() {
    // end to end: source 0..5000, keep even values only, identity
    // projection; exactly 2500 entries become visible, then the chosen one
    // is extracted
    let mut engine: Engine = Batcher::default();
    engine.add_raw_source(from_iter((0..5000).collect()));
    engine.add_raw_filter(ClosureFilter::new(even_only as fn(&i32, &str) -> bool));
    engine.set_ui(identity_proj);
    let mut buf = Buffer::default();
    let seen = drain(&mut engine, &mut buf);
    assert_eq!(seen.len(), 2500);
    assert!(seen.iter().all(|x| x % 2 == 0));
    let chosen = engine.compute_cushion(0).expect("id 0 is stored");
    assert_eq!(chosen, 0);
}

#[test]
fn budget_exactness_for_sources() {
    // a single finite source of 10 items and batch size 3: each prepare
    // call assigns exactly 3 fresh ids until fewer remain, then the rest
    let mut engine: Engine = Batcher::default();
    engine.add_raw_source(from_iter((0..10).collect()));
    engine.set_batch_size(3);
    engine.set_ui(identity_proj);
    let mut buf = Buffer::default();

    let mut batch_lens = Vec::new();
    let mut more = true;
    while more {
        let prepared = engine.prepare().expect("projection was registered");
        let inner = prepared.into_inner();
        let mut pos = Position::default();
        let mut ids = Vec::new();
        while let Some(&(_, id)) = inner.next(&mut pos) {
            ids.push(id);
        }
        batch_lens.push(ids.len());
        // re-wrap and merge so the loop can continue
        more = engine.merge(&mut buf, ltrait::batcher::Prepared::new(inner));
    }
    assert_eq!(batch_lens, vec![3, 3, 3, 1]);
    assert_eq!(visible_values(&buf), (0..10).collect::<Vec<_>>());
}

#[test]
fn replay_independence_from_budget() {
    // drain a source fully, then re-issue the same query: the visible
    // buffer is rebuilt identically from the replay cache, whatever the
    // budget, without new pulls
    let mut engine: Engine = Batcher::default();
    engine.add_raw_source(from_iter((0..20).collect()));
    engine.set_batch_size(4);
    engine.set_ui(identity_proj);
    let mut buf = Buffer::default();
    let first = drain(&mut engine, &mut buf);
    assert_eq!(first.len(), 20);

    engine.input(&mut buf, "");
    engine.set_batch_size(7);
    let replayed = drain(&mut engine, &mut buf);
    assert_eq!(replayed, first);

    engine.input(&mut buf, "");
    engine.set_batch_size(0);
    let replayed_unbounded = drain(&mut engine, &mut buf);
    assert_eq!(replayed_unbounded, first);
}

#[test]
fn filter_policy_and_is_intersection() {
    let mut engine: Engine = Batcher::default();
    engine.add_raw_source(from_iter((0..10).collect()));
    engine.add_raw_filter(ClosureFilter::new(even_only as fn(&i32, &str) -> bool));
    engine.add_raw_filter(ClosureFilter::new(upper_half as fn(&i32, &str) -> bool));
    engine.set_filter_and(true);
    engine.set_ui(identity_proj);
    let mut buf = Buffer::default();
    assert_eq!(drain(&mut engine, &mut buf), vec![6, 8]);
}

#[test]
fn filter_policy_or_is_union() {
    let mut engine: Engine = Batcher::default();
    engine.add_raw_source(from_iter((0..10).collect()));
    engine.add_raw_filter(ClosureFilter::new(even_only as fn(&i32, &str) -> bool));
    engine.add_raw_filter(ClosureFilter::new(upper_half as fn(&i32, &str) -> bool));
    engine.set_filter_and(false);
    engine.set_ui(identity_proj);
    let mut buf = Buffer::default();
    assert_eq!(drain(&mut engine, &mut buf), vec![0, 2, 4, 6, 7, 8, 9]);
}

#[test]
fn generator_budget_counts_calls_not_items() {
    // 3 generators of 5 items each under batch size 2: the first prepare
    // call runs exactly 2 generators (10 items, beyond the nominal budget),
    // the second runs the remaining one
    fn gen_a(_q: &str) -> Vec<i32> {
        vec![1, 2, 3, 4, 5]
    }
    fn gen_b(_q: &str) -> Vec<i32> {
        vec![6, 7, 8, 9, 10]
    }
    fn gen_c(_q: &str) -> Vec<i32> {
        vec![11, 12, 13, 14, 15]
    }
    let mut engine: Engine = Batcher::default();
    engine.add_raw_generator(ClosureGenerator::new(gen_a as fn(&str) -> Vec<i32>));
    engine.add_raw_generator(ClosureGenerator::new(gen_b as fn(&str) -> Vec<i32>));
    engine.add_raw_generator(ClosureGenerator::new(gen_c as fn(&str) -> Vec<i32>));
    engine.set_batch_size(2);
    engine.set_ui(identity_proj);
    let mut buf = Buffer::default();

    let first = engine.prepare().expect("projection was registered");
    let first = first.into_inner();
    assert_eq!(first.len(), 10);
    engine.merge(&mut buf, ltrait::batcher::Prepared::new(first));

    let second = engine.prepare().expect("projection was registered");
    let second = second.into_inner();
    assert_eq!(second.len(), 5);
    engine.merge(&mut buf, ltrait::batcher::Prepared::new(second));

    let third = engine.prepare().expect("projection was registered");
    assert_eq!(third.into_inner().len(), 0);
}

#[test]
fn sorted_output_and_merge_order() {
    let mut engine: Engine = Batcher::default();
    engine.add_raw_source(from_iter(vec![5, 1, 4, 2, 3]));
    engine.add_raw_sorter(ClosureSorter::new(ascending as fn(&i32, &i32, &str) -> Ordering));
    engine.set_batch_size(2);
    engine.set_ui(identity_proj);
    let mut buf = Buffer::default();
    let seen = drain(&mut engine, &mut buf);
    assert_eq!(seen, vec![1, 2, 3, 4, 5]);
}

#[test]
fn invalid_extraction_is_an_error() {
    let mut engine: Engine = Batcher::default();
    engine.add_raw_source(from_iter(vec![10, 20, 30]));
    engine.set_ui(identity_proj);
    let mut buf = Buffer::default();
    let seen = drain(&mut engine, &mut buf);
    assert_eq!(seen.len(), 3);
    let result = engine.compute_cushion(3);
    assert_eq!(result.unwrap_err(), EngineError::IndexOutOfRange);
}

#[test]
fn extraction_hands_out_the_chosen_item() {
    let mut engine: Engine = Batcher::default();
    engine.add_raw_source(from_iter(vec![10, 20, 30]));
    engine.set_ui(identity_proj);
    let mut buf = Buffer::default();
    drain(&mut engine, &mut buf);
    assert_eq!(engine.compute_cushion(1), Ok(20));
}

#[test]
fn query_change_keeps_cached_items_eligible() {
    // items discovered under one query stay eligible under the next one and
    // are re-filtered against it, without re-pulling the source
    fn matches_query(x: &i32, q: &str) -> bool {
        match q.parse::<i32>() {
            Ok(limit) => *x < limit,
            Err(_) => true,
        }
    }
    let mut engine: Engine = Batcher::default();
    engine.add_raw_source(from_iter((0..6).collect()));
    engine.add_raw_filter(ClosureFilter::new(matches_query as fn(&i32, &str) -> bool));
    engine.set_ui(identity_proj);
    let mut buf = Buffer::default();
    engine.input(&mut buf, "100");
    assert_eq!(drain(&mut engine, &mut buf), vec![0, 1, 2, 3, 4, 5]);
    engine.input(&mut buf, "3");
    assert_eq!(drain(&mut engine, &mut buf), vec![0, 1, 2]);
    engine.input(&mut buf, "5");
    assert_eq!(drain(&mut engine, &mut buf), vec![0, 1, 2, 3, 4]);
}

#[test]
fn sorter_chain_is_lexicographic() {
    // primary sorter: descending by value parity group (odd before even);
    // secondary sorter: ascending by value; the second only decides ties
    fn odd_first(a: &i32, b: &i32, _q: &str) -> Ordering {
        (a % 2 == 0).cmp(&(b % 2 == 0))
    }
    let mut engine: Engine = Batcher::default();
    engine.add_raw_source(from_iter(vec![4, 1, 2, 5, 3]));
    engine.add_raw_sorter(ClosureSorter::new(odd_first as fn(&i32, &i32, &str) -> Ordering));
    engine.add_raw_sorter(ClosureSorter::new(ascending as fn(&i32, &i32, &str) -> Ordering));
    engine.set_ui(identity_proj);
    let mut buf = Buffer::default();
    assert_eq!(drain(&mut engine, &mut buf), vec![1, 3, 5, 2, 4]);
}
