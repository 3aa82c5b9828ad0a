use ltrait::action::{Action, ActionWrapper, ClosureAction};
use ltrait::batcher::Batcher;
use ltrait::filter::{ClosureFilter, Filter, FilterWrapper};
use ltrait::generator::{ClosureGenerator, GenWrapper, Generator};
use ltrait::sorter::{ClosureSorter, Sorter, SorterWrapper};
use ltrait::source::{from_iter, transform_source, Source, SourceWrapper, VecSource};
use ltrait::ui::{Buffer, Position};
use std::cmp::Ordering;

fn long_enough(s: &String, _q: &str) -> bool {
    s.len() >= 3
}

fn stringify(x: &i32) -> String {
    let mut out = String::new();
    let mut v = if *x < 0 { -*x } else { *x };
    if v == 0 {
        out.push('0');
    }
    let mut digits = Vec::new();
    while v > 0 {
        digits.push((b'0' + (v % 10) as u8) as char);
        v = v / 10;
    }
    while let Some(d) = digits.pop() {
        out.push(d);
    }
    out
}

#[test]
fn closure_filter_delegates() {
    let filter = ClosureFilter::new(long_enough as fn(&String, &str) -> bool);
    assert!(filter.predicate(&String::from("abcd"), ""));
    assert!(!filter.predicate(&String::from("ab"), ""));
}

#[test]
fn filter_wrapper_projects_the_context() {
    // a filter over strings attached to an integer engine: 100 has three
    // digits, 7 has one, so the wrapper must really project
    let filter = ClosureFilter::new(long_enough as fn(&String, &str) -> bool);
    let wrapped = FilterWrapper::new(filter, stringify as fn(&i32) -> String);
    assert!(wrapped.predicate(&100, ""));
    assert!(!wrapped.predicate(&7, ""));
}

#[test]
fn sorter_wrapper_projects_the_context() {
    fn by_len(a: &String, b: &String, _q: &str) -> Ordering {
        a.len().cmp(&b.len())
    }
    let sorter = ClosureSorter::new(by_len as fn(&String, &String, &str) -> Ordering);
    let wrapped = SorterWrapper::new(sorter, stringify as fn(&i32) -> String);
    assert_eq!(wrapped.compare(&7, &100, ""), Ordering::Less);
    assert_eq!(wrapped.compare(&100, &7, ""), Ordering::Greater);
    assert_eq!(wrapped.compare(&32, &81, ""), Ordering::Equal);
}

#[test]
fn gen_wrapper_converts_each_item() {
    fn lengths(q: &str) -> Vec<String> {
        vec![String::from(q), String::from("xy")]
    }
    fn measure(s: String) -> i32 {
        s.len() as i32
    }
    let generator = ClosureGenerator::new(lengths as fn(&str) -> Vec<String>);
    let wrapped = GenWrapper::new(generator, measure as fn(String) -> i32);
    assert_eq!(wrapped.generate("abc"), vec![3, 2]);
}

#[test]
fn vec_source_yields_in_order_then_ends() {
    let mut source = from_iter(vec![4, 5]);
    assert_eq!(source.next(), Some(4));
    assert_eq!(source.next(), Some(5));
    assert_eq!(source.next(), None);
    assert_eq!(source.next(), None);
}

#[test]
fn transform_source_converts_each_item() {
    fn double(x: i32) -> i32 {
        2 * x
    }
    let mut source = transform_source(from_iter(vec![1, 2, 3]), double as fn(i32) -> i32);
    assert_eq!(source.next(), Some(2));
    assert_eq!(source.next(), Some(4));
    assert_eq!(source.next(), Some(6));
    assert_eq!(source.next(), None);
}

#[test]
fn wrapped_source_feeds_the_engine() {
    type FilterT = ClosureFilter<i32, fn(&i32, &str) -> bool>;
    type SorterT = ClosureSorter<i32, fn(&i32, &i32, &str) -> Ordering>;
    type GenT = ClosureGenerator<i32, fn(&str) -> Vec<i32>>;
    type WrappedSource = SourceWrapper<i32, VecSource<i32>, fn(i32) -> i32, i32>;
    fn negate(x: i32) -> i32 {
        -x
    }
    fn identity_proj(x: &i32) -> i32 {
        *x
    }
    let mut engine: Batcher<i32, i32, WrappedSource, FilterT, SorterT, GenT, fn(&i32) -> i32> =
        Batcher::default();
    engine.add_raw_source(transform_source(from_iter(vec![1, 2, 3]), negate as fn(i32) -> i32));
    engine.set_ui(identity_proj);
    let mut buf = Buffer::default();
    let mut more = true;
    while more {
        let prepared = engine.prepare().expect("projection was registered");
        more = engine.merge(&mut buf, prepared);
    }
    let mut pos = Position::default();
    let mut seen = Vec::new();
    while let Some(&(value, _)) = buf.next(&mut pos) {
        seen.push(value);
    }
    assert_eq!(seen, vec![-1, -2, -3]);
}

#[test]
fn closure_action_reports_the_outcome() {
    fn only_positive(x: &i32) -> Result<(), String> {
        if *x > 0 {
            Ok(())
        } else {
            Err(String::from("not positive"))
        }
    }
    let action = ClosureAction::new(only_positive as fn(&i32) -> Result<(), String>);
    assert_eq!(action.act(&3), Ok(()));
    assert_eq!(action.act(&-1), Err(String::from("not positive")));
}

#[test]
fn action_wrapper_projects_the_context() {
    fn must_be_short(s: &String) -> Result<(), ()> {
        if s.len() <= 2 {
            Ok(())
        } else {
            Err(())
        }
    }
    let action = ClosureAction::new(must_be_short as fn(&String) -> Result<(), ()>);
    let wrapped = ActionWrapper::new(action, stringify as fn(&i32) -> String);
    assert_eq!(wrapped.act(&42), Ok(()));
    assert_eq!(wrapped.act(&12345), Err(()));
}

#[test]
fn closure_generator_runs_per_query() {
    fn echo_len(q: &str) -> Vec<i32> {
        vec![q.len() as i32]
    }
    let generator = ClosureGenerator::new(echo_len as fn(&str) -> Vec<i32>);
    assert_eq!(generator.generate("abc"), vec![3]);
    assert_eq!(generator.generate(""), vec![0]);
}

#[test]
fn closure_sorter_consults_the_query() {
    fn flip_on_r(a: &i32, b: &i32, q: &str) -> Ordering {
        if q == "r" {
            b.cmp(a)
        } else {
            a.cmp(b)
        }
    }
    let sorter = ClosureSorter::new(flip_on_r as fn(&i32, &i32, &str) -> Ordering);
    assert_eq!(sorter.compare(&1, &2, ""), Ordering::Less);
    assert_eq!(sorter.compare(&1, &2, "r"), Ordering::Greater);
}
