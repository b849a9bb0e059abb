use adjusting_vec::{AdjustingVec, Step};

/// One callback as the test driver saw it.
#[derive(Debug, Clone, PartialEq)]
enum Event {
    Create,
    Update(String, String),
    Destroy(String),
}

/// Runs one reconciliation with synchronous callbacks. `create` numbers its
/// elements `new1`, `new2`, ...; `update` is given; `destroy` succeeds. The
/// callback whose index (from zero, in the order run) is `fail_at` fails.
fn run(
    v: &mut AdjustingVec<String, String>,
    items: &[&str],
    update: fn(&str, &str) -> String,
    fail_at: Option<usize>,
) -> (Result<(), String>, Vec<Event>) {
    let mut events = Vec::new();
    let mut created = 0;
    let mut adj = v.begin(items.iter().map(|s| s.to_string()).collect());
    loop {
        let fails = fail_at == Some(events.len());
        match adj.next_step() {
            Step::Done => break,
            Step::Create => {
                events.push(Event::Create);
                if fails {
                    adj.failed("create failed".to_string());
                } else {
                    created += 1;
                    adj.created(format!("new{}", created));
                }
            }
            Step::Update(t, a) => {
                events.push(Event::Update(t.clone(), a.clone()));
                if fails {
                    adj.failed("update failed".to_string());
                } else {
                    adj.updated(update(&t, &a));
                }
            }
            Step::Destroy(t) => {
                events.push(Event::Destroy(t.clone()));
                if fails {
                    adj.failed("destroy failed".to_string());
                } else {
                    adj.destroyed();
                }
            }
        }
    }
    (v.finish(adj), events)
}

fn take_item(_: &str, a: &str) -> String {
    a.to_string()
}

fn join(t: &str, a: &str) -> String {
    format!("{}+{}", t, a)
}

fn seeded(items: &[&str]) -> AdjustingVec<String, String> {
    let mut v = AdjustingVec::new();
    let (r, _) = run(&mut v, items, take_item, None);
    assert_eq!(r, Ok(()));
    v
}

fn contents(v: &AdjustingVec<String, String>) -> Vec<String> {
    v.as_slice().to_vec()
}

fn count(events: &[Event], pick: fn(&Event) -> bool) -> usize {
    events.iter().filter(|e| pick(e)).count()
}

fn is_create(e: &Event) -> bool {
    matches!(e, Event::Create)
}

fn is_update(e: &Event) -> bool {
    matches!(e, Event::Update(_, _))
}

fn is_destroy(e: &Event) -> bool {
    matches!(e, Event::Destroy(_))
}

fn upd(t: &str, a: &str) -> Event {
    Event::Update(t.to_string(), a.to_string())
}

#[test]
fn new_collection_is_empty() {
    let v: AdjustingVec<String, String> = AdjustingVec::new();
    assert_eq!(v.len(), 0);
    assert!(v.as_slice().is_empty());
}

#[test]
fn three_elements_against_two_items() {
    let mut v = seeded(&["A", "B", "C"]);
    let (r, events) = run(&mut v, &["x", "y"], join, None);
    assert_eq!(r, Ok(()));
    assert_eq!(events, vec![upd("A", "x"), upd("B", "y"), Event::Destroy("C".to_string())]);
    assert_eq!(contents(&v), vec!["A+x".to_string(), "B+y".to_string()]);
}

#[test]
fn empty_collection_against_three_items() {
    let mut v = AdjustingVec::new();
    let (r, events) = run(&mut v, &["x", "y", "z"], join, None);
    assert_eq!(r, Ok(()));
    assert_eq!(
        events,
        vec![
            Event::Create,
            upd("new1", "x"),
            Event::Create,
            upd("new2", "y"),
            Event::Create,
            upd("new3", "z"),
        ]
    );
    assert_eq!(contents(&v), vec!["new1+x".to_string(), "new2+y".to_string(), "new3+z".to_string()]);
}

#[test]
fn one_element_against_no_items() {
    let mut v = seeded(&["A"]);
    let (r, events) = run(&mut v, &[], join, None);
    assert_eq!(r, Ok(()));
    assert_eq!(events, vec![Event::Destroy("A".to_string())]);
    assert_eq!(v.len(), 0);
}

#[test]
fn length_follows_the_data() {
    let mut v = AdjustingVec::new();
    for items in [&["a", "b"][..], &["a", "b", "c", "d", "e"][..], &["a"][..], &[][..], &["a", "b", "c"][..]] {
        let (r, _) = run(&mut v, items, join, None);
        assert_eq!(r, Ok(()));
        assert_eq!(v.len(), items.len());
    }
}

#[test]
fn order_follows_the_data() {
    let mut v = seeded(&["A", "B"]);
    let (r, _) = run(&mut v, &["p", "q", "r", "s"], take_item, None);
    assert_eq!(r, Ok(()));
    assert_eq!(contents(&v), vec!["p".to_string(), "q".to_string(), "r".to_string(), "s".to_string()]);
    let (r, _) = run(&mut v, &["s", "r"], join, None);
    assert_eq!(r, Ok(()));
    assert_eq!(contents(&v), vec!["p+s".to_string(), "q+r".to_string()]);
}

#[test]
fn same_data_twice_only_updates() {
    let mut v = AdjustingVec::new();
    let items = ["a", "b", "c"];
    let (r, _) = run(&mut v, &items, take_item, None);
    assert_eq!(r, Ok(()));
    let first = contents(&v);
    let (r, events) = run(&mut v, &items, take_item, None);
    assert_eq!(r, Ok(()));
    assert_eq!(events, vec![upd("a", "a"), upd("b", "b"), upd("c", "c")]);
    assert_eq!(contents(&v), first);
}

#[test]
fn growth_creates_the_difference() {
    let mut v = seeded(&["A", "B"]);
    let (r, events) = run(&mut v, &["a", "b", "c", "d", "e"], join, None);
    assert_eq!(r, Ok(()));
    assert_eq!(count(&events, is_create), 3);
    assert_eq!(count(&events, is_update), 5);
    assert_eq!(count(&events, is_destroy), 0);
    assert_eq!(v.len(), 5);
}

#[test]
fn shrinkage_destroys_the_difference() {
    let mut v = seeded(&["A", "B", "C", "D", "E"]);
    let (r, events) = run(&mut v, &["a", "b"], join, None);
    assert_eq!(r, Ok(()));
    assert_eq!(count(&events, is_destroy), 3);
    assert_eq!(count(&events, is_update), 2);
    assert_eq!(count(&events, is_create), 0);
    assert_eq!(
        events[2..].to_vec(),
        vec![Event::Destroy("C".to_string()), Event::Destroy("D".to_string()), Event::Destroy("E".to_string())]
    );
}

#[test]
fn full_clear_destroys_everything() {
    let mut v = seeded(&["A", "B", "C", "D"]);
    let (r, events) = run(&mut v, &[], join, None);
    assert_eq!(r, Ok(()));
    assert_eq!(count(&events, is_destroy), 4);
    assert_eq!(events.len(), 4);
    assert!(v.as_slice().is_empty());
}

#[test]
fn equal_lengths_update_in_place() {
    let mut v = seeded(&["A", "B"]);
    let (r, events) = run(&mut v, &["x", "y"], join, None);
    assert_eq!(r, Ok(()));
    assert_eq!(events, vec![upd("A", "x"), upd("B", "y")]);
    assert_eq!(contents(&v), vec!["A+x".to_string(), "B+y".to_string()]);
}

#[test]
fn empty_against_empty_runs_nothing() {
    let mut v = AdjustingVec::new();
    let (r, events) = run(&mut v, &[], join, None);
    assert_eq!(r, Ok(()));
    assert!(events.is_empty());
    assert_eq!(v.len(), 0);
}

#[test]
fn failure_stops_the_reconciliation() {
    // callbacks in order: update(A,a), update(B,b), create, update(new1,c), create, ...
    let mut v = seeded(&["A", "B"]);
    let (r, events) = run(&mut v, &["a", "b", "c", "d"], join, Some(3));
    assert_eq!(r, Err("update failed".to_string()));
    assert_eq!(events, vec![upd("A", "a"), upd("B", "b"), Event::Create, upd("new1", "c")]);
    assert_eq!(contents(&v), vec!["A+a".to_string(), "B+b".to_string()]);
}

#[test]
fn failing_create_is_returned() {
    let mut v = seeded(&["A"]);
    let (r, events) = run(&mut v, &["a", "b", "c"], join, Some(1));
    assert_eq!(r, Err("create failed".to_string()));
    assert_eq!(events, vec![upd("A", "a"), Event::Create]);
    assert_eq!(contents(&v), vec!["A+a".to_string()]);
}

#[test]
fn failing_update_of_first_position_leaves_nothing() {
    let mut v = seeded(&["A", "B", "C"]);
    let (r, events) = run(&mut v, &["a", "b", "c"], join, Some(0));
    assert_eq!(r, Err("update failed".to_string()));
    assert_eq!(events, vec![upd("A", "a")]);
    assert_eq!(v.len(), 0);
}

#[test]
fn failing_destroy_is_returned() {
    let mut v = seeded(&["A", "B", "C"]);
    let (r, events) = run(&mut v, &["a"], join, Some(1));
    assert_eq!(r, Err("destroy failed".to_string()));
    assert_eq!(events, vec![upd("A", "a"), Event::Destroy("B".to_string())]);
    assert_eq!(contents(&v), vec!["A+a".to_string()]);
}

#[test]
fn recovers_after_a_failure() {
    let mut v = seeded(&["A", "B", "C"]);
    let (r, _) = run(&mut v, &["a", "b", "c"], join, Some(1));
    assert!(r.is_err());
    assert_eq!(contents(&v), vec!["A+a".to_string()]);
    let (r, events) = run(&mut v, &["x", "y"], join, None);
    assert_eq!(r, Ok(()));
    assert_eq!(events, vec![upd("A+a", "x"), Event::Create, upd("new1", "y")]);
    assert_eq!(contents(&v), vec!["A+a+x".to_string(), "new1+y".to_string()]);
}

#[test]
fn steps_after_completion_are_done() {
    let mut v: AdjustingVec<String, String> = seeded(&["A"]);
    let mut adj = v.begin(vec!["a".to_string()]);
    match adj.next_step() {
        Step::Update(t, a) => {
            assert_eq!((t.as_str(), a.as_str()), ("A", "a"));
            adj.updated(t + &a);
        }
        _ => panic!("expected an update"),
    }
    assert!(matches!(adj.next_step(), Step::Done));
    assert!(matches!(adj.next_step(), Step::Done));
    assert_eq!(v.len(), 0);
    assert_eq!(v.finish(adj), Ok(()));
    assert_eq!(contents(&v), vec!["Aa".to_string()]);
}
