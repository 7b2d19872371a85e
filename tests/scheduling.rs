use neo4j_parallel_loader::{
    node_statement, partition, group_sizes, properties, relationship_statement, Action, Column,
    LoadError, PermitPool, RawValue, Row, WaveScheduler,
};

/// Runs a scheduler to its end, finishing writes oldest first; `fails` lists
/// the (wave, index) of writes that fail. Returns the dispatched writes, the
/// final action and the largest number in flight seen.
fn drive(s: &mut WaveScheduler, fails: &[(usize, usize)]) -> (Vec<(usize, usize)>, Action, usize) {
    let mut dispatched = Vec::new();
    let mut running: Vec<(usize, usize)> = Vec::new();
    let mut peak = 0;
    loop {
        match s.next_action() {
            Action::Dispatch(w, i) => {
                dispatched.push((w, i));
                running.push((w, i));
                peak = peak.max(s.in_flight());
            }
            Action::AwaitOne => {
                let t = running.remove(0);
                s.complete(!fails.contains(&t));
            }
            a => return (dispatched, a, peak),
        }
    }
}

fn person(id: i64) -> Row {
    Row { columns: vec![Column { name: "id".to_string(), value: RawValue::Int(id) }] }
}

fn knows(start: i64, end: i64, since: i64) -> Row {
    Row {
        columns: vec![
            Column { name: "start_id".to_string(), value: RawValue::Int(start) },
            Column { name: "end_id".to_string(), value: RawValue::Int(end) },
            Column { name: "since".to_string(), value: RawValue::Int(since) },
        ],
    }
}

#[test]
fn three_person_rows_make_three_creates() {
    let rows = vec![person(1), person(2), person(3)];
    for row in &rows {
        assert_eq!(properties(row, &Vec::new()).unwrap().len(), 1);
    }
    let mut total = 0;
    for _ in 0..2 {
        let mut s = WaveScheduler::new(vec![rows.len()], 4).unwrap();
        let (dispatched, end, _) = drive(&mut s, &[]);
        assert_eq!(dispatched, vec![(0, 0), (0, 1), (0, 2)]);
        assert_eq!(end, Action::Done);
        total += dispatched.len();
    }
    assert_eq!(total, 6);
    assert_eq!(node_statement("Person"), "CREATE (n:Person $props)");
}

#[test]
fn two_knows_rows_then_a_parallel_edge() {
    let rows = vec![knows(1, 2, 2020), knows(2, 3, 2021)];
    let groups = partition(&rows, "start_id", "end_id").unwrap();
    let mut s = WaveScheduler::new(group_sizes(&groups), 4).unwrap();
    let (dispatched, end, _) = drive(&mut s, &[]);
    assert_eq!(dispatched, vec![(0, 0), (1, 0)]);
    assert_eq!(end, Action::Done);

    let again = vec![knows(1, 2, 2022)];
    let groups = partition(&again, "start_id", "end_id").unwrap();
    let mut s = WaveScheduler::new(group_sizes(&groups), 4).unwrap();
    let (dispatched, end, _) = drive(&mut s, &[]);
    assert_eq!(dispatched, vec![(0, 0)]);
    assert_eq!(end, Action::Done);
}

#[test]
fn a_failed_write_stops_later_waves() {
    let mut s = WaveScheduler::new(vec![2, 3, 1], 4).unwrap();
    let (dispatched, end, _) = drive(&mut s, &[(0, 1)]);
    assert_eq!(dispatched, vec![(0, 0), (0, 1)]);
    assert_eq!(end, Action::Abort);
    assert!(s.has_failed());
    assert_eq!(s.next_action(), Action::Abort);
}

#[test]
fn failure_inside_a_wave_starts_nothing_more() {
    let mut s = WaveScheduler::new(vec![5], 2).unwrap();
    let (dispatched, end, _) = drive(&mut s, &[(0, 0)]);
    assert_eq!(dispatched, vec![(0, 0), (0, 1)]);
    assert_eq!(end, Action::Abort);
}

#[test]
fn in_flight_never_exceeds_concurrency() {
    let mut s = WaveScheduler::new(vec![7, 4, 9], 3).unwrap();
    let (dispatched, end, peak) = drive(&mut s, &[]);
    assert_eq!(dispatched.len(), 20);
    assert_eq!(end, Action::Done);
    assert_eq!(peak, 3);
}

#[test]
fn later_wave_waits_for_the_current_one() {
    let mut s = WaveScheduler::new(vec![2, 1], 4).unwrap();
    assert_eq!(s.next_action(), Action::Dispatch(0, 0));
    assert_eq!(s.next_action(), Action::Dispatch(0, 1));
    assert_eq!(s.next_action(), Action::AwaitOne);
    s.complete(true);
    assert_eq!(s.next_action(), Action::AwaitOne);
    s.complete(true);
    assert_eq!(s.next_action(), Action::Dispatch(1, 0));
    assert_eq!(s.next_action(), Action::AwaitOne);
    s.complete(true);
    assert_eq!(s.next_action(), Action::Done);
    assert_eq!(s.next_action(), Action::Done);
}

#[test]
fn empty_waves_are_skipped() {
    let mut s = WaveScheduler::new(vec![0, 0, 1, 0], 1).unwrap();
    let (dispatched, end, _) = drive(&mut s, &[]);
    assert_eq!(dispatched, vec![(2, 0)]);
    assert_eq!(end, Action::Done);
    let mut none = WaveScheduler::new(Vec::new(), 1).unwrap();
    assert_eq!(none.next_action(), Action::Done);
}

#[test]
fn zero_concurrency_is_refused() {
    assert!(matches!(WaveScheduler::new(vec![1], 0), Err(LoadError::Configuration(0))));
    assert!(matches!(PermitPool::new(0), Err(LoadError::Configuration(0))));
}

#[test]
fn stray_report_changes_nothing() {
    let mut s = WaveScheduler::new(vec![1], 1).unwrap();
    s.complete(false);
    assert!(!s.has_failed());
    assert_eq!(s.next_action(), Action::Dispatch(0, 0));
}

#[test]
fn permit_pool_counts() {
    let mut p = PermitPool::new(2).unwrap();
    assert_eq!(p.capacity(), 2);
    assert!(p.try_acquire());
    assert!(p.try_acquire());
    assert!(!p.try_acquire());
    assert_eq!(p.held(), 2);
    assert!(p.release());
    assert!(p.release());
    assert!(!p.release());
    assert_eq!(p.held(), 0);
}

#[test]
fn relationship_statement_text() {
    assert_eq!(
        relationship_statement("KNOWS", "Person", "id", "Person", "id"),
        "MATCH (a:Person {id: $start}) MATCH (b:Person {id: $end}) CREATE (a)-[r:KNOWS $props]->(b)"
    );
}
