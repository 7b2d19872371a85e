use neo4j_parallel_loader::{partition, group_sizes, Column, ColorGroup, LoadError, RawValue, Row};

fn rel_row(start: i64, end: i64) -> Row {
    Row {
        columns: vec![
            Column { name: "start_id".to_string(), value: RawValue::Int(start) },
            Column { name: "end_id".to_string(), value: RawValue::Int(end) },
        ],
    }
}

fn members(groups: &[ColorGroup]) -> Vec<Vec<usize>> {
    groups.iter().map(|g| g.members.clone()).collect()
}

#[test]
fn conflicting_chain_gives_one_group_per_row() {
    let rows = vec![rel_row(1, 2), rel_row(2, 3), rel_row(1, 3)];
    let groups = partition(&rows, "start_id", "end_id").unwrap();
    assert_eq!(members(&groups), vec![vec![0], vec![1], vec![2]]);
    assert_eq!(groups[0].used, vec![RawValue::Int(1), RawValue::Int(2)]);
    assert_eq!(groups[1].used, vec![RawValue::Int(2), RawValue::Int(3)]);
    assert_eq!(groups[2].used, vec![RawValue::Int(1), RawValue::Int(3)]);
}

#[test]
fn disjoint_rows_share_the_first_group() {
    let rows = vec![rel_row(1, 2), rel_row(3, 4), rel_row(2, 5), rel_row(6, 7)];
    let groups = partition(&rows, "start_id", "end_id").unwrap();
    assert_eq!(members(&groups), vec![vec![0, 1, 3], vec![2]]);
    assert_eq!(group_sizes(&groups), vec![3, 1]);
}

#[test]
fn first_fit_reuses_an_earlier_group() {
    // (3,4) conflicts with group 0 through 3 and fits group 1.
    let rows = vec![rel_row(1, 3), rel_row(1, 2), rel_row(3, 4), rel_row(5, 6)];
    let groups = partition(&rows, "start_id", "end_id").unwrap();
    assert_eq!(members(&groups), vec![vec![0, 3], vec![1, 2]]);
}

#[test]
fn every_row_in_exactly_one_group() {
    let rows: Vec<Row> = (0..20).map(|i| rel_row(i % 5, (i * 3) % 7 + 10)).collect();
    let groups = partition(&rows, "start_id", "end_id").unwrap();
    let mut seen = vec![0usize; rows.len()];
    for g in &groups {
        assert!(!g.members.is_empty());
        for w in g.members.windows(2) {
            assert!(w[0] < w[1]);
        }
        for &m in &g.members {
            seen[m] += 1;
        }
    }
    assert!(seen.iter().all(|&c| c == 1));
}

#[test]
fn group_identifiers_are_pairwise_different() {
    let rows: Vec<Row> = (0..30).map(|i| rel_row(i % 4, 100 + i % 6)).collect();
    let groups = partition(&rows, "start_id", "end_id").unwrap();
    for g in &groups {
        for a in 0..g.used.len() {
            for b in (a + 1)..g.used.len() {
                assert_ne!(g.used[a], g.used[b]);
            }
        }
    }
}

#[test]
fn partitioning_twice_gives_the_same_groups() {
    let rows: Vec<Row> = (0..25).map(|i| rel_row(i % 6, (i * 5) % 9)).collect();
    let first = partition(&rows, "start_id", "end_id").unwrap();
    let second = partition(&rows, "start_id", "end_id").unwrap();
    assert_eq!(first, second);
}

#[test]
fn missing_end_column_fails_without_groups() {
    let mut rows = vec![rel_row(1, 2), rel_row(3, 4)];
    rows.push(Row {
        columns: vec![Column { name: "start_id".to_string(), value: RawValue::Int(9) }],
    });
    let r = partition(&rows, "start_id", "end_id");
    assert_eq!(r, Err(LoadError::MissingColumn("end_id".to_string())));
}

#[test]
fn missing_start_column_is_named_first() {
    let rows = vec![Row {
        columns: vec![Column { name: "other".to_string(), value: RawValue::Int(9) }],
    }];
    let r = partition(&rows, "start_id", "end_id");
    assert_eq!(r, Err(LoadError::MissingColumn("start_id".to_string())));
}

#[test]
fn no_rows_no_groups() {
    let rows: Vec<Row> = Vec::new();
    assert_eq!(partition(&rows, "start_id", "end_id").unwrap(), Vec::new());
}

#[test]
fn identifiers_of_different_kinds_do_not_collide() {
    let rows = vec![
        rel_row(1, 2),
        Row {
            columns: vec![
                Column { name: "start_id".to_string(), value: RawValue::Text("1".to_string()) },
                Column { name: "end_id".to_string(), value: RawValue::Text("2".to_string()) },
            ],
        },
    ];
    let groups = partition(&rows, "start_id", "end_id").unwrap();
    assert_eq!(members(&groups), vec![vec![0, 1]]);
}

#[test]
fn text_identifiers_collide_by_contents() {
    let text_row = |s: &str, e: &str| Row {
        columns: vec![
            Column { name: "end_id".to_string(), value: RawValue::Text(e.to_string()) },
            Column { name: "start_id".to_string(), value: RawValue::Text(s.to_string()) },
        ],
    };
    let rows = vec![text_row("a", "b"), text_row("c", "a")];
    let groups = partition(&rows, "start_id", "end_id").unwrap();
    assert_eq!(members(&groups), vec![vec![0], vec![1]]);
}
