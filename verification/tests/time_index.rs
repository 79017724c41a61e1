use overlay_core::{TimeIndex, Transition};

fn entry(time_in: u64, time_out: Option<u64>, index: usize) -> Transition<i32> {
    Transition { time_in, time_out, index, scene: 0 }
}

#[test]
fn empty() {
    let tree: TimeIndex<i32> = TimeIndex::new(vec![]);
    assert!(tree.search(0).is_empty());
}

#[test]
fn it_works() {
    let transitions = vec![
        entry(4, Some(8), 0),
        entry(2, Some(10), 1),
        entry(10, None, 2),
        entry(10, Some(12), 3),
    ];

    let tree = TimeIndex::new(transitions);
    assert!(tree.search(0).is_empty());

    let result = tree.search(3);
    assert_eq!(1, result.len());
    assert_eq!(2, result[0].time_in);
    assert_eq!(Some(10), result[0].time_out);

    let result = tree.search(5);
    assert_eq!(2, result.len());
    assert_eq!(4, result[0].time_in);
    assert_eq!(Some(8), result[0].time_out);
    assert_eq!(2, result[1].time_in);
    assert_eq!(Some(10), result[1].time_out);

    let result = tree.search(8);
    assert_eq!(1, result.len());
    assert_eq!(2, result[0].time_in);
    assert_eq!(Some(10), result[0].time_out);

    let result = tree.search(10);
    assert_eq!(2, result.len());
    assert_eq!(10, result[0].time_in);
    assert_eq!(None, result[0].time_out);
    assert_eq!(10, result[1].time_in);
    assert_eq!(Some(12), result[1].time_out);

    let result = tree.search(12);
    assert_eq!(1, result.len());
    assert_eq!(10, result[0].time_in);
    assert_eq!(None, result[0].time_out);

    let result = tree.search(1000);
    assert_eq!(1, result.len());
    assert_eq!(10, result[0].time_in);
    assert_eq!(None, result[0].time_out);
}

#[test]
fn scenario_draw_order_follows_index_not_insertion() {
    // all three cover ts = 50; insertion order is the reverse of the
    // index order the result must come back in
    let transitions = vec![
        entry(0, Some(100), 9),
        entry(10, Some(90), 4),
        entry(20, None, 1),
    ];
    let tree = TimeIndex::new(transitions);
    let result = tree.search(50);
    assert_eq!(3, result.len());
    assert_eq!(1, result[0].index);
    assert_eq!(4, result[1].index);
    assert_eq!(9, result[2].index);
}

#[test]
fn scenario_overlapping_entries_all_match() {
    let transitions = vec![
        entry(0, Some(10), 0),
        entry(0, Some(10), 1),
        entry(5, Some(6), 2),
        entry(5, None, 3),
    ];
    let tree = TimeIndex::new(transitions);
    let result = tree.search(5);
    assert_eq!(4, result.len());
    for (k, t) in result.iter().enumerate() {
        assert_eq!(k, t.index);
    }
}

#[test]
fn scenario_boundaries() {
    let tree = TimeIndex::new(vec![entry(4, Some(8), 0)]);
    assert!(tree.search(3).is_empty());
    assert_eq!(1, tree.search(4).len()); // inclusive at time_in
    assert_eq!(1, tree.search(7).len());
    assert!(tree.search(8).is_empty()); // exclusive at time_out
    let open = TimeIndex::new(vec![entry(4, None, 0)]);
    assert_eq!(1, open.search(4).len());
    assert_eq!(1, open.search(u64::MAX).len());
}

#[test]
fn scenario_degenerate_window_never_matches() {
    // time_out <= time_in is accepted and yields an empty active window
    let tree = TimeIndex::new(vec![entry(10, Some(10), 0), entry(10, Some(7), 1)]);
    assert!(tree.search(9).is_empty());
    assert!(tree.search(10).is_empty());
    assert!(tree.search(11).is_empty());
}

#[test]
fn scenario_repeated_queries_identical() {
    let transitions = vec![
        entry(4, Some(8), 0),
        entry(2, Some(10), 1),
        entry(10, None, 2),
        entry(10, Some(12), 3),
    ];
    let tree = TimeIndex::new(transitions);
    for ts in [0u64, 3, 5, 8, 10, 12, 1000] {
        let a = tree.search(ts);
        let b = tree.search(ts);
        assert_eq!(a.len(), b.len());
        for k in 0..a.len() {
            assert_eq!(a[k].time_in, b[k].time_in);
            assert_eq!(a[k].time_out, b[k].time_out);
            assert_eq!(a[k].index, b[k].index);
        }
    }
}
