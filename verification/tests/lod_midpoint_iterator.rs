use mesh_ripper::lod_midpoint_iterator::MidpointIterator;

#[test]
fn test_zero_length() {
    let zero: Vec<String> = Vec::new();
    let mpi = MidpointIterator::new(zero, 2);
    assert_eq!(mpi.len(), 0);
    assert_eq!(mpi.get_lods().len(), 0);
}

#[test]
fn lod_midpoint_iterator_test_three() {
    let three = vec!["a", "b", "c"];
    let mpi = MidpointIterator::new(three, 2);

    assert_eq!(mpi.len(), 2);
    assert_eq!(mpi.get_lods(), vec![2, 3]);

    let mpi = mpi.next_lod().unwrap();
    assert_eq!(mpi.len(), 3);

    if let Some(_) = mpi.next_lod() {
        assert!(false)
    }
}

#[test]
fn test_one_hundred() {
    let hundred = ["a"; 100];
    let mpi = MidpointIterator::new(hundred.into(), 10);

    assert_eq!(mpi.len(), 10);
    assert_eq!(mpi.get_lods(), [10, 19, 19 + 18, 37 + 36, 100]);

    let mpi = mpi.next_lod().unwrap();
    assert_eq!(mpi.len(), 19);

    let mpi = mpi.next_lod().unwrap();
    assert_eq!(mpi.len(), 19 + 18);

    let mpi = mpi.next_lod().unwrap();
    assert_eq!(mpi.len(), 37 + 36);

    let mpi = mpi.next_lod().unwrap();
    assert_eq!(mpi.len(), 100);

    if let Some(_) = mpi.next_lod() {
        assert!(false)
    }
}

#[test]
fn test_one_thousand() {
    let hundred = ["a"; 1000];
    let mpi = MidpointIterator::new(hundred.into(), 10);
    assert_eq!(mpi.len(), 10);

    let mpi = mpi.next_lod().unwrap();
    assert_eq!(mpi.len(), 19);

    let mpi = mpi.next_lod().unwrap();
    assert_eq!(mpi.len(), 19 + 18);

    let mpi = mpi.next_lod().unwrap();
    assert_eq!(mpi.len(), 37 + 36);

    let mpi = mpi.next_lod().unwrap();
    assert_eq!(mpi.len(), 73 + 72);

    let mpi = mpi.next_lod().unwrap();
    assert_eq!(mpi.len(), 145 + 144);

    let mpi = mpi.next_lod().unwrap();
    assert_eq!(mpi.len(), 289 + 288);

    let mpi = mpi.next_lod().unwrap();
    assert_eq!(mpi.len(), 1000);
}

#[test]
fn test_initial_lod_greater_than_available() {
    let ten = ["a"; 10];
    let mpi = MidpointIterator::new(ten.into(), 20);
    assert_eq!(mpi.len(), 10);

    assert_eq!(None, mpi.next_lod());
}

#[test]
fn first_level_of_one_hundred_strides_by_eleven() {
    let items: Vec<usize> = (0..100).collect();
    let mpi = MidpointIterator::new(items, 10);
    assert_eq!(mpi.indices(), vec![0, 11, 22, 33, 44, 55, 66, 77, 88, 99]);
}

#[test]
fn first_level_appends_the_last_index() {
    let mpi = MidpointIterator::new(vec!["a", "b", "c"], 2);
    assert_eq!(mpi.indices(), vec![0, 2]);
}

#[test]
fn stride_rounds_to_the_nearest() {
    // 7 items over 4 intervals: 1.75 gives a step of 2.
    let mpi = MidpointIterator::new(vec!["a", "b", "c", "d", "e", "f", "g"], 5);
    assert_eq!(mpi.indices(), vec![0, 2, 4, 6]);
    assert_eq!(mpi.len(), 4);
    // 14 items over 4 intervals: 3.5 gives a step of 4.
    let items: Vec<usize> = (0..14).collect();
    let mpi = MidpointIterator::new(items, 5);
    assert_eq!(mpi.indices(), vec![0, 4, 8, 12, 13]);
    // 13 items over 4 intervals: 3.25 gives a step of 3, which lands on the last.
    let items: Vec<usize> = (0..13).collect();
    let mpi = MidpointIterator::new(items, 5);
    assert_eq!(mpi.indices(), vec![0, 3, 6, 9, 12]);
    // 9 items over 6 intervals: 1.5 gives a step of 2.
    let items: Vec<usize> = (0..9).collect();
    let mpi = MidpointIterator::new(items, 7);
    assert_eq!(mpi.indices(), vec![0, 2, 4, 6, 8]);
    // 5 items over 20 intervals: 0.25 gives the least step, 1.
    let items: Vec<usize> = (0..5).collect();
    let mpi = MidpointIterator::new(items, 21);
    assert_eq!(mpi.indices(), vec![0, 1, 2, 3, 4]);
    // 3 items over 2 intervals: 1.5 gives a step of 2.
    let mpi = MidpointIterator::new(vec!['a', 'b', 'c'], 3);
    assert_eq!(mpi.indices(), vec![0, 2]);
}

#[test]
fn target_of_the_length_takes_every_item_but_for_three() {
    for len in 1..40usize {
        let items: Vec<usize> = (0..len).collect();
        let mpi = MidpointIterator::new(items, len);
        assert_eq!(mpi.is_saturated(), len != 3);
    }
}

#[test]
fn target_above_the_length_takes_every_item() {
    for len in 1..12usize {
        for target in len + 1..len + 5 {
            let items: Vec<usize> = (0..len).collect();
            let mpi = MidpointIterator::new(items, target);
            assert_eq!(mpi.len(), len);
            assert!(mpi.is_saturated());
            assert!(mpi.next_lod().is_none());
        }
    }
}

#[test]
fn target_of_zero_or_one_spans_the_list() {
    let mpi = MidpointIterator::new(vec![1, 2, 3, 4, 5], 0);
    assert_eq!(mpi.indices(), vec![0, 4]);
    let mpi = MidpointIterator::new(vec![1, 2, 3, 4, 5], 1);
    assert_eq!(mpi.indices(), vec![0, 4]);
    let mpi = MidpointIterator::new(vec![7], 1);
    assert_eq!(mpi.indices(), vec![0]);
}

#[test]
fn refinement_inserts_midpoints() {
    let items: Vec<usize> = (0..10).collect();
    let mpi = MidpointIterator::new(items, 2);
    assert_eq!(mpi.indices(), vec![0, 9]);
    let mpi = mpi.next_lod().unwrap();
    assert_eq!(mpi.indices(), vec![0, 4, 9]);
    let mpi = mpi.next_lod().unwrap();
    assert_eq!(mpi.indices(), vec![0, 2, 4, 6, 9]);
    let mpi = mpi.next_lod().unwrap();
    assert_eq!(mpi.indices(), vec![0, 1, 2, 3, 4, 5, 6, 7, 9]);
    let mpi = mpi.next_lod().unwrap();
    assert_eq!(mpi.indices(), vec![0, 1, 2, 3, 4, 5, 6, 7, 8, 9]);
    assert!(mpi.is_saturated());
    assert!(mpi.next_lod().is_none());
}

#[test]
fn every_level_holds_the_level_before() {
    let items: Vec<usize> = (0..257).collect();
    let mut level = MidpointIterator::new(items, 7);
    let mut steps = 0;
    while let Some(finer) = level.next_lod() {
        let coarse = level.indices();
        let fine = finer.indices();
        assert!(fine.len() > coarse.len());
        assert!(coarse.iter().all(|index| fine.contains(index)));
        assert!(fine.windows(2).all(|pair| pair[0] < pair[1]));
        level = finer;
        steps += 1;
    }
    assert!(level.is_saturated());
    // the widest gap of the first level is 43, which takes 6 halvings
    assert!(steps <= 6);
}

#[test]
fn get_lods_lists_every_level() {
    let items: Vec<usize> = (0..10).collect();
    let mpi = MidpointIterator::new(items, 2);
    assert_eq!(mpi.get_lods(), vec![2, 3, 5, 9, 10]);
}

#[test]
fn saturation_is_all_indices() {
    let mpi = MidpointIterator::new(vec!['a', 'b', 'c', 'd'], 4);
    assert_eq!(mpi.indices(), vec![0, 1, 2, 3]);
    assert!(mpi.is_saturated());
    assert_eq!(mpi.get_lods(), vec![4]);
    let coarse = MidpointIterator::new(vec!['a', 'b', 'c', 'd'], 2);
    assert!(!coarse.is_saturated());
}

#[test]
fn next_yields_the_level_in_order() {
    let mut mpi = MidpointIterator::new(vec!["a", "b", "c", "d", "e"], 3);
    assert_eq!(mpi.indices(), vec![0, 3, 4]);
    assert_eq!(mpi._current_index(), 0);
    assert_eq!(mpi.next(), Some("a"));
    assert_eq!(mpi.next(), Some("d"));
    assert_eq!(mpi._current_index(), 2);
    assert_eq!(mpi.next(), Some("e"));
    assert_eq!(mpi.next(), None);
    assert_eq!(mpi._current_index(), 3);
}

#[test]
fn refinement_keeps_the_cursor_on_its_item() {
    let items: Vec<usize> = (0..10).collect();
    let mut mpi = MidpointIterator::new(items, 2);
    assert_eq!(mpi.next(), Some(0));
    assert_eq!(mpi._current_index(), 1);
    let mut finer = mpi.next_lod().unwrap();
    assert_eq!(finer.indices(), vec![0, 4, 9]);
    assert_eq!(finer._current_index(), 2);
    assert_eq!(finer.next(), Some(9));
    assert_eq!(mpi.next(), Some(9));
    let restarted = mpi.next_lod().unwrap();
    assert_eq!(restarted._current_index(), 0);
}

#[test]
fn get_reads_the_level() {
    let mpi = MidpointIterator::new(vec!["a", "b", "c", "d", "e"], 3);
    assert_eq!(mpi.get(0), Some(&"a"));
    assert_eq!(mpi.get(1), Some(&"d"));
    assert_eq!(mpi.get(2), Some(&"e"));
    assert_eq!(mpi.get(3), None);
}

#[test]
fn push_leaves_the_level_until_initialize() {
    let mut mpi = MidpointIterator::new(vec!["a", "b", "c"], 2);
    mpi.push("d");
    assert_eq!(mpi.indices(), vec![0, 2]);
    assert!(mpi.contains("d"));
    assert!(!mpi.contains("e"));
    mpi.initialize();
    assert_eq!(mpi.indices(), vec![0, 3]);
}

#[test]
fn clear_empties_level_and_items() {
    let mut mpi = MidpointIterator::new(vec!["a", "b", "c"], 2);
    mpi.clear_indices();
    assert_eq!(mpi.len(), 0);
    assert!(mpi.contains("a"));
    mpi.initialize();
    assert_eq!(mpi.len(), 2);
    mpi.clear();
    assert_eq!(mpi.len(), 0);
    assert!(!mpi.contains("a"));
    assert!(mpi.is_saturated());
    mpi.initialize();
    assert_eq!(mpi.len(), 0);
}

#[test]
fn first_lod_can_be_changed() {
    let items: Vec<usize> = (0..100).collect();
    let mut mpi = MidpointIterator::new(items, 10);
    assert_eq!(mpi.first_lod(), 10);
    mpi.set_first_lod(3);
    assert_eq!(mpi.len(), 10);
    mpi.initialize();
    assert_eq!(mpi.indices(), vec![0, 50, 99]);
    mpi.set_first_lod(4);
    mpi.initialize();
    assert_eq!(mpi.indices(), vec![0, 33, 66, 99]);
}

#[test]
fn sort_orders_numbers_by_value() {
    let names = vec![
        String::from("frame10"),
        String::from("frame2"),
        String::from("frame1"),
    ];
    let mut mpi = MidpointIterator::new(names, 4);
    mpi.sort();
    assert_eq!(mpi.next(), Some(String::from("frame1")));
    assert_eq!(mpi.next(), Some(String::from("frame2")));
    assert_eq!(mpi.next(), Some(String::from("frame10")));
}

#[test]
fn covers_items_tells_a_stale_level() {
    let mut mpi = MidpointIterator::new(vec!["a", "b", "c"], 2);
    assert!(mpi.covers_items());
    mpi.push("d");
    assert!(!mpi.covers_items());
    mpi.initialize();
    assert!(mpi.covers_items());
    mpi.clear_indices();
    assert!(!mpi.covers_items());
    mpi.clear();
    assert!(mpi.covers_items());
}

#[test]
fn clone_keeps_level_and_cursor() {
    let mut mpi = MidpointIterator::new(vec!["a", "b", "c", "d", "e"], 3);
    assert_eq!(mpi.next(), Some("a"));
    let mut copy = mpi.clone();
    assert_eq!(copy, mpi);
    assert_eq!(copy.indices(), vec![0, 3, 4]);
    assert_eq!(copy._current_index(), 1);
    assert_eq!(copy.first_lod(), 3);
    assert_eq!(copy.next(), Some("d"));
    assert_eq!(mpi._current_index(), 1);
}
