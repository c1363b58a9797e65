use mesh_ripper::load_manager::LoadManager;
use mesh_ripper::lod_midpoint_iterator::MidpointIterator;

fn names(count: usize) -> Vec<String> {
    (0..count).map(|i| format!("assets/data/frame{}.obj", i)).collect()
}

fn manager(count: usize, first_lod: usize) -> LoadManager<usize, String> {
    LoadManager::new(MidpointIterator::new(names(count), first_lod))
}

fn keys<V>(entries: &Vec<(String, V)>) -> Vec<String> {
    entries.iter().map(|entry| entry.0.clone()).collect()
}

#[test]
fn load_manager_test_three() {}

#[test]
fn new_sorts_the_names() {
    let unsorted = vec![
        String::from("frame10"),
        String::from("frame9"),
        String::from("frame1"),
    ];
    let mut manager: LoadManager<usize, usize> =
        LoadManager::new(MidpointIterator::new(unsorted, 4));
    assert!(manager.fully_loaded());
    assert!(manager.loaded.is_empty());
    manager.load_assets(|key: &String| key.len());
    assert_eq!(keys(&manager.loading), vec!["frame1", "frame9", "frame10"]);
}

#[test]
fn load_assets_requests_the_whole_level() {
    let mut manager = manager(10, 2);
    manager.load_assets(|key: &String| key.len());
    assert_eq!(
        keys(&manager.loading),
        vec!["assets/data/frame0.obj", "assets/data/frame9.obj"]
    );
    assert_eq!(manager.loading[0].1, "assets/data/frame0.obj".len());
    assert!(!manager.fully_loaded());
}

#[test]
fn load_assets_twice_requests_nothing_new() {
    let mut manager = manager(100, 10);
    manager.load_assets(|key: &String| key.len());
    assert_eq!(manager.loading.len(), 10);
    let before = keys(&manager.loading);
    manager.load_assets(|_key: &String| panic!("requested twice"));
    assert_eq!(manager.loading.len(), 10);
    assert_eq!(keys(&manager.loading), before);
}

#[test]
fn load_assets_skips_duplicates_among_the_names() {
    let same = vec![String::from("a"), String::from("a"), String::from("a")];
    let mut manager: LoadManager<usize, usize> = LoadManager::new(MidpointIterator::new(same, 3));
    manager.load_assets(|key: &String| key.len());
    assert_eq!(keys(&manager.loading), vec!["a"]);
}

#[test]
fn update_load_state_moves_what_has_arrived() {
    let mut manager = manager(5, 5);
    let mut handle = 0;
    manager.loading.clear();
    for key in names(5) {
        manager.loading.push((key, handle));
        handle += 1;
    }
    manager.update_load_state(|pending: &usize| {
        if pending % 2 == 1 {
            Some(format!("mesh{}", pending))
        } else {
            None
        }
    });
    assert_eq!(
        manager.loaded,
        vec![
            (String::from("assets/data/frame1.obj"), String::from("mesh1")),
            (String::from("assets/data/frame3.obj"), String::from("mesh3")),
        ]
    );
    assert_eq!(
        manager.loading,
        vec![
            (String::from("assets/data/frame0.obj"), 0),
            (String::from("assets/data/frame2.obj"), 2),
            (String::from("assets/data/frame4.obj"), 4),
        ]
    );
    manager.update_load_state(|pending: &usize| Some(format!("mesh{}", pending)));
    assert!(manager.fully_loaded());
    assert_eq!(
        keys(&manager.loaded),
        vec![
            "assets/data/frame1.obj",
            "assets/data/frame3.obj",
            "assets/data/frame0.obj",
            "assets/data/frame2.obj",
            "assets/data/frame4.obj",
        ]
    );
}

#[test]
fn settle_applies_one_verdict_per_entry() {
    let mut manager = manager(3, 4);
    manager.load_assets(|key: &String| key.len());
    let verdicts = manager.poll_loading(|_pending: &usize| None);
    assert_eq!(verdicts, vec![None, None, None]);
    manager.settle(vec![None, Some(String::from("mesh")), None]);
    assert_eq!(
        keys(&manager.loading),
        vec!["assets/data/frame0.obj", "assets/data/frame2.obj"]
    );
    assert_eq!(
        manager.loaded,
        vec![(String::from("assets/data/frame1.obj"), String::from("mesh"))]
    );
}

#[test]
fn no_key_is_both_loaded_and_loading() {
    let mut manager = manager(40, 4);
    let mut tick = 0;
    loop {
        manager.load_assets(|key: &String| key.len());
        tick += 1;
        let turn = tick;
        manager.update_load_state(move |pending: &usize| {
            if (pending + turn) % 3 == 0 {
                Some(String::from("mesh"))
            } else {
                None
            }
        });
        let loaded = keys(&manager.loaded);
        let loading = keys(&manager.loading);
        assert!(loaded.iter().all(|key| !loading.contains(key)));
        let mut all: Vec<String> = loaded.iter().chain(loading.iter()).cloned().collect();
        let total = all.len();
        all.sort();
        all.dedup();
        assert_eq!(all.len(), total);
        if manager.fully_loaded() {
            if manager.load_iterator.is_saturated() {
                break;
            }
            manager.next_lod_and_reload(|key: &String| key.len());
        }
        assert!(tick < 1000);
    }
    assert_eq!(manager.loaded.len(), 40);
}

#[test]
fn next_lod_and_reload_requests_only_what_is_new() {
    let mut manager = manager(10, 2);
    manager.load_assets(|key: &String| key.len());
    manager.update_load_state(|_pending: &usize| Some(String::from("mesh")));
    assert_eq!(manager.loaded.len(), 2);
    manager.next_lod_and_reload(|key: &String| key.len());
    assert_eq!(keys(&manager.loading), vec!["assets/data/frame4.obj"]);
    assert_eq!(manager.loaded.len(), 2);
    manager.next_lod_and_reload(|key: &String| key.len());
    assert_eq!(
        keys(&manager.loading),
        vec![
            "assets/data/frame4.obj",
            "assets/data/frame2.obj",
            "assets/data/frame6.obj",
        ]
    );
}

#[test]
fn next_lod_stops_at_saturation() {
    let mut manager = manager(3, 2);
    assert_eq!(manager.load_iterator.len(), 2);
    manager.next_lod();
    assert_eq!(manager.load_iterator.len(), 3);
    manager.next_lod();
    assert_eq!(manager.load_iterator.len(), 3);
    manager.next_lod_and_reload(|key: &String| key.len());
    assert_eq!(manager.loading.len(), 3);
}

#[test]
fn add_new_assets_keeps_what_is_loaded() {
    let mut manager = manager(4, 4);
    manager.load_assets(|key: &String| key.len());
    manager.settle(vec![Some(String::from("m0")), None, Some(String::from("m2")), None]);
    let loaded = manager.loaded.clone();
    let loading = manager.loading.clone();
    manager.add_new_assets(vec![
        String::from("assets/data/frame10.obj"),
        String::from("assets/data/frame2.obj"),
        String::from("assets/data/frame10.obj"),
        String::from("assets/data/frame5.obj"),
    ]);
    assert_eq!(manager.loaded, loaded);
    assert_eq!(manager.loading, loading);
    assert_eq!(manager.load_iterator.indices(), vec![0, 2, 4, 5]);
    assert_eq!(manager.load_iterator.first_lod(), 4);
    let mut all = manager.load_iterator.next_lod().unwrap();
    all = all.next_lod().unwrap_or(all);
    let mut listed = Vec::new();
    while let Some(name) = all.next() {
        listed.push(name);
    }
    assert_eq!(
        listed,
        vec![
            "assets/data/frame0.obj",
            "assets/data/frame1.obj",
            "assets/data/frame2.obj",
            "assets/data/frame3.obj",
            "assets/data/frame5.obj",
            "assets/data/frame10.obj",
        ]
    );
    manager.load_assets(|key: &String| key.len());
    assert_eq!(manager.loaded, loaded);
    assert_eq!(
        keys(&manager.loading),
        vec![
            "assets/data/frame1.obj",
            "assets/data/frame3.obj",
            "assets/data/frame5.obj",
            "assets/data/frame10.obj",
        ]
    );
}

#[test]
fn clear_drops_everything() {
    let mut manager = manager(4, 4);
    manager.load_assets(|key: &String| key.len());
    manager.settle(vec![Some(String::from("m0")), None, None, None]);
    manager.clear();
    assert!(manager.loaded.is_empty());
    assert!(manager.loading.is_empty());
    assert!(manager.fully_loaded());
    assert_eq!(manager.load_iterator.len(), 0);
    manager.load_assets(|_key: &String| panic!("nothing to request"));
    assert!(manager.loading.is_empty());
}

#[test]
fn data_path_is_the_data_directory() {
    assert_eq!(manager(0, 1).data_path(), "assets/data");
}

#[test]
fn playback_order_is_by_name_and_number() {
    let arrived = vec![
        (String::from("frame10"), 'c'),
        (String::from("frame2"), 'b'),
        (String::from("frame1"), 'a'),
        (String::from("frame2"), 'B'),
        (String::from("frame11"), 'd'),
    ];
    assert_eq!(
        mesh_ripper::natural_order::in_playback_order(arrived),
        vec![
            (String::from("frame1"), 'a'),
            (String::from("frame2"), 'b'),
            (String::from("frame2"), 'B'),
            (String::from("frame10"), 'c'),
            (String::from("frame11"), 'd'),
        ]
    );
}

#[test]
fn wants_next_lod_when_idle_and_short() {
    let mut manager = manager(10, 2);
    assert!(manager.wants_next_lod(1));
    assert!(!manager.wants_next_lod(0));
    manager.load_assets(|key: &String| key.len());
    assert!(!manager.wants_next_lod(5));
    manager.update_load_state(|_pending: &usize| Some(String::from("mesh")));
    assert!(manager.wants_next_lod(3));
    assert!(!manager.wants_next_lod(2));
}
