use mesh_ripper::asset_load_checker::{AssetLoadChecker, LoadingSource};
use mesh_ripper::background_meshes::BackgroundMeshes;
use mesh_ripper::glob_or_dir_loader::{
    extension_of, has_mesh_extension, keep_asset_paths, keep_mesh_files, strip_assets,
    DataSource, GlobOrDirLoader,
};
use mesh_ripper::load_manager::LoadManager;
use mesh_ripper::lod_midpoint_iterator::MidpointIterator;

type Loader = GlobOrDirLoader<usize, String>;

fn strings(names: &[&str]) -> Vec<String> {
    names.iter().map(|name| String::from(*name)).collect()
}

#[test]
fn checker_settles_by_verdict() {
    let (kept, arrived) =
        AssetLoadChecker::settle(vec!['a', 'b', 'c', 'd'], vec![None, Some(2), Some(3), None]);
    assert_eq!(kept, vec!['a', 'd']);
    assert_eq!(arrived, vec![2, 3]);
    let (kept, arrived) = AssetLoadChecker::settle(Vec::<u8>::new(), Vec::<Option<u8>>::new());
    assert!(kept.is_empty());
    assert!(arrived.is_empty());
}

#[test]
fn checker_moves_arrived_handles_of_a_source() {
    let mut meshes: BackgroundMeshes<u32, String> = BackgroundMeshes::new();
    meshes.loading_mut().push(1);
    meshes.loading_mut().push(2);
    meshes.loading_mut().push(3);
    meshes.loaded_mut().push(String::from("old"));
    let checker = AssetLoadChecker::new();
    checker.update(&mut meshes, |pending: &u32| {
        if *pending == 2 {
            None
        } else {
            Some(format!("mesh{}", pending))
        }
    });
    assert_eq!(meshes.loading, vec![2]);
    assert_eq!(meshes.loaded, strings(&["old", "mesh1", "mesh3"]));
    checker.update(&mut meshes, |_pending: &u32| None);
    assert_eq!(meshes.loading, vec![2]);
    assert_eq!(meshes.loaded.len(), 3);
}

#[test]
fn background_meshes_are_spawned_once() {
    let mut meshes: BackgroundMeshes<u32, String> = BackgroundMeshes::new();
    assert!(meshes.spawn().is_empty());
    meshes.loaded.push(String::from("wall"));
    meshes.loaded.push(String::from("floor"));
    assert_eq!(meshes.spawn(), strings(&["wall", "floor"]));
    assert_eq!(meshes.displayed, strings(&["wall", "floor"]));
    assert!(meshes.spawn().is_empty());
    meshes.loaded.push(String::from("roof"));
    meshes.loaded.push(String::from("wall"));
    assert_eq!(meshes.spawn(), strings(&["roof"]));
    assert_eq!(meshes.displayed, strings(&["wall", "floor", "roof"]));
}

#[test]
fn chosen_directory_beats_the_pattern() {
    let glob = Some(String::from("assets/data/*.obj"));
    let chosen = Some(String::from("assets/data/run1"));
    assert_eq!(
        Loader::source(glob.clone(), chosen),
        DataSource::Directory(String::from("assets/data/run1"))
    );
    assert_eq!(
        Loader::source(glob, None),
        DataSource::Pattern(String::from("assets/data/*.obj"))
    );
    assert_eq!(Loader::source(None, None), DataSource::Nothing);
}

#[test]
fn mesh_extensions_are_obj_ply_and_stl() {
    for extension in ["obj", "ply", "stl"] {
        assert!(has_mesh_extension(&Some(String::from(extension))));
    }
    for extension in ["OBJ", "png", "", "objs", "ron"] {
        assert!(!has_mesh_extension(&Some(String::from(extension))));
    }
    assert!(!has_mesh_extension(&None));
}

#[test]
fn mesh_files_are_kept_by_extension() {
    let listing = strings(&[
        "assets/data/run1/frame1.obj",
        "assets/data/run1/notes.txt",
        "assets/data/run1/frame2.ply",
        "assets/data/run1/mr-config.ron",
        "assets/data/run1/obj",
        "assets/data/run1/.stl",
        "assets/data/run1/frame3.tar.stl",
        "assets/data/run1.obj/readme",
    ]);
    assert_eq!(
        keep_mesh_files(listing),
        strings(&[
            "assets/data/run1/frame1.obj",
            "assets/data/run1/frame2.ply",
            "assets/data/run1/frame3.tar.stl",
        ])
    );
}

#[test]
fn names_are_relative_to_the_asset_root() {
    let found = strings(&[
        "assets/data/frame1.obj",
        "elsewhere/frame2.obj",
        "assets/frame3.obj",
        "assetsx/frame4.obj",
    ]);
    assert_eq!(keep_asset_paths(found), strings(&["data/frame1.obj", "frame3.obj"]));
    assert_eq!(
        Loader::files_from_glob(strings(&["assets/data/a.ply"])),
        strings(&["data/a.ply"])
    );
}

#[test]
fn files_come_only_from_a_known_directory() {
    let directories = strings(&["assets/data", "assets/data/run1"]);
    let listing = strings(&["assets/data/run1/frame1.obj", "assets/data/run1/notes.txt"]);
    assert!(Loader::is_known_directory(&directories, &String::from("assets/data/run1")));
    assert!(!Loader::is_known_directory(&directories, &String::from("assets/data/run2")));
    assert_eq!(
        Loader::get_files_from_load_dir(
            &directories,
            &String::from("assets/data/run1"),
            listing.clone()
        ),
        Some(strings(&["data/run1/frame1.obj"]))
    );
    assert_eq!(
        Loader::get_files_from_load_dir(&directories, &String::from("assets/data/run2"), listing),
        None
    );
}

#[test]
fn update_feeds_the_load_manager() {
    let manager: LoadManager<usize, String> =
        LoadManager::new(MidpointIterator::new(Vec::new(), 2));
    let mut loader = Loader::new(manager, None, String::from("assets/data"));
    assert_eq!(loader.load_dirs, "assets/data");
    assert_eq!(loader.glob, None);
    loader.update(strings(&["f10.obj", "f2.obj", "f1.obj", "f3.obj"]), |key: &String| key.len());
    let requested: Vec<String> =
        loader.load_manager().loading.iter().map(|entry| entry.0.clone()).collect();
    assert_eq!(requested, strings(&["f1.obj", "f10.obj"]));
    loader.update(Vec::new(), |_key: &String| panic!("requested twice"));
    assert_eq!(loader.load_manager().loading.len(), 2);
    loader.load_manager_mut().clear();
    assert!(loader.load_manager().loading.is_empty());
    assert_eq!(loader.load_manager().load_iterator.len(), 0);
}

#[test]
fn extension_follows_the_last_dot_of_the_file_name() {
    let extension = |path: &str| extension_of(&String::from(path));
    assert_eq!(extension("frame1.obj"), Some(String::from("obj")));
    assert_eq!(extension("a/b/frame1.tar.gz"), Some(String::from("gz")));
    assert_eq!(extension("a/b.c/frame1"), None);
    assert_eq!(extension("a/.hidden"), None);
    assert_eq!(extension(".hidden"), None);
    assert_eq!(extension("a/.hidden.ply"), Some(String::from("ply")));
    assert_eq!(extension("a/frame."), Some(String::new()));
    assert_eq!(extension("a/b/"), None);
    assert_eq!(extension(""), None);
    assert_eq!(extension("r\u{e9}sum\u{e9}.st\u{e9}"), Some(String::from("st\u{e9}")));
}

#[test]
fn asset_root_is_stripped() {
    let strip = |path: &str| strip_assets(&String::from(path));
    assert_eq!(strip("assets/data/a.obj"), Some(String::from("data/a.obj")));
    assert_eq!(strip("assets/"), Some(String::new()));
    assert_eq!(strip("assets"), None);
    assert_eq!(strip("asset/s/a.obj"), None);
    assert_eq!(strip("data/assets/a.obj"), None);
    assert_eq!(strip(""), None);
    assert_eq!(strip("assets/\u{4e2d}.ply"), Some(String::from("\u{4e2d}.ply")));
}
