//! Turns what was found on disk for the chosen data source into frame names
//! and feeds them to the load manager.
//!
//! The source is a sub-directory that the user chose or, failing that, a
//! file pattern. Walking directories and expanding patterns is the caller's
//! part; the loader says which source counts, which of the found files are
//! meshes, and what their names are relative to the asset root.

use crate::load_manager::merged_keys;
use crate::load_manager::newly_wanted;
use crate::load_manager::LoadManager;
use crate::lod_levels::first_level;
use crate::natural_order::alphanumeric_order;
use crate::natural_order::key_views;
use vstd::prelude::*;

verus! {

/// The data source that counts.
#[derive(Clone, Debug, PartialEq, Eq)]
pub enum DataSource {
    /// The files of this sub-directory.
    Directory(String),
    /// The files that match this pattern.
    Pattern(String),
    /// No source: no files.
    Nothing,
}

/// The position of the dot that starts the extension of a path, looking at
/// the first `end` characters: the last dot of the file name, unless the
/// file name starts with it. The file name is what follows the last `/`.
pub open spec fn extension_dot(path: Seq<char>, end: nat) -> Option<nat>
    recommends
        end <= path.len(),
    decreases end,
{
    if end == 0 {
        None
    } else if path[end - 1] == '/' {
        None
    } else if path[end - 1] == '.' {
        if end >= 2 && path[end - 2] != '/' {
            Some((end - 1) as nat)
        } else {
            None
        }
    } else {
        extension_dot(path, (end - 1) as nat)
    }
}

/// The extension of a path: what follows the last dot of the file name.
/// A file name without a dot, or with none but a leading one, has no
/// extension.
pub open spec fn path_extension(path: Seq<char>) -> Option<Seq<char>> {
    match extension_dot(path, path.len()) {
        Some(dot) => Some(path.skip(dot as int + 1)),
        None => None,
    }
}

/// A path relative to the directory `assets`: what follows `assets/`;
/// `None` for a path that does not start with it.
pub open spec fn path_under_assets(path: Seq<char>) -> Option<Seq<char>> {
    if path.len() >= 7 && path.take(7) == "assets/"@ {
        Some(path.skip(7))
    } else {
        None
    }
}

/// The characters of an optional string.
pub open spec fn option_view(text: Option<String>) -> Option<Seq<char>> {
    match text {
        Some(inner) => Some(inner@),
        None => None,
    }
}

/// The extension of `path`.
pub fn extension_of(path: &String) -> (extension: Option<String>)
    ensures
        option_view(extension) == path_extension(path@),
{
    let text = path.as_str();
    let len = text.unicode_len();
    let mut end: usize = len;
    while end > 0
        invariant
            end <= len == path@.len(),
            text@ == path@,
            extension_dot(path@, len as nat) == extension_dot(path@, end as nat),
        decreases end,
    {
        let c = text.get_char(end - 1);
        if c == '/' {
            return None;
        }
        if c == '.' {
            if end >= 2 && text.get_char(end - 2) != '/' {
                return Some(text.substring_char(end, len).to_owned());
            }
            return None;
        }
        end -= 1;
    }
    None
}

/// `path` relative to the directory `assets`.
pub fn strip_assets(path: &String) -> (relative: Option<String>)
    ensures
        option_view(relative) == path_under_assets(path@),
{
    let text = path.as_str();
    let len = text.unicode_len();
    proof {
        reveal_strlit("assets/");
    }
    if len >= 7 && text.substring_char(0, 7).to_owned() == "assets/".to_owned() {
        Some(text.substring_char(7, len).to_owned())
    } else {
        None
    }
}

/// The extensions of the mesh files that the viewer reads.
pub open spec fn is_mesh_extension(extension: Option<Seq<char>>) -> bool {
    match extension {
        Some(name) => name == "obj"@ || name == "ply"@ || name == "stl"@,
        None => false,
    }
}

/// The paths with a mesh extension, in order.
pub open spec fn mesh_paths(paths: Seq<Seq<char>>) -> Seq<Seq<char>>
    decreases paths.len(),
{
    if paths.len() == 0 {
        Seq::empty()
    } else {
        let before = mesh_paths(paths.drop_last());
        if is_mesh_extension(path_extension(paths.last())) {
            before.push(paths.last())
        } else {
            before
        }
    }
}

/// The paths that lie under `assets`, relative to it, in order.
pub open spec fn asset_paths(paths: Seq<Seq<char>>) -> Seq<Seq<char>>
    decreases paths.len(),
{
    if paths.len() == 0 {
        Seq::empty()
    } else {
        let before = asset_paths(paths.drop_last());
        match path_under_assets(paths.last()) {
            Some(relative) => before.push(relative),
            None => before,
        }
    }
}

/// Whether an extension is one of `obj`, `ply` and `stl`.
pub fn has_mesh_extension(extension: &Option<String>) -> (mesh: bool)
    ensures
        mesh == is_mesh_extension(option_view(*extension)),
{
    match extension {
        Some(name) => {
            let obj = "obj".to_owned();
            let ply = "ply".to_owned();
            let stl = "stl".to_owned();
            *name == obj || *name == ply || *name == stl
        },
        None => false,
    }
}

/// Keeps the paths with a mesh extension.
pub fn keep_mesh_files(paths: Vec<String>) -> (kept: Vec<String>)
    ensures
        key_views(kept@) == mesh_paths(key_views(paths@)),
{
    let mut kept: Vec<String> = Vec::new();
    let ghost all = key_views(paths@);
    let mut i: usize = 0;
    assert(all.take(0) =~= Seq::<Seq<char>>::empty());
    assert(key_views(kept@) =~= mesh_paths(all.take(0)));
    while i < paths.len()
        invariant
            i <= paths@.len(),
            all == key_views(paths@),
            key_views(kept@) == mesh_paths(all.take(i as int)),
        decreases paths@.len() - i,
    {
        let path = &paths[i];
        let extension = extension_of(path);
        proof {
            assert(all.take(i + 1).drop_last() =~= all.take(i as int));
            assert(all.take(i + 1).last() == path@);
        }
        let ghost before = key_views(kept@);
        if has_mesh_extension(&extension) {
            kept.push(path.clone());
            assert(key_views(kept@) =~= before.push(path@));
        }
        i += 1;
    }
    assert(all.take(i as int) =~= all);
    kept
}

/// Makes the paths relative to `assets`, and leaves out those that do not
/// lie under it.
pub fn keep_asset_paths(paths: Vec<String>) -> (kept: Vec<String>)
    ensures
        key_views(kept@) == asset_paths(key_views(paths@)),
{
    let mut kept: Vec<String> = Vec::new();
    let ghost all = key_views(paths@);
    let mut i: usize = 0;
    assert(all.take(0) =~= Seq::<Seq<char>>::empty());
    assert(key_views(kept@) =~= asset_paths(all.take(0)));
    while i < paths.len()
        invariant
            i <= paths@.len(),
            all == key_views(paths@),
            key_views(kept@) == asset_paths(all.take(i as int)),
        decreases paths@.len() - i,
    {
        let path = &paths[i];
        proof {
            assert(all.take(i + 1).drop_last() =~= all.take(i as int));
            assert(all.take(i + 1).last() == path@);
        }
        let ghost before = key_views(kept@);
        match strip_assets(path) {
            Some(relative) => {
                let ghost name = relative@;
                kept.push(relative);
                assert(key_views(kept@) =~= before.push(name));
            },
            None => {},
        }
        i += 1;
    }
    assert(all.take(i as int) =~= all);
    kept
}

/// Resolves the data source and owns the load manager that it feeds.
#[derive(Clone)]
pub struct GlobOrDirLoader<P, H> {
    pub load_manager: LoadManager<P, H>,
    pub glob: Option<String>,
    pub load_dirs: String,
}

impl<P, H> GlobOrDirLoader<P, H> {
    /// A loader over `load_manager` with the pattern `glob` and the root
    /// directory `load_dirs` in which data sets are looked for.
    pub fn new(load_manager: LoadManager<P, H>, glob: Option<String>, load_dirs: String) -> (me:
        Self)
        ensures
            me.load_manager == load_manager,
            me.glob == glob,
            me.load_dirs == load_dirs,
    {
        Self { load_manager, glob, load_dirs }
    }

    /// The source that counts: the chosen directory where there is one, else
    /// the pattern, else nothing.
    pub fn source(glob: Option<String>, load_dir_chosen: Option<String>) -> (source: DataSource)
        ensures
            source == match (load_dir_chosen, glob) {
                (Some(directory), _) => DataSource::Directory(directory),
                (None, Some(pattern)) => DataSource::Pattern(pattern),
                (None, None) => DataSource::Nothing,
            },
    {
        match load_dir_chosen {
            Some(directory) => DataSource::Directory(directory),
            None => match glob {
                Some(pattern) => DataSource::Pattern(pattern),
                None => DataSource::Nothing,
            },
        }
    }

    /// Whether `chosen` is one of the directories found under the root.
    pub fn is_known_directory(directories: &Vec<String>, chosen: &String) -> (known: bool)
        ensures
            known == key_views(directories@).contains(chosen@),
    {
        let mut i: usize = 0;
        while i < directories.len()
            invariant
                i <= directories@.len(),
                forall|k: int| 0 <= k < i ==> (#[trigger] directories@[k])@ != chosen@,
            decreases directories@.len() - i,
        {
            if directories[i] == *chosen {
                assert(key_views(directories@)[i as int] == chosen@);
                return true;
            }
            i += 1;
        }
        assert forall|k: int| 0 <= k < key_views(directories@).len() implies key_views(
            directories@,
        )[k] != chosen@ by {
            assert(directories@[k]@ != chosen@);
        }
        false
    }

    /// The frame names for what a directory holds: of the listed files those
    /// with a mesh extension, relative to `assets`. Nothing for a directory
    /// that is not among those found under the root.
    pub fn get_files_from_load_dir(
        directories: &Vec<String>,
        chosen: &String,
        listing: Vec<String>,
    ) -> (files: Option<Vec<String>>)
        ensures
            match files {
                Some(names) => key_views(directories@).contains(chosen@) && key_views(names@)
                    == asset_paths(mesh_paths(key_views(listing@))),
                None => !key_views(directories@).contains(chosen@),
            },
    {
        if Self::is_known_directory(directories, chosen) {
            Some(keep_asset_paths(keep_mesh_files(listing)))
        } else {
            None
        }
    }

    /// The frame names for what a pattern matched: the matches relative to
    /// `assets`.
    pub fn files_from_glob(matches: Vec<String>) -> (files: Vec<String>)
        ensures
            key_views(files@) == asset_paths(key_views(matches@)),
    {
        keep_asset_paths(matches)
    }

    /// Takes in the frame names found for the current source and requests
    /// what the first level over all names exposes and is neither loaded nor
    /// in flight.
    pub fn update<F>(&mut self, files: Vec<String>, request: F) where F: Fn(&String) -> P
        requires
            forall|key: &String| #[trigger] request.requires((key,)),
        ensures
            final(self).glob == old(self).glob,
            final(self).load_dirs == old(self).load_dirs,
            key_views(final(self).load_manager.load_iterator.items()) == alphanumeric_order(
                merged_keys(key_views(old(self).load_manager.load_iterator.items()), key_views(files@)),
            ),
            key_views(final(self).load_manager.load_iterator.items()).to_multiset() == merged_keys(
                key_views(old(self).load_manager.load_iterator.items()),
                key_views(files@),
            ).to_multiset(),
            final(self).load_manager.load_iterator.level() == first_level(
                final(self).load_manager.load_iterator.items().len(),
                old(self).load_manager.load_iterator.target_count() as nat,
            ),
            final(self).load_manager.load_iterator.wf(),
            final(self).load_manager.load_iterator.covers(),
            final(self).load_manager.loaded == old(self).load_manager.loaded,
            final(self).load_manager.loading@.len() >= old(self).load_manager.loading@.len(),
            final(self).load_manager.loading@.take(old(self).load_manager.loading@.len() as int)
                == old(self).load_manager.loading@,
            forall|i: int|
                old(self).load_manager.loading@.len() <= i < final(self).load_manager.loading@.len()
                    ==> request.ensures(
                    (&(#[trigger] final(self).load_manager.loading@[i]).0,),
                    final(self).load_manager.loading@[i].1,
                ),
            final(self).load_manager.loading_keys() == old(self).load_manager.loading_keys()
                + newly_wanted(
                final(self).load_manager.wanted_keys(),
                old(self).load_manager.present_keys(),
            ),
            old(self).load_manager.distinct() ==> final(self).load_manager.distinct(),
    {
        self.load_manager.add_new_assets(files);
        self.load_manager.load_assets(request);
    }

    /// The load manager, for changing it.
    pub fn load_manager_mut(&mut self) -> (manager: &mut LoadManager<P, H>)
        ensures
            *manager == old(self).load_manager,
            final(self).load_manager == *final(manager),
            final(self).glob == old(self).glob,
            final(self).load_dirs == old(self).load_dirs,
    {
        &mut self.load_manager
    }

    /// The load manager.
    pub fn load_manager(&self) -> (manager: &LoadManager<P, H>)
        ensures
            *manager == self.load_manager,
    {
        &self.load_manager
    }
}

} // verus!
