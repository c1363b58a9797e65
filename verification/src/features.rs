//! What the viewer needs to know of a mesh to decide how to show it.

use vstd::prelude::*;

verus! {

/// The features of a loaded mesh: how many vertex positions and normals it
/// has, where it has any, and whether it has triangle indices.
#[derive(Clone, Copy, Debug, PartialEq, Eq)]
pub struct Features {
    pub vertex_count: Option<usize>,
    pub normal_count: Option<usize>,
    pub indexed: bool,
}

impl Features {
    /// The features of a mesh with the given counts.
    pub fn new(vertex_count: Option<usize>, normal_count: Option<usize>, indexed: bool) -> (me:
        Self)
        ensures
            me.vertex_count == vertex_count,
            me.normal_count == normal_count,
            me.indexed == indexed,
    {
        Self { vertex_count, normal_count, indexed }
    }

    /// Whether the mesh has vertex positions.
    pub fn has_vertices(&self) -> (has: bool)
        ensures
            has == self.vertex_count.is_some(),
    {
        self.vertices().is_some()
    }

    /// Whether the mesh has triangle indices.
    pub fn has_indices(&self) -> (has: bool)
        ensures
            has == self.indexed,
    {
        self.indices()
    }

    /// Whether the mesh has normals.
    pub fn has_normals(&self) -> (has: bool)
        ensures
            has == self.normal_count.is_some(),
    {
        self.normals().is_some()
    }

    /// Whether the mesh has velocities, which it carries as its normals.
    pub fn has_velocities(&self) -> (has: bool)
        ensures
            has == self.normal_count.is_some(),
    {
        self.velocities().is_some()
    }

    /// The number of vertex positions, where the mesh has any.
    pub fn vertices(&self) -> (count: Option<usize>)
        ensures
            count == self.vertex_count,
    {
        self.vertex_count
    }

    /// The number of normals, where the mesh has any.
    pub fn normals(&self) -> (count: Option<usize>)
        ensures
            count == self.normal_count,
    {
        self.normal_count
    }

    /// Whether the mesh has triangle indices.
    pub fn indices(&self) -> (indexed: bool)
        ensures
            indexed == self.indexed,
    {
        self.indexed
    }

    /// The number of velocities: the mesh carries them as its normals.
    pub fn velocities(&self) -> (count: Option<usize>)
        ensures
            count == self.normal_count,
    {
        self.normals()
    }
}

} // verus!
