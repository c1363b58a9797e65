//! How a mesh is put on screen: as it is where it has triangles, as a sample
//! of its points where it has none.

use crate::features::Features;
use rand::seq::IteratorRandom;
use std::collections::HashMap;
use vstd::prelude::*;

verus! {

/// The shape drawn for each point of a point cloud.
#[derive(Clone, Copy, Debug, PartialEq, Eq, Hash)]
pub enum PointRenderOptions {
    Sphere,
    Directional,
}

/// The two ways of showing a mesh.
#[derive(Clone, Copy, Debug, PartialEq, Eq)]
pub enum RenderKind {
    /// A mesh with triangles, drawn as it is.
    Connected,
    /// Points without triangles, drawn as one small shape per sampled point.
    Unconnected,
}

/// The key under which the cache keeps the mesh for a way of drawing points.
pub open spec fn option_key(option: PointRenderOptions) -> u8 {
    match option {
        PointRenderOptions::Sphere => 0,
        PointRenderOptions::Directional => 1,
    }
}

/// The meshes of the shapes that stand for a point, one for each way of
/// drawing points.
#[derive(Clone, Debug)]
pub struct RenderCache<H> {
    pub cache: HashMap<u8, H>,
}

impl<H> RenderCache<H> {
    /// The mesh kept for `key`.
    pub open spec fn slot(&self, key: PointRenderOptions) -> Option<H> {
        if self.cache@.contains_key(option_key(key)) {
            Some(self.cache@[option_key(key)])
        } else {
            None
        }
    }

    /// An empty cache.
    pub fn new() -> (me: Self)
        ensures
            forall|key: PointRenderOptions| me.slot(key).is_none(),
    {
        Self { cache: HashMap::new() }
    }

    /// Keeps `value` for `key` and hands back what was kept for it before.
    pub fn insert(&mut self, key: PointRenderOptions, value: H) -> (before: Option<H>)
        ensures
            before == old(self).slot(key),
            final(self).slot(key) == Some(value),
            forall|other: PointRenderOptions|
                other != key ==> final(self).slot(other) == old(self).slot(other),
    {
        broadcast use vstd::std_specs::hash::group_hash_axioms;

        self.cache.insert(Self::key_of(&key), value)
    }

    /// Forgets every mesh.
    pub fn clear(&mut self)
        ensures
            forall|key: PointRenderOptions| final(self).slot(key).is_none(),
    {
        self.cache.clear();
    }

    /// The mesh kept for `key`, if there is one.
    pub fn get(&self, key: &PointRenderOptions) -> (value: Option<&H>)
        ensures
            match value {
                Some(mesh) => self.slot(*key) == Some(*mesh),
                None => self.slot(*key).is_none(),
            },
    {
        broadcast use vstd::std_specs::hash::group_hash_axioms;

        let code = Self::key_of(key);
        self.cache.get(&code)
    }

    /// Computes `option_key`.
    fn key_of(option: &PointRenderOptions) -> (code: u8)
        ensures
            code == option_key(*option),
    {
        match option {
            PointRenderOptions::Sphere => 0,
            PointRenderOptions::Directional => 1,
        }
    }
}

/// The most indices that one sample holds: what a vector of indices can hold
/// on this machine.
pub open spec fn sample_limit() -> nat {
    (usize::MAX / 16) as nat
}

/// How many indices a sample of `sample_size` out of `count` holds.
pub open spec fn sample_len(count: nat, sample_size: nat) -> nat {
    let wanted = if sample_size < count {
        sample_size
    } else {
        count
    };
    if wanted < sample_limit() {
        wanted
    } else {
        sample_limit()
    }
}

/// `chosen` is a sample of `amount` indices below `count`: as many as asked
/// for, each below `count`, none twice.
pub open spec fn is_sample(chosen: Seq<usize>, count: nat, amount: nat) -> bool {
    &&& chosen.len() == amount
    &&& forall|i: int| 0 <= i < chosen.len() ==> chosen[i] < count
    &&& chosen.no_duplicates()
}

/// `chosen` can be drawn of a mesh with `count` vertices when `sample_size`
/// points are asked for: no index twice, each below `count`, and no more
/// than `sample_size` of them.
pub open spec fn is_proper_sample(chosen: Seq<usize>, count: nat, sample_size: nat) -> bool {
    &&& chosen.len() <= sample_size
    &&& fits(chosen, count)
}

/// No index twice, and each below `count`.
pub open spec fn fits(chosen: Seq<usize>, count: nat) -> bool {
    &&& forall|i: int| 0 <= i < chosen.len() ==> chosen[i] < count
    &&& chosen.no_duplicates()
}

/// Draws `amount` of the indices `0..count` with
/// `rand::seq::IteratorRandom::choose_multiple` and the thread's generator.
///
/// Believed, not proved, of every outcome: the result holds `amount` indices
/// (the caller asks for no more than there are), each below `count`, none
/// twice. Which indices come out, and in which order, is left open. The
/// outside function fills a reservoir from the range and replaces slots by
/// later items, so no item enters twice; it allocates room for `amount`
/// items at once, which is why `amount` is bounded.
#[verifier::external_body]
fn choose_indices(count: usize, amount: usize) -> (chosen: Vec<usize>)
    requires
        amount <= count,
        amount <= sample_limit(),
    ensures
        is_sample(chosen@, count as nat, amount as nat),
{
    (0..count).choose_multiple(&mut rand::thread_rng(), amount)
}

/// Decides how the mesh behind a handle is shown, and which of its points.
#[derive(Clone, Debug)]
pub struct FeatureAwareRenderer<H> {
    handle: H,
}

impl<H> FeatureAwareRenderer<H> {
    /// The mesh handle.
    pub closed spec fn mesh(&self) -> H {
        self.handle
    }

    /// A renderer for the mesh behind `mesh`.
    pub fn new(mesh: H) -> (me: Self)
        ensures
            me.mesh() == mesh,
    {
        Self { handle: mesh }
    }

    /// The mesh handle.
    pub fn handle(&self) -> (handle: &H)
        ensures
            *handle == self.mesh(),
    {
        &self.handle
    }

    /// A mesh with triangle indices is drawn connected, one without as
    /// points.
    pub fn renderer(features: &Features) -> (kind: RenderKind)
        ensures
            kind == if features.indexed {
                RenderKind::Connected
            } else {
                RenderKind::Unconnected
            },
    {
        if features.has_indices() {
            RenderKind::Connected
        } else {
            RenderKind::Unconnected
        }
    }

    /// A random sample of the vertex indices of a mesh: `sample_size` of
    /// them, or all where the mesh has fewer; none for a mesh without
    /// vertices.
    pub fn sample_indices(features: &Features, sample_size: usize) -> (chosen: Vec<usize>)
        ensures
            match features.vertex_count {
                Some(count) => is_sample(
                    chosen@,
                    count as nat,
                    sample_len(count as nat, sample_size as nat),
                ),
                None => chosen@.len() == 0,
            },
    {
        draw_sample(features, sample_size)
    }
}

/// A random sample of the vertex indices of a mesh: `sample_size` of them, or
/// all where the mesh has fewer; none for a mesh without vertices.
pub fn draw_sample(features: &Features, sample_size: usize) -> (chosen: Vec<usize>)
    ensures
        match features.vertex_count {
            Some(count) => is_sample(
                chosen@,
                count as nat,
                sample_len(count as nat, sample_size as nat),
            ),
            None => chosen@.len() == 0,
        },
{
    match features.vertices() {
        Some(count) => {
            let wanted: usize = if sample_size < count {
                sample_size
            } else {
                count
            };
            let amount: usize = if wanted < usize::MAX / 16 {
                wanted
            } else {
                usize::MAX / 16
            };
            choose_indices(count, amount)
        },
        None => Vec::new(),
    }
}

/// The vertex indices that are drawn of a point cloud, together with the
/// number of vertices of the mesh that they were drawn for. The indices are
/// always distinct and below that number.
#[derive(Debug)]
pub struct PointSample {
    indices: Vec<usize>,
    mesh_size: usize,
}

impl PointSample {
    /// The drawn indices.
    pub closed spec fn drawn(&self) -> Seq<usize> {
        self.indices@
    }

    /// The number of vertices of the mesh that the indices were drawn for.
    pub closed spec fn drawn_for(&self) -> usize {
        self.mesh_size
    }

    /// No index is drawn twice, and each lies below the number of vertices
    /// of the mesh. This holds of every sample at all times.
    #[verifier::type_invariant]
    pub closed spec fn wf(&self) -> bool {
        fits(self.indices@, self.mesh_size as nat)
    }

    /// What well-formedness means in terms of the indices and the mesh.
    pub proof fn lemma_wf(self)
        ensures
            self.wf() == fits(self.drawn(), self.drawn_for() as nat),
    {
    }

    /// Whether the indices have to be drawn anew for a mesh with the given
    /// number of vertices when `sample_size` points are asked for: when
    /// there are not that many indices, or the mesh has another size than
    /// the one they were drawn for, or no vertices at all.
    pub open spec fn needs_drawing(&self, vertex_count: Option<usize>, sample_size: usize) -> bool {
        ||| self.drawn().len() != sample_size
        ||| match vertex_count {
            Some(count) => count != self.drawn_for(),
            None => true,
        }
    }

    /// No indices, drawn for a mesh without vertices.
    pub fn new() -> (me: Self)
        ensures
            me.drawn().len() == 0,
            me.drawn_for() == 0,
            me.wf(),
    {
        Self { indices: Vec::new(), mesh_size: 0 }
    }

    /// Forgets the indices.
    pub fn clear(&mut self)
        ensures
            final(self).drawn().len() == 0,
            final(self).drawn_for() == old(self).drawn_for(),
            final(self).wf(),
    {
        self.indices = Vec::new();
    }

    /// Gets the indices ready for a mesh: draws them anew where
    /// `needs_drawing` says so, keeps them otherwise, and remembers the
    /// number of vertices of the mesh (0 for a mesh without vertices). Either
    /// way the indices can then be drawn of that mesh.
    pub fn prepare(&mut self, features: &Features, sample_size: usize)
        ensures
            final(self).wf(),
            match features.vertex_count {
                Some(count) => {
                    &&& final(self).drawn_for() == count
                    &&& is_proper_sample(final(self).drawn(), count as nat, sample_size as nat)
                    &&& if old(self).needs_drawing(Some(count), sample_size) {
                        is_sample(
                            final(self).drawn(),
                            count as nat,
                            sample_len(count as nat, sample_size as nat),
                        )
                    } else {
                        final(self).drawn() == old(self).drawn()
                    }
                },
                None => final(self).drawn().len() == 0 && final(self).drawn_for() == 0,
            },
    {
        proof {
            use_type_invariant(&*self);
        }
        match features.vertices() {
            Some(count) => {
                if self.indices.len() != sample_size || count != self.mesh_size {
                    let drawn = draw_sample(features, sample_size);
                    self.indices = Vec::new();
                    self.mesh_size = count;
                    self.indices = drawn;
                }
            },
            None => {
                self.indices = Vec::new();
                self.mesh_size = 0;
            },
        }
    }

    /// The drawn indices: distinct, and each below `mesh_size`.
    pub fn indices(&self) -> (indices: &Vec<usize>)
        ensures
            indices@ == self.drawn(),
            fits(indices@, self.drawn_for() as nat),
    {
        proof {
            use_type_invariant(self);
        }
        &self.indices
    }

    /// The number of vertices of the mesh that the indices were drawn for.
    pub fn mesh_size(&self) -> (count: usize)
        ensures
            count == self.drawn_for(),
    {
        self.mesh_size
    }
}

} // verus!
