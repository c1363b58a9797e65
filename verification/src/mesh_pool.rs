//! The playback position over the loaded frames: which frame is on screen,
//! when the next one is due, and what has to leave the screen first.
//!
//! The pool decides; the caller draws. Each tick the caller hands in the time
//! that has passed and gets back what to do: nothing, or take the shown
//! entities off the screen and then show the frame at an index. Times are
//! whole nanoseconds.

use crate::features::Features;
use crate::render::fits;
use crate::render::is_proper_sample;
use crate::render::is_sample;
use crate::render::sample_len;
use crate::render::PointSample;
use vstd::prelude::*;

verus! {

/// The direction of playback.
#[derive(Clone, Copy, Debug, PartialEq, Eq)]
pub enum FrameDirection {
    Forward,
    Back,
}

impl Default for FrameDirection {
    fn default() -> (direction: Self)
        ensures
            direction == FrameDirection::Forward,
    {
        FrameDirection::Forward
    }
}

/// What the caller does after a tick.
#[derive(Debug)]
pub enum FrameAction<E> {
    /// Nothing changes on screen.
    Wait,
    /// First remove the entities in `despawn` from the scene, then show the
    /// frame at `index` of the loaded frames.
    Show { despawn: Vec<E>, index: usize },
}

/// The index after `index` among `count` frames, wrapping to 0.
pub open spec fn next_index(index: usize, count: usize) -> usize {
    if count > 0 {
        ((index + 1) % (count as int)) as usize
    } else {
        index
    }
}

/// The index before `index` among `count` frames, wrapping from 0 to the
/// last.
pub open spec fn previous_index(index: usize, count: usize) -> usize {
    if count == 0 {
        index
    } else if index > 0 {
        (index - 1) as usize
    } else {
        (count - 1) as usize
    }
}

/// The index that playback moves to from `index`.
pub open spec fn moved_index(
    index: usize,
    count: usize,
    direction: FrameDirection,
    paused: bool,
) -> usize {
    if paused {
        index
    } else {
        match direction {
            FrameDirection::Forward => next_index(index, count),
            FrameDirection::Back => previous_index(index, count),
        }
    }
}

/// Playback state over the loaded frames. `E` is the caller's handle for an
/// entity on screen, `H` its handle for a mesh.
#[derive(Debug)]
pub struct MeshPool<E, H> {
    pub num_fluids: usize,
    pub frame_direction: FrameDirection,
    pub advance_every: u128,
    pub paused: bool,
    pub current_mesh_index: usize,
    pub have_displayed: bool,
    pub sample_size: usize,
    pub current_fluid_entities: Option<Vec<E>>,
    pub current_mesh_handle: Option<H>,
    pub currently_advanced: u128,
    pub sample: PointSample,
}

impl<E, H> MeshPool<E, H> {
    /// The entities that show the current frame, where one is shown.
    pub open spec fn shown(&self) -> Option<Seq<E>> {
        match self.current_fluid_entities {
            Some(entities) => Some(entities@),
            None => None,
        }
    }

    /// The handle of the mesh that was shown last.
    pub open spec fn shown_mesh(&self) -> Option<H> {
        self.current_mesh_handle
    }

    /// The time gathered since the last move.
    pub open spec fn elapsed(&self) -> u128 {
        self.currently_advanced
    }

    /// The number of vertices of the mesh that the sample was last got ready
    /// for.
    pub open spec fn shown_size(&self) -> usize {
        self.sample.drawn_for()
    }

    /// The vertex indices that are drawn of a point cloud.
    pub open spec fn samples(&self) -> Seq<usize> {
        self.sample.drawn()
    }

    /// The current index points at one of the frames, where there are any.
    pub open spec fn in_range(&self) -> bool {
        self.num_fluids > 0 ==> self.current_mesh_index < self.num_fluids
    }

    /// The entities that leave the screen at the next despawn: those that
    /// are shown, where a mesh was recorded for them.
    pub open spec fn leaving(&self) -> Seq<E> {
        if self.shown_mesh().is_some() && self.shown().is_some() {
            self.shown().unwrap()
        } else {
            Seq::empty()
        }
    }

    /// A paused pool over `num_fluids` frames at the first of them, with
    /// nothing shown yet, that moves every `advance_every` nanoseconds once it
    /// plays.
    pub fn new(num_fluids: usize, advance_every: u128, sample_size: usize) -> (me: Self)
        ensures
            me.num_fluids == num_fluids,
            me.advance_every == advance_every,
            me.sample_size == sample_size,
            me.paused,
            !me.have_displayed,
            me.current_mesh_index == 0,
            me.frame_direction == FrameDirection::Forward,
            me.shown().is_none(),
            me.shown_mesh().is_none(),
            me.elapsed() == 0,
            me.shown_size() == 0,
            me.samples().len() == 0,
            me.in_range(),
    {
        Self {
            num_fluids,
            advance_every,
            currently_advanced: 0,
            paused: true,
            have_displayed: false,
            current_mesh_index: 0,
            current_fluid_entities: None,
            current_mesh_handle: None,
            frame_direction: FrameDirection::Forward,
            sample: PointSample::new(),
            sample_size,
        }
    }

    /// Moves to the next frame, wrapping behind the last to the first. Does
    /// nothing where there are no frames.
    pub fn advance(&mut self)
        ensures
            final(self).current_mesh_index == next_index(
                old(self).current_mesh_index,
                old(self).num_fluids,
            ),
            final(self).same_but_index(old(self)),
            final(self).in_range(),
    {
        if self.num_fluids > 0 {
            let at: usize = self.current_mesh_index % self.num_fluids;
            proof {
                vstd::arithmetic::div_mod::lemma_add_mod_noop(
                    self.current_mesh_index as int,
                    1,
                    self.num_fluids as int,
                );
                if self.num_fluids > 1 {
                    vstd::arithmetic::div_mod::lemma_small_mod(1, self.num_fluids as nat);
                }
                if at + 1 < self.num_fluids {
                    vstd::arithmetic::div_mod::lemma_small_mod(
                        (at + 1) as nat,
                        self.num_fluids as nat,
                    );
                } else {
                    vstd::arithmetic::div_mod::lemma_mod_self_0(self.num_fluids as int);
                }
            }
            self.current_mesh_index = if at + 1 == self.num_fluids {
                0
            } else {
                at + 1
            };
        }
    }

    /// Moves to the frame before, wrapping from the first to the last. Does
    /// nothing where there are no frames.
    pub fn retreat(&mut self)
        ensures
            final(self).current_mesh_index == previous_index(
                old(self).current_mesh_index,
                old(self).num_fluids,
            ),
            final(self).same_but_index(old(self)),
            old(self).in_range() ==> final(self).in_range(),
    {
        if self.num_fluids > 0 {
            self.current_mesh_index = if self.current_mesh_index > 0 {
                self.current_mesh_index - 1
            } else {
                self.num_fluids - 1
            };
        }
    }

    /// Everything but the current index is as in `other`.
    pub open spec fn same_but_index(&self, other: &Self) -> bool {
        &&& self.num_fluids == other.num_fluids
        &&& self.frame_direction == other.frame_direction
        &&& self.advance_every == other.advance_every
        &&& self.paused == other.paused
        &&& self.have_displayed == other.have_displayed
        &&& self.sample_size == other.sample_size
        &&& self.shown() == other.shown()
        &&& self.shown_mesh() == other.shown_mesh()
        &&& self.elapsed() == other.elapsed()
        &&& self.shown_size() == other.shown_size()
        &&& self.samples() == other.samples()
    }

    /// One step in the direction of playback, none while paused.
    fn move_in_frame_direction(&mut self)
        ensures
            final(self).current_mesh_index == moved_index(
                old(self).current_mesh_index,
                old(self).num_fluids,
                old(self).frame_direction,
                old(self).paused,
            ),
            final(self).same_but_index(old(self)),
    {
        if self.paused {
            return ;
        }
        match self.frame_direction {
            FrameDirection::Forward => self.advance(),
            FrameDirection::Back => self.retreat(),
        }
    }

    /// A manual step to the next or the previous frame, which only a paused
    /// pool takes: what is on screen leaves, then the frame one step in
    /// `direction` is shown. A playing pool does nothing.
    pub fn scrub(&mut self, direction: FrameDirection) -> (action: FrameAction<E>)
        ensures
            final(self).num_fluids == old(self).num_fluids,
            final(self).frame_direction == old(self).frame_direction,
            final(self).advance_every == old(self).advance_every,
            final(self).paused == old(self).paused,
            final(self).have_displayed == old(self).have_displayed,
            final(self).sample_size == old(self).sample_size,
            final(self).elapsed() == old(self).elapsed(),
            final(self).samples() == old(self).samples(),
            final(self).shown_size() == old(self).shown_size(),
            final(self).shown_mesh() == old(self).shown_mesh(),
            final(self).current_mesh_index == if old(self).paused {
                moved_index(old(self).current_mesh_index, old(self).num_fluids, direction, false)
            } else {
                old(self).current_mesh_index
            },
            old(self).paused ==> (action matches FrameAction::Show { despawn, index } && despawn@
                == old(self).leaving() && index == final(self).current_mesh_index
                && final(self).leaving().len() == 0),
            !old(self).paused ==> action is Wait && final(self).shown() == old(self).shown(),
            old(self).in_range() ==> final(self).in_range(),
    {
        if !self.paused {
            return FrameAction::Wait;
        }
        let despawn = self.despawn_mesh();
        match direction {
            FrameDirection::Forward => self.advance(),
            FrameDirection::Back => self.retreat(),
        }
        FrameAction::Show { despawn, index: self.current_mesh_index }
    }

    /// Goes back to the first frame. The screen changes with the next tick.
    pub fn reset(&mut self)
        ensures
            final(self).current_mesh_index == 0,
            final(self).same_but_index(old(self)),
            final(self).in_range(),
    {
        self.current_mesh_index = 0;
    }

    /// Whether a tick of `delta` nanoseconds changes the screen: always
    /// before the first display; never while paused; else once the gathered
    /// time with `delta` exceeds the period.
    pub fn needs_update(&self, delta: u128) -> (due: bool)
        ensures
            due == self.is_due(delta),
    {
        if !self.have_displayed {
            return true;
        }
        if self.paused {
            return false;
        }
        match self.currently_advanced.checked_add(delta) {
            Some(sum) => sum > self.advance_every,
            None => true,
        }
    }

    /// What `needs_update` decides.
    pub open spec fn is_due(&self, delta: u128) -> bool {
        if !self.have_displayed {
            true
        } else if self.paused {
            false
        } else {
            self.elapsed() + delta > self.advance_every
        }
    }

    /// The loaded frame under the current index, if there is one.
    pub fn current_mesh<'a>(&self, fluids: &'a Vec<(String, H)>) -> (current: Option<
        &'a (String, H),
    >)
        ensures
            match current {
                Some(entry) => self.current_mesh_index < fluids@.len() && *entry
                    == fluids@[self.current_mesh_index as int],
                None => self.current_mesh_index >= fluids@.len(),
            },
    {
        if self.current_mesh_index < fluids.len() {
            Some(&fluids[self.current_mesh_index])
        } else {
            None
        }
    }

    /// Hands out the entities that have to leave the screen, and forgets
    /// them.
    pub fn despawn_mesh(&mut self) -> (gone: Vec<E>)
        ensures
            gone@ == old(self).leaving(),
            final(self).leaving().len() == 0,
            final(self).shown_mesh() == old(self).shown_mesh(),
            final(self).same_position(old(self)),
            final(self).samples() == old(self).samples(),
            final(self).shown_size() == old(self).shown_size(),
    {
        if self.current_mesh_handle.is_some() {
            match self.current_fluid_entities.take() {
                Some(entities) => entities,
                None => Vec::new(),
            }
        } else {
            Vec::new()
        }
    }

    /// The position, the clock and the settings are as in `other`.
    pub open spec fn same_position(&self, other: &Self) -> bool {
        &&& self.num_fluids == other.num_fluids
        &&& self.frame_direction == other.frame_direction
        &&& self.advance_every == other.advance_every
        &&& self.paused == other.paused
        &&& self.have_displayed == other.have_displayed
        &&& self.sample_size == other.sample_size
        &&& self.current_mesh_index == other.current_mesh_index
        &&& self.elapsed() == other.elapsed()
    }

    /// Whether the sample of point indices has to be drawn anew for a mesh
    /// with the given number of vertices: when the sample has not the size
    /// that is asked for, or the mesh has another size than the one before,
    /// or no vertices at all.
    pub open spec fn needs_sample(&self, vertex_count: Option<usize>) -> bool {
        self.sample.needs_drawing(vertex_count, self.sample_size)
    }

    /// Gets the sample of point indices ready for the mesh that is about to
    /// be shown, and remembers the number of its vertices. A new sample is
    /// drawn where `needs_sample` says so; else the old one is kept. Either
    /// way the sample then fits the mesh: no index twice, each below the
    /// number of vertices, at most `sample_size` of them. For a mesh that is
    /// not available nothing changes.
    pub fn prepare_sample(&mut self, mesh: Option<&Features>)
        ensures
            final(self).same_position(old(self)),
            final(self).shown() == old(self).shown(),
            final(self).shown_mesh() == old(self).shown_mesh(),
            fits(final(self).samples(), final(self).shown_size() as nat),
            match mesh {
                Some(features) => match features.vertex_count {
                    Some(count) => {
                        &&& final(self).shown_size() == count
                        &&& is_proper_sample(
                            final(self).samples(),
                            count as nat,
                            old(self).sample_size as nat,
                        )
                        &&& if old(self).needs_sample(Some(count)) {
                            is_sample(
                                final(self).samples(),
                                count as nat,
                                sample_len(count as nat, old(self).sample_size as nat),
                            )
                        } else {
                            final(self).samples() == old(self).samples()
                        }
                    },
                    None => final(self).samples().len() == 0 && final(self).shown_size() == 0,
                },
                None => final(self).samples() == old(self).samples() && final(self).shown_size()
                    == old(self).shown_size(),
            },
    {
        proof {
            use_type_invariant(&self.sample);
            self.sample.lemma_wf();
        }
        if let Some(features) = mesh {
            self.sample.prepare(features, self.sample_size);
            proof {
                self.sample.lemma_wf();
            }
        }
    }

    /// The vertex indices that are drawn of a point cloud: no index twice,
    /// each below the number of vertices of the mesh that the sample was
    /// got ready for.
    pub fn sampled_indices(&self) -> (indices: &Vec<usize>)
        ensures
            indices@ == self.samples(),
            fits(indices@, self.shown_size() as nat),
    {
        self.sample.indices()
    }

    /// The number of vertices of the mesh that the sample was last got ready
    /// for.
    pub fn previous_mesh_size(&self) -> (count: usize)
        ensures
            count == self.shown_size(),
    {
        self.sample.mesh_size()
    }

    /// The handle of the mesh that was shown last.
    pub fn current_mesh_handle(&self) -> (handle: Option<&H>)
        ensures
            match handle {
                Some(mesh) => self.shown_mesh() == Some(*mesh),
                None => self.shown_mesh().is_none(),
            },
    {
        self.current_mesh_handle.as_ref()
    }

    /// Records what the caller has put on screen: the entities and the mesh
    /// they show. The sample and the remembered size of the mesh stay as
    /// `prepare_sample` left them.
    pub fn spawn_mesh(&mut self, mesh: H, entities: Vec<E>)
        ensures
            final(self).shown() == Some(entities@),
            final(self).shown_mesh() == Some(mesh),
            final(self).shown_size() == old(self).shown_size(),
            final(self).leaving() == entities@,
            final(self).samples() == old(self).samples(),
            final(self).same_position(old(self)),
    {
        self.current_fluid_entities = Some(entities);
        self.current_mesh_handle = Some(mesh);
    }

    /// Empties the pool for another data set: hands out the entities that
    /// have to leave the screen, forgets the shown mesh and the sample, and
    /// goes back to the first frame.
    pub fn clear(&mut self) -> (gone: Vec<E>)
        ensures
            gone@ == old(self).leaving(),
            final(self).shown_mesh().is_none(),
            final(self).leaving().len() == 0,
            final(self).current_mesh_index == 0,
            final(self).samples().len() == 0,
            final(self).shown_size() == old(self).shown_size(),
            final(self).num_fluids == old(self).num_fluids,
            final(self).frame_direction == old(self).frame_direction,
            final(self).advance_every == old(self).advance_every,
            final(self).paused == old(self).paused,
            final(self).have_displayed == old(self).have_displayed,
            final(self).sample_size == old(self).sample_size,
            final(self).elapsed() == old(self).elapsed(),
            final(self).in_range(),
    {
        let gone = self.despawn_mesh();
        self.current_mesh_handle = None;
        self.current_mesh_index = 0;
        self.sample.clear();
        gone
    }

    /// Shows the current frame again: what is on screen leaves, then the
    /// frame under the current index is shown.
    pub fn redraw(&mut self) -> (action: FrameAction<E>)
        ensures
            action matches FrameAction::Show { despawn, index } && despawn@ == old(self).leaving()
                && index == old(self).current_mesh_index,
            final(self).leaving().len() == 0,
            final(self).shown_mesh() == old(self).shown_mesh(),
            final(self).same_position(old(self)),
            final(self).samples() == old(self).samples(),
            final(self).shown_size() == old(self).shown_size(),
    {
        let despawn = self.despawn_mesh();
        FrameAction::Show { despawn, index: self.current_mesh_index }
    }

    /// One tick of `delta` nanoseconds with `loaded` frames at hand.
    ///
    /// Before the first display the current frame is shown at once, paused
    /// or not, as soon as a frame is loaded. After that a paused pool does
    /// nothing. A playing pool gathers time; once the gathered time exceeds
    /// the period it starts gathering anew and, where a frame is loaded,
    /// moves one step in the direction of playback and shows that frame.
    pub fn update_fluid(&mut self, delta: u128, loaded: usize) -> (action: FrameAction<E>)
        ensures
            final(self).num_fluids == old(self).num_fluids,
            final(self).frame_direction == old(self).frame_direction,
            final(self).advance_every == old(self).advance_every,
            final(self).paused == old(self).paused,
            final(self).sample_size == old(self).sample_size,
            final(self).samples() == old(self).samples(),
            final(self).shown_size() == old(self).shown_size(),
            final(self).shown_mesh() == old(self).shown_mesh(),
            final(self).elapsed() == old(self).elapsed_after(delta),
            final(self).current_mesh_index == old(self).index_after(delta, loaded),
            final(self).have_displayed == (old(self).have_displayed || loaded > 0),
            old(self).shows_after(delta, loaded) ==> (action matches FrameAction::Show {
                despawn,
                index,
            } && despawn@ == old(self).leaving() && index == final(self).current_mesh_index
                && final(self).leaving().len() == 0),
            !old(self).shows_after(delta, loaded) ==> action is Wait
                && final(self).shown() == old(self).shown(),
            old(self).in_range() ==> final(self).in_range(),
    {
        if !self.needs_update(delta) {
            if !self.paused {
                self.currently_advanced = self.currently_advanced + delta;
            }
            return FrameAction::Wait;
        }
        self.currently_advanced = 0;
        if loaded > 0 {
            let despawn = self.despawn_mesh();
            if self.have_displayed {
                self.move_in_frame_direction();
            }
            self.have_displayed = true;
            FrameAction::Show { despawn, index: self.current_mesh_index }
        } else {
            FrameAction::Wait
        }
    }

    /// The gathered time after a tick of `delta`: 0 when the tick was due,
    /// unchanged while paused, else `delta` more.
    pub open spec fn elapsed_after(&self, delta: u128) -> u128 {
        if self.is_due(delta) {
            0
        } else if self.paused {
            self.elapsed()
        } else {
            (self.elapsed() + delta) as u128
        }
    }

    /// Whether a tick of `delta` with `loaded` frames at hand changes the
    /// screen.
    pub open spec fn shows_after(&self, delta: u128, loaded: usize) -> bool {
        self.is_due(delta) && loaded > 0
    }

    /// The current index after a tick: one step on when the tick shows a
    /// frame and one was shown before, else unchanged.
    pub open spec fn index_after(&self, delta: u128, loaded: usize) -> usize {
        if self.shows_after(delta, loaded) && self.have_displayed {
            moved_index(self.current_mesh_index, self.num_fluids, self.frame_direction, self.paused)
        } else {
            self.current_mesh_index
        }
    }
}

/// Stepping forward and back are inverse to each other on the indices of
/// the frames, and with no frames neither moves.
pub proof fn lemma_steps_are_inverse(index: usize, count: usize)
    requires
        count > 0 ==> index < count,
    ensures
        previous_index(next_index(index, count), count) == index,
        next_index(previous_index(index, count), count) == index,
        count > 0 ==> next_index(index, count) < count && previous_index(index, count) < count,
        count == 0 ==> next_index(index, count) == index && previous_index(index, count) == index,
{
    if count > 0 {
        if index + 1 < count {
            vstd::arithmetic::div_mod::lemma_small_mod((index + 1) as nat, count as nat);
        } else {
            vstd::arithmetic::div_mod::lemma_mod_self_0(count as int);
        }
        if index > 0 {
            vstd::arithmetic::div_mod::lemma_small_mod(index as nat, count as nat);
        } else {
            vstd::arithmetic::div_mod::lemma_mod_self_0(count as int);
        }
    }
}

/// Stepping forward from an index among `count` frames goes to the next
/// index, and from the last to the first.
pub proof fn lemma_next_index_wraps(index: usize, count: usize)
    requires
        index < count,
    ensures
        next_index(index, count) == if index + 1 == count {
            0
        } else {
            index + 1
        },
{
    if index + 1 < count {
        vstd::arithmetic::div_mod::lemma_small_mod((index + 1) as nat, count as nat);
    } else {
        vstd::arithmetic::div_mod::lemma_mod_self_0(count as int);
    }
}

} // verus!
