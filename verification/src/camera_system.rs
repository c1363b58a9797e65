//! Named camera timelines, the one that is enabled, and the switches for
//! recording and following.

use crate::camera_timeline::is_lookup;
use crate::camera_timeline::not_after;
use crate::camera_timeline::CameraFrame;
use crate::camera_timeline::CameraTimeline;
use crate::camera_timeline::FrameLookup;
use crate::vec_as_dropdown::VecAsDropdown;
use vstd::prelude::*;

verus! {

/// The names of a list of named timelines.
pub open spec fn timeline_names<P>(timelines: Seq<(String, CameraTimeline<P>)>) -> Seq<
    Seq<char>,
> {
    timelines.map_values(|entry: (String, CameraTimeline<P>)| entry.0@)
}

/// The first position in `names` that holds `name`, if there is one.
pub open spec fn is_position_of(names: Seq<Seq<char>>, name: Seq<char>, at: Option<usize>) -> bool {
    match at {
        Some(index) => {
            &&& index < names.len()
            &&& names[index as int] == name
            &&& forall|k: int| 0 <= k < index ==> names[k] != name
        },
        None => !names.contains(name),
    }
}

/// Camera automation: the recorded timelines by name, the name that is
/// selected, and whether captures are recorded, whether the camera follows
/// the enabled timeline, and whether the keyframes are shown.
#[derive(Debug)]
pub struct CameraSystem<P> {
    pub record_mode: bool,
    pub show_camera_visualization: bool,
    pub follow_camera: bool,
    pub current_timeline: VecAsDropdown<String>,
    pub camera_timelines: Vec<(String, CameraTimeline<P>)>,
}

impl<P> CameraSystem<P> {
    /// The names of the timelines, in order.
    pub open spec fn names(&self) -> Seq<Seq<char>> {
        timeline_names(self.camera_timelines@)
    }

    /// `at` is the position of the enabled timeline: the first timeline that
    /// bears the selected name; none where no name is selected or no
    /// timeline bears it.
    pub open spec fn is_enabled(&self, at: Option<usize>) -> bool {
        if self.current_timeline.options().len() == 0 {
            at.is_none()
        } else {
            is_position_of(
                self.names(),
                self.current_timeline.options()[self.current_timeline.selection() as int]@,
                at,
            )
        }
    }

    /// The position of the enabled timeline.
    pub fn enabled_timeline_index(&self) -> (at: Option<usize>)
        ensures
            self.is_enabled(at),
    {
        match self.current_timeline.selected_value() {
            Some(name) => {
                proof {
                    use_type_invariant(&self.current_timeline);
                    self.current_timeline.lemma_wf();
                }
                let ghost wanted =
                    self.current_timeline.options()[self.current_timeline.selection() as int]@;
                assert(name@ == wanted);
                let mut i: usize = 0;
                while i < self.camera_timelines.len()
                    invariant
                        i <= self.camera_timelines@.len(),
                        name@ == wanted,
                        self.current_timeline.options().len() > 0,
                        wanted == self.current_timeline.options()[self.current_timeline.selection()
                            as int]@,
                        forall|k: int| 0 <= k < i ==> self.names()[k] != name@,
                    decreases self.camera_timelines@.len() - i,
                {
                    if self.camera_timelines[i].0 == name {
                        assert(self.names()[i as int] == name@);
                        return Some(i);
                    }
                    i += 1;
                }
                None
            },
            None => None,
        }
    }

    /// The enabled timeline, if there is one.
    pub fn enabled_timeline(&self) -> (timeline: Option<&CameraTimeline<P>>)
        ensures
            match timeline {
                Some(enabled) => exists|at: usize|
                    self.is_enabled(Some(at)) && *enabled == (
                    #[trigger] self.camera_timelines@[at as int]).1,
                None => self.is_enabled(None),
            },
    {
        match self.enabled_timeline_index() {
            Some(at) => Some(&self.camera_timelines[at].1),
            None => None,
        }
    }

    /// The enabled timeline, for changing it, if there is one.
    pub fn enabled_timeline_mut(&mut self) -> (timeline: Option<&mut CameraTimeline<P>>)
        ensures
            final(self).record_mode == old(self).record_mode,
            final(self).follow_camera == old(self).follow_camera,
            final(self).show_camera_visualization == old(self).show_camera_visualization,
            final(self).current_timeline == old(self).current_timeline,
            match timeline {
                Some(enabled) => exists|at: usize|
                    {
                        &&& old(self).is_enabled(Some(at))
                        &&& *enabled == (#[trigger] old(self).camera_timelines@[at as int]).1
                        &&& final(self).camera_timelines@ == old(self).camera_timelines@.update(
                            at as int,
                            (old(self).camera_timelines@[at as int].0, *final(enabled)),
                        )
                    },
                None => old(self).is_enabled(None)
                    && final(self).camera_timelines == old(self).camera_timelines,
            },
    {
        match self.enabled_timeline_index() {
            Some(at) => Some(&mut self.camera_timelines[at].1),
            None => None,
        }
    }

    /// Sets the names on offer to those of the timelines, in their order.
    pub fn refresh_current_timeline(&mut self)
        ensures
            final(self).current_timeline.options().len() == old(self).camera_timelines@.len(),
            forall|i: int|
                0 <= i < old(self).camera_timelines@.len() ==> (
                #[trigger] final(self).current_timeline.options()[i])@ == old(self).names()[i],
            final(self).current_timeline.selection() == if old(self).current_timeline.selection()
                < old(self).camera_timelines@.len() {
                old(self).current_timeline.selection()
            } else {
                0
            },
            final(self).current_timeline.wf(),
            final(self).camera_timelines == old(self).camera_timelines,
            final(self).record_mode == old(self).record_mode,
            final(self).follow_camera == old(self).follow_camera,
            final(self).show_camera_visualization == old(self).show_camera_visualization,
    {
        let mut from: Vec<String> = Vec::new();
        let mut i: usize = 0;
        while i < self.camera_timelines.len()
            invariant
                i <= self.camera_timelines@.len(),
                from@.len() == i,
                forall|k: int| 0 <= k < i ==> (#[trigger] from@[k])@ == self.names()[k],
            decreases self.camera_timelines@.len() - i,
        {
            from.push(self.camera_timelines[i].0.clone());
            i += 1;
        }
        self.current_timeline.set_from(from);
    }

    /// A capture of the camera at `pose` while the data frame `frame` is
    /// shown: in record mode it becomes a keyframe of the enabled timeline.
    /// Returns the position of the timeline that took it, `None` where
    /// nothing was recorded.
    pub fn capture(&mut self, frame: usize, pose: P) -> (taken: Option<usize>)
        ensures
            final(self).record_mode == old(self).record_mode,
            final(self).follow_camera == old(self).follow_camera,
            final(self).show_camera_visualization == old(self).show_camera_visualization,
            final(self).current_timeline == old(self).current_timeline,
            final(self).names() == old(self).names(),
            old(self).record_mode ==> old(self).is_enabled(taken),
            !old(self).record_mode ==> taken.is_none(),
            match taken {
                Some(at) => {
                    &&& at < old(self).camera_timelines@.len()
                    &&& final(self).camera_timelines@.len() == old(self).camera_timelines@.len()
                    &&& forall|i: int|
                        0 <= i < old(self).camera_timelines@.len() && i != at ==> (
                        #[trigger] final(self).camera_timelines@[i]) == old(self).camera_timelines@[i]
                    &&& final(self).camera_timelines@[at as int].1.keyframes()
                        == old(self).camera_timelines@[at as int].1.keyframes().insert(
                        not_after(old(self).camera_timelines@[at as int].1.frames(), frame) as int,
                        CameraFrame { frame, pose },
                    )
                },
                None => final(self).camera_timelines == old(self).camera_timelines,
            },
    {
        if !self.record_mode {
            return None;
        }
        match self.enabled_timeline_index() {
            Some(at) => {
                let ghost names = self.names();
                let mut entry = self.camera_timelines.remove(at);
                entry.1.add_frame(frame, pose);
                self.camera_timelines.insert(at, entry);
                proof {
                    assert(self.names() =~= names);
                }
                Some(at)
            },
            None => None,
        }
    }

    /// Where the camera goes when the data frame `frame` is shown: in follow
    /// mode and while playback is not paused, the position of the enabled
    /// timeline and the lookup of `frame` in it; else nothing, and the camera
    /// is the user's.
    pub fn follow(&self, frame: usize, paused: bool) -> (target: Option<(usize, FrameLookup)>)
        ensures
            match target {
                Some((at, lookup)) => {
                    &&& self.follow_camera && !paused
                    &&& self.is_enabled(Some(at))
                    &&& is_lookup(self.camera_timelines@[at as int].1.frames(), frame, Some(lookup))
                },
                None => {
                    ||| !self.follow_camera
                    ||| paused
                    ||| self.is_enabled(None)
                    ||| exists|at: usize|
                        self.is_enabled(Some(at)) && (
                        #[trigger] self.camera_timelines@[at as int]).1.keyframes().len() == 0
                },
            },
    {
        if !self.follow_camera || paused {
            return None;
        }
        match self.enabled_timeline_index() {
            Some(at) => match self.camera_timelines[at].1.transform_at_frame(frame) {
                Some(lookup) => Some((at, lookup)),
                None => None,
            },
            None => None,
        }
    }
}

impl<P> Default for CameraSystem<P> {
    fn default() -> (me: Self)
        ensures
            !me.record_mode,
            !me.show_camera_visualization,
            !me.follow_camera,
            me.camera_timelines@.len() == 1,
            me.camera_timelines@[0].0@ == "Default"@,
            me.camera_timelines@[0].1.keyframes().len() == 0,
            me.current_timeline.options().len() == 1,
            me.current_timeline.options()[0]@ == "Default"@,
            me.current_timeline.selection() == 0,
            me.is_enabled(Some(0)),
    {
        let mut camera_timelines: Vec<(String, CameraTimeline<P>)> = Vec::new();
        camera_timelines.push(("Default".to_owned(), CameraTimeline::new()));
        let mut names: Vec<String> = Vec::new();
        names.push("Default".to_owned());
        let me = Self {
            camera_timelines,
            current_timeline: VecAsDropdown::new(names),
            record_mode: false,
            show_camera_visualization: false,
            follow_camera: false,
        };
        assert(me.names()[0] == "Default"@);
        me
    }
}

} // verus!
