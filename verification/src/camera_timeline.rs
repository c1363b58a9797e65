//! Camera keyframes indexed by data frame, and the lookup that says where
//! the camera pose of a frame comes from.
//!
//! A timeline is a list of keyframes in ascending order of their frame. The
//! pose at a frame is that of a keyframe (an exact hit, or the nearest end
//! for a frame outside the recorded range) or lies between two neighbouring
//! keyframes, at a fraction that the lookup gives as two integers. The pose
//! type is the caller's: the timeline stores poses and never looks into them.

use vstd::prelude::*;

verus! {

/// A recorded camera pose and the data frame at which it was recorded.
#[derive(Clone, Debug)]
pub struct CameraFrame<P> {
    pub frame: usize,
    pub pose: P,
}

/// Keyframes in ascending order of their frame.
#[derive(Debug)]
pub struct CameraTimeline<P> {
    timeline: Vec<CameraFrame<P>>,
}

/// Where the pose of a frame comes from.
#[derive(Clone, Copy, Debug, PartialEq, Eq)]
pub enum FrameLookup {
    /// The pose of the keyframe at position `index`, unmodified.
    Keyframe { index: usize },
    /// A pose between the keyframes at positions `before` and `after`, at
    /// the fraction `elapsed / span` of the way from the first to the second.
    Between { before: usize, after: usize, elapsed: usize, span: usize },
}

/// The frames of a list of keyframes.
pub open spec fn frames_of<P>(timeline: Seq<CameraFrame<P>>) -> Seq<usize> {
    timeline.map_values(|keyframe: CameraFrame<P>| keyframe.frame)
}

/// Ascending, equal neighbours allowed.
pub open spec fn ascending(frames: Seq<usize>) -> bool {
    forall|i: int, j: int| 0 <= i < j < frames.len() ==> frames[i] <= frames[j]
}

/// How many of `frames` are not greater than `frame`.
pub open spec fn not_after(frames: Seq<usize>, frame: usize) -> nat
    decreases frames.len(),
{
    if frames.len() == 0 {
        0
    } else {
        let before = not_after(frames.drop_last(), frame);
        if frames.last() <= frame {
            before + 1
        } else {
            before
        }
    }
}

/// `index` is the first position that holds `frame`.
pub open spec fn first_match(frames: Seq<usize>, frame: usize, index: int) -> bool {
    &&& 0 <= index < frames.len()
    &&& frames[index] == frame
    &&& forall|k: int| 0 <= k < index ==> frames[k] != frame
}

/// `index` is the first position that holds a frame greater than `frame`.
pub open spec fn first_after(frames: Seq<usize>, frame: usize, index: int) -> bool {
    &&& 0 <= index < frames.len()
    &&& frames[index] > frame
    &&& forall|k: int| 0 <= k < index ==> frames[k] <= frame
}

/// What the lookup of `frame` in a timeline with the frames `frames` is:
/// nothing for an empty timeline; the first keyframe at `frame` if there is
/// one; else the last keyframe if none is later than `frame`, the first if
/// the first is later, and otherwise the place between the first later
/// keyframe and the one before it.
pub open spec fn is_lookup(frames: Seq<usize>, frame: usize, found: Option<FrameLookup>) -> bool {
    match found {
        None => frames.len() == 0,
        Some(FrameLookup::Keyframe { index }) => {
            ||| first_match(frames, frame, index as int)
            ||| {
                &&& !frames.contains(frame)
                &&& first_after(frames, frame, 0)
                &&& index == 0
            }
            ||| {
                &&& !frames.contains(frame)
                &&& frames.len() > 0
                &&& forall|k: int| 0 <= k < frames.len() ==> frames[k] <= frame
                &&& index == frames.len() - 1
            }
        },
        Some(FrameLookup::Between { before, after, elapsed, span }) => {
            &&& !frames.contains(frame)
            &&& first_after(frames, frame, after as int)
            &&& after > 0
            &&& before == after - 1
            &&& elapsed == frame - frames[before as int]
            &&& span == frames[after as int] - frames[before as int]
        },
    }
}

impl<P> CameraFrame<P> {
    /// The keyframe of the data frame `frame` with the camera at `pose`.
    pub fn from_transform(frame: usize, pose: P) -> (keyframe: Self)
        ensures
            keyframe.frame == frame,
            keyframe.pose == pose,
    {
        Self { frame, pose }
    }
}

impl<P> Default for CameraTimeline<P> {
    fn default() -> (me: Self)
        ensures
            me.keyframes().len() == 0,
            me.wf(),
    {
        Self::new()
    }
}

impl<P: Clone> Clone for CameraTimeline<P> {
    /// A timeline of the same frames with clones of the poses.
    fn clone(&self) -> (copy: Self)
        ensures
            copy.frames() == self.frames(),
            forall|i: int|
                0 <= i < self.keyframes().len() ==> cloned::<P>(
                    self.keyframes()[i].pose,
                    #[trigger] copy.keyframes()[i].pose,
                ),
            copy.wf(),
    {
        proof {
            use_type_invariant(self);
        }
        let mut timeline: Vec<CameraFrame<P>> = Vec::new();
        let mut i: usize = 0;
        while i < self.timeline.len()
            invariant
                i <= self.timeline@.len(),
                timeline@.len() == i,
                forall|k: int| 0 <= k < i ==> (#[trigger] timeline@[k]).frame == self.timeline@[k].frame,
                forall|k: int|
                    0 <= k < i ==> cloned::<P>(self.timeline@[k].pose, (#[trigger] timeline@[k]).pose),
            decreases self.timeline@.len() - i,
        {
            let keyframe = &self.timeline[i];
            timeline.push(CameraFrame { frame: keyframe.frame, pose: keyframe.pose.clone() });
            i += 1;
        }
        assert(frames_of(timeline@) =~= frames_of(self.timeline@));
        Self { timeline }
    }
}

impl<P> CameraTimeline<P> {
    /// The keyframes, in order.
    pub closed spec fn keyframes(&self) -> Seq<CameraFrame<P>> {
        self.timeline@
    }

    /// The frames of the keyframes, in order.
    pub open spec fn frames(&self) -> Seq<usize> {
        frames_of(self.keyframes())
    }

    /// The keyframes are in ascending order of their frame. This holds of
    /// every timeline at all times.
    #[verifier::type_invariant]
    pub closed spec fn wf(&self) -> bool {
        ascending(frames_of(self.timeline@))
    }

    /// What well-formedness means in terms of the frames.
    pub proof fn lemma_wf(self)
        ensures
            self.wf() == ascending(self.frames()),
    {
    }

    /// An empty timeline.
    pub fn new() -> (me: Self)
        ensures
            me.keyframes().len() == 0,
            me.wf(),
    {
        Self { timeline: Vec::new() }
    }

    /// The keyframes, in ascending order of their frame.
    pub fn timeline(&self) -> (keyframes: &Vec<CameraFrame<P>>)
        ensures
            keyframes@ == self.keyframes(),
            ascending(frames_of(keyframes@)),
    {
        proof {
            use_type_invariant(self);
        }
        &self.timeline
    }

    /// Records a keyframe. It goes behind every keyframe whose frame is not
    /// greater than `frame`, which is where appending it and sorting by frame
    /// with a stable sort puts it: keyframes of the same frame stay in the
    /// order in which they were recorded.
    pub fn add_frame(&mut self, frame: usize, pose: P)
        ensures
            final(self).keyframes() == old(self).keyframes().insert(
                not_after(old(self).frames(), frame) as int,
                CameraFrame { frame, pose },
            ),
            final(self).wf(),
    {
        proof {
            use_type_invariant(&*self);
        }
        let ghost frames = self.frames();
        let mut timeline: Vec<CameraFrame<P>> = Vec::new();
        std::mem::swap(&mut timeline, &mut self.timeline);
        let mut at: usize = 0;
        while at < timeline.len() && timeline[at].frame <= frame
            invariant
                at <= timeline@.len(),
                frames == frames_of(timeline@),
                forall|i: int| 0 <= i < at ==> frames[i] <= frame,
            decreases timeline@.len() - at,
        {
            at += 1;
        }
        proof {
            assert forall|i: int| at <= i < frames.len() implies frames[i] > frame by {
                assert(frames[at as int] > frame);
                assert(frames[at as int] <= frames[i]);
            }
            lemma_not_after_is_split(frames, frame, at as int);
        }
        timeline.insert(at, CameraFrame { frame, pose });
        proof {
            let after = frames_of(timeline@);
            assert(after =~= frames.insert(at as int, frame));
            assert forall|i: int, j: int| 0 <= i < j < after.len() implies after[i] <= after[j] by {
                if i < at && j > at {
                    assert(frames[i] <= frame && frame < frames[j - 1]);
                } else if i > at {
                    assert(frames[i - 1] <= frames[j - 1]);
                } else if j < at {
                    assert(frames[i] <= frames[j]);
                } else if i == at {
                    assert(frames[j - 1] > frame);
                }
            }
        }
        self.timeline = timeline;
    }

    /// Says where the pose of `frame` comes from: see `is_lookup`.
    pub fn transform_at_frame(&self, frame: usize) -> (found: Option<FrameLookup>)
        ensures
            is_lookup(self.frames(), frame, found),
    {
        let n = self.timeline.len();
        if n < 1 {
            return None;
        }
        let ghost frames = self.frames();
        let mut i: usize = 0;
        while i < n
            invariant
                i <= n == self.timeline@.len(),
                frames == self.frames(),
                forall|k: int| 0 <= k < i ==> frames[k] != frame,
            decreases n - i,
        {
            if self.timeline[i].frame == frame {
                return Some(FrameLookup::Keyframe { index: i });
            }
            i += 1;
        }
        let mut j: usize = 0;
        while j < n && self.timeline[j].frame <= frame
            invariant
                j <= n == self.timeline@.len(),
                frames == self.frames(),
                forall|k: int| 0 <= k < j ==> frames[k] <= frame,
            decreases n - j,
        {
            j += 1;
        }
        if j == n {
            Some(FrameLookup::Keyframe { index: n - 1 })
        } else if j == 0 {
            Some(FrameLookup::Keyframe { index: 0 })
        } else {
            assert(frames[j - 1] <= frame && frames[j as int] > frame);
            let (elapsed, span) = Self::lerp_frames(&self.timeline[j - 1], &self.timeline[j], frame);
            Some(FrameLookup::Between { before: j - 1, after: j, elapsed, span })
        }
    }

    /// The fraction of the way from keyframe `a` to keyframe `b` at which
    /// `frame` lies, as numerator and denominator.
    pub fn lerp_frames(a: &CameraFrame<P>, b: &CameraFrame<P>, frame: usize) -> (fraction: (
        usize,
        usize,
    ))
        requires
            a.frame <= frame,
            a.frame <= b.frame,
        ensures
            fraction.0 == frame - a.frame,
            fraction.1 == b.frame - a.frame,
    {
        (frame - a.frame, b.frame - a.frame)
    }
}

/// A lookup is decided by the frames: two results for the same frames and
/// the same frame are equal.
pub proof fn lemma_lookup_is_unique(
    frames: Seq<usize>,
    frame: usize,
    a: Option<FrameLookup>,
    b: Option<FrameLookup>,
)
    requires
        is_lookup(frames, frame, a),
        is_lookup(frames, frame, b),
    ensures
        a == b,
{
    if frames.len() > 0 {
        if frames.contains(frame) {
            let i = a.unwrap()->Keyframe_index as int;
            let j = b.unwrap()->Keyframe_index as int;
            assert(first_match(frames, frame, i));
            assert(first_match(frames, frame, j));
            if i < j {
                assert(frames[i] != frame);
            }
            if j < i {
                assert(frames[j] != frame);
            }
        } else {
            lemma_lookup_places(frames, frame, a);
            lemma_lookup_places(frames, frame, b);
        }
    }
}

/// A frame that a keyframe holds gets the pose of the first such keyframe,
/// with nothing interpolated.
pub proof fn lemma_lookup_exact(frames: Seq<usize>, frame: usize, found: Option<FrameLookup>)
    requires
        is_lookup(frames, frame, found),
        frames.contains(frame),
    ensures
        found is Some,
        found.unwrap() is Keyframe,
        first_match(frames, frame, found.unwrap()->Keyframe_index as int),
{
}

/// Outside the recorded range the lookup clamps: a frame before the first
/// keyframe of an ascending timeline gets the first keyframe, a frame behind
/// the last gets the last.
pub proof fn lemma_lookup_clamps(frames: Seq<usize>, frame: usize, found: Option<FrameLookup>)
    requires
        is_lookup(frames, frame, found),
        ascending(frames),
        frames.len() > 0,
    ensures
        frame < frames.first() ==> found == Some(FrameLookup::Keyframe { index: 0 }),
        frame > frames.last() ==> found == Some(
            FrameLookup::Keyframe { index: (frames.len() - 1) as usize },
        ),
{
    if frame < frames.first() {
        assert forall|k: int| 0 <= k < frames.len() implies frames[k] != frame by {
            assert(frames[0] <= frames[k]);
        }
        assert(first_after(frames, frame, 0));
        lemma_lookup_places(frames, frame, found);
    }
    if frame > frames.last() {
        assert forall|k: int| 0 <= k < frames.len() implies frames[k] < frame by {
            assert(frames[k] <= frames[frames.len() - 1]);
        }
        assert forall|j: int| !first_after(frames, frame, j) by {
            if 0 <= j < frames.len() {
                assert(frames[j] < frame);
            }
        }
        lemma_lookup_places(frames, frame, found);
    }
}

/// An interpolated lookup lies strictly between two neighbouring keyframes:
/// its fraction is greater than 0 and less than 1, so the division is safe.
pub proof fn lemma_lookup_between(frames: Seq<usize>, frame: usize, found: Option<FrameLookup>)
    requires
        is_lookup(frames, frame, found),
        found is Some,
        found.unwrap() is Between,
    ensures
        0 < found.unwrap()->elapsed < found.unwrap()->span,
        found.unwrap()->after == found.unwrap()->before + 1,
        found.unwrap()->after < frames.len(),
        frames[found.unwrap()->before as int] < frame < frames[found.unwrap()->after as int],
{
    let before = found.unwrap()->before as int;
    assert(frames[before] <= frame);
    assert(frames[before] != frame);
}

/// For a frame that no keyframe holds, the lookup is a keyframe only at an
/// end of the timeline, and otherwise lies right before the first later
/// keyframe.
proof fn lemma_lookup_places(frames: Seq<usize>, frame: usize, found: Option<FrameLookup>)
    requires
        is_lookup(frames, frame, found),
        frames.len() > 0,
        !frames.contains(frame),
    ensures
        found.is_some(),
        forall|j: int| #[trigger]
            first_after(frames, frame, j) ==> if j == 0 {
                found == Some(FrameLookup::Keyframe { index: 0 })
            } else {
                found == Some(
                    FrameLookup::Between {
                        before: (j - 1) as usize,
                        after: j as usize,
                        elapsed: (frame - frames[j - 1]) as usize,
                        span: (frames[j] - frames[j - 1]) as usize,
                    },
                )
            },
        (forall|j: int| !first_after(frames, frame, j)) ==> found == Some(
            FrameLookup::Keyframe { index: (frames.len() - 1) as usize },
        ),
{
    assert forall|j: int| #[trigger] first_after(frames, frame, j) implies if j == 0 {
        found == Some(FrameLookup::Keyframe { index: 0 })
    } else {
        found == Some(
            FrameLookup::Between {
                before: (j - 1) as usize,
                after: j as usize,
                elapsed: (frame - frames[j - 1]) as usize,
                span: (frames[j] - frames[j - 1]) as usize,
            },
        )
    } by {
        match found {
            Some(FrameLookup::Keyframe { index }) => {
                if first_match(frames, frame, index as int) {
                    assert(frames.contains(frame));
                }
                if index != 0 || !first_after(frames, frame, 0) {
                    assert(frames[j] <= frame);
                }
                if j != 0 {
                    assert(frames[0] <= frame);
                }
            },
            Some(FrameLookup::Between { before, after, elapsed, span }) => {
                if (after as int) < j {
                    assert(frames[after as int] <= frame);
                }
                if j < after as int {
                    assert(frames[j] <= frame);
                }
            },
            None => {},
        }
    }
    if forall|j: int| !first_after(frames, frame, j) {
        match found {
            Some(FrameLookup::Keyframe { index }) => {
                if first_match(frames, frame, index as int) {
                    assert(frames.contains(frame));
                }
                assert(!first_after(frames, frame, 0));
            },
            Some(FrameLookup::Between { before, after, elapsed, span }) => {
                assert(first_after(frames, frame, after as int));
            },
            None => {},
        }
    }
}

/// In an ascending list, the position up to which frames are not greater
/// than `frame` and from which they are greater is the number of frames not
/// greater than `frame`.
pub proof fn lemma_not_after_is_split(frames: Seq<usize>, frame: usize, split: int)
    requires
        0 <= split <= frames.len(),
        forall|i: int| 0 <= i < split ==> frames[i] <= frame,
        forall|i: int| split <= i < frames.len() ==> frames[i] > frame,
    ensures
        not_after(frames, frame) == split,
    decreases frames.len(),
{
    if frames.len() > 0 {
        let rest = frames.drop_last();
        if split == frames.len() {
            lemma_not_after_is_split(rest, frame, split - 1);
        } else {
            lemma_not_after_is_split(rest, frame, split);
        }
    }
}

} // verus!
