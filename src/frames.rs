use vstd::prelude::*;

verus! {

/// Frames whose GPU work may overlap: one fence per slot.
pub const FRAMES_IN_FLIGHT: usize = 1;

/// The per-image objects of one swapchain image: its framebuffer and the
/// command buffer recorded for it.
pub struct Frame<F, C> {
    pub fb: F,
    pub cb: C,
}

/// Which fences guard which frames. Fences are the API's raw fence handles.
/// `fences` holds one fence per frame slot and `frame` is the slot in use;
/// `in_flight[i]` is the fence of the last submission that targets image
/// `i`, if any.
pub struct FrameScheduler<F, C> {
    frames: Vec<Frame<F, C>>,
    in_flight: Vec<Option<u64>>,
    fences: Vec<u64>,
    frame: usize,
}

/// The state of a scheduler as its contracts speak of it.
pub ghost struct SchedulerView<F, C> {
    pub frames: Seq<Frame<F, C>>,
    pub in_flight: Seq<Option<u64>>,
    pub fences: Seq<u64>,
    pub frame: int,
}

impl<F, C> SchedulerView<F, C> {
    pub open spec fn wf(self) -> bool {
        &&& self.fences.len() > 0
        &&& 0 <= self.frame < self.fences.len()
        &&& self.in_flight.len() == self.frames.len()
    }

    /// The fence that guards the slot in use.
    pub open spec fn slot_fence(self) -> u64 {
        self.fences[self.frame]
    }

    /// The state once image `index` is handed to the slot in use: the image
    /// is now guarded by the slot's fence.
    pub open spec fn claimed(self, index: int) -> Self {
        SchedulerView { in_flight: self.in_flight.update(index, Some(self.slot_fence())), ..self }
    }

    /// The state once the slot's work is submitted: the next slot is in use.
    pub open spec fn submitted(self) -> Self {
        SchedulerView { frame: (self.frame + 1) % (self.fences.len() as int), ..self }
    }

    /// The state once the images are replaced by those of `fbs`: image `i`
    /// keeps its command buffer and fence and takes framebuffer `fbs[i]`, for
    /// as many images as both the old and the new set have.
    pub open spec fn recreated(self, fbs: Seq<F>, next: Self) -> bool {
        let n = if fbs.len() < self.frames.len() { fbs.len() } else { self.frames.len() };
        &&& next.frames.len() == n
        &&& next.in_flight == self.in_flight.take(n as int)
        &&& forall|i: int| 0 <= i < n ==> (#[trigger] next.frames[i]).cb == self.frames[i].cb && next.frames[i].fb == fbs[i]
        &&& next.fences == self.fences
        &&& next.frame == self.frame
    }
}

impl<F, C> View for FrameScheduler<F, C> {
    type V = SchedulerView<F, C>;

    closed spec fn view(&self) -> SchedulerView<F, C> {
        SchedulerView { frames: self.frames@, in_flight: self.in_flight@, fences: self.fences@, frame: self.frame as int }
    }
}

impl<F, C> FrameScheduler<F, C> {
    /// Pairs framebuffer `i` with command buffer `i`, for as many images as
    /// both lists have; no image is guarded by a fence yet.
    pub fn new(framebuffers: Vec<F>, command_buffers: Vec<C>, fences: Vec<u64>) -> (r: Self)
        requires
            fences@.len() > 0,
        ensures
            r@.wf(),
            r@.fences == fences@,
            r@.frame == 0,
            r@.frames.len() == if framebuffers@.len() < command_buffers@.len() { framebuffers@.len() } else { command_buffers@.len() },
            forall|i: int| 0 <= i < r@.frames.len() ==> (#[trigger] r@.frames[i]).fb == framebuffers@[i] && r@.frames[i].cb == command_buffers@[i],
            forall|i: int| 0 <= i < r@.in_flight.len() ==> r@.in_flight[i] is None,
    {
        let mut fbs = framebuffers;
        let mut cbs = command_buffers;
        let ghost fbs0 = fbs@;
        let ghost cbs0 = cbs@;
        let n = if fbs.len() < cbs.len() { fbs.len() } else { cbs.len() };
        let mut frames: Vec<Frame<F, C>> = Vec::new();
        let mut in_flight: Vec<Option<u64>> = Vec::new();
        let mut k: usize = 0;
        while k < n
            invariant
                n <= fbs0.len() && n <= cbs0.len(),
                0 <= k <= n,
                fbs@ == fbs0.subrange(k as int, fbs0.len() as int),
                cbs@ == cbs0.subrange(k as int, cbs0.len() as int),
                frames@.len() == k,
                in_flight@.len() == k,
                forall|i: int| 0 <= i < k ==> (#[trigger] frames@[i]).fb == fbs0[i] && frames@[i].cb == cbs0[i],
                forall|i: int| 0 <= i < k ==> in_flight@[i] is None,
            decreases n - k,
        {
            let fb = fbs.remove(0);
            let cb = cbs.remove(0);
            frames.push(Frame { fb, cb });
            in_flight.push(None);
            proof {
                assert(fbs@ =~= fbs0.subrange(k + 1, fbs0.len() as int));
                assert(cbs@ =~= cbs0.subrange(k + 1, cbs0.len() as int));
            }
            k = k + 1;
        }
        FrameScheduler { frames, in_flight, fences, frame: 0 }
    }

    pub fn frames(&self) -> (r: &Vec<Frame<F, C>>)
        ensures
            r@ == self@.frames,
    {
        &self.frames
    }

    /// The fence to wait on before the slot in use takes a new image.
    pub fn slot_fence(&self) -> (r: u64)
        requires
            self@.wf(),
        ensures
            r == self@.slot_fence(),
    {
        self.fences[self.frame]
    }

    /// Hands image `index` to the slot in use. Returns the fence of the
    /// previous submission that targets this image, which must be waited on
    /// before the image is drawn again.
    pub fn claim_image(&mut self, index: usize) -> (r: Option<u64>)
        requires
            old(self)@.wf(),
            index < old(self)@.frames.len(),
        ensures
            r == old(self)@.in_flight[index as int],
            final(self)@ == old(self)@.claimed(index as int),
            final(self)@.wf(),
    {
        let previous = self.in_flight[index];
        let fence = self.fences[self.frame];
        self.in_flight.set(index, Some(fence));
        previous
    }

    /// Ends the frame of the slot in use. Returns the fence to reset and to
    /// signal with the submission; the next slot is then in use.
    pub fn submit_fence(&mut self) -> (r: u64)
        requires
            old(self)@.wf(),
        ensures
            r == old(self)@.slot_fence(),
            final(self)@ == old(self)@.submitted(),
            final(self)@.wf(),
    {
        let fence = self.fences[self.frame];
        let slots = self.fences.len();
        self.frame = (self.frame + 1) % slots;
        fence
    }

    /// Replaces the framebuffers after a resize; image `i` keeps its command
    /// buffer and fence.
    pub fn recreate(&mut self, framebuffers: Vec<F>)
        requires
            old(self)@.wf(),
        ensures
            old(self)@.recreated(framebuffers@, final(self)@),
            final(self)@.wf(),
    {
        let ghost before = self@;
        let mut old_frames: Vec<Frame<F, C>> = Vec::new();
        std::mem::swap(&mut self.frames, &mut old_frames);
        let mut fbs = framebuffers;
        let ghost fbs0 = fbs@;
        let ghost frames0 = old_frames@;
        let n = if fbs.len() < old_frames.len() { fbs.len() } else { old_frames.len() };
        let mut k: usize = 0;
        while k < n
            invariant
                n <= fbs0.len() && n <= frames0.len(),
                0 <= k <= n,
                fbs@ == fbs0.subrange(k as int, fbs0.len() as int),
                old_frames@ == frames0.subrange(k as int, frames0.len() as int),
                self.frames@.len() == k,
                forall|i: int| 0 <= i < k ==> (#[trigger] self.frames@[i]).fb == fbs0[i] && self.frames@[i].cb == frames0[i].cb,
                self.in_flight@ == before.in_flight,
                self.fences@ == before.fences,
                self.frame == before.frame,
            decreases n - k,
        {
            let fb = fbs.remove(0);
            let old_frame = old_frames.remove(0);
            self.frames.push(Frame { fb, cb: old_frame.cb });
            proof {
                assert(fbs@ =~= fbs0.subrange(k + 1, fbs0.len() as int));
                assert(old_frames@ =~= frames0.subrange(k + 1, frames0.len() as int));
            }
            k = k + 1;
        }
        self.in_flight.truncate(n);
    }
}

/// Two frames begun with no submission between them: the second waits on
/// the same slot fence as the first, and when it is handed the same image
/// it also waits on the fence that the first recorded for that image, so it
/// cannot proceed before the first frame's fence is signaled.
pub proof fn lemma_begin_twice_waits<F, C>(s: SchedulerView<F, C>, first: int, second: int)
    requires
        s.wf(),
        0 <= first < s.frames.len(),
        0 <= second < s.frames.len(),
    ensures
        s.claimed(first).wf(),
        s.claimed(first).slot_fence() == s.slot_fence(),
        second == first ==> s.claimed(first).in_flight[second] == Some(s.slot_fence()),
{
}

/// A resize that yields as many framebuffers as there were images keeps
/// every image: the frame count is unchanged and image `i` keeps its
/// command buffer and in-flight fence, so no fence is dropped or repeated.
pub proof fn lemma_recreate_keeps_frames<F, C>(s: SchedulerView<F, C>, fbs: Seq<F>, next: SchedulerView<F, C>)
    requires
        s.wf(),
        fbs.len() == s.frames.len(),
        s.recreated(fbs, next),
    ensures
        next.frames.len() == s.frames.len(),
        next.in_flight == s.in_flight,
        next.fences == s.fences,
        forall|i: int| 0 <= i < next.frames.len() ==> (#[trigger] next.frames[i]).cb == s.frames[i].cb,
{
    assert(s.in_flight.take(s.frames.len() as int) =~= s.in_flight);
}

} // verus!
