use vstd::prelude::*;

verus! {

/// A surface format as the API's raw format and color-space values.
#[derive(Clone, Copy, Debug, PartialEq, Eq, Structural)]
pub struct SurfaceFormat {
    pub format: i32,
    pub color_space: i32,
}

/// The first of `available` that is `wanted`; `None` when the surface does
/// not offer it.
pub fn find_surface_format(available: &Vec<SurfaceFormat>, wanted: SurfaceFormat) -> (r: Option<SurfaceFormat>)
    ensures
        r is Some <==> available@.contains(wanted),
        r is Some ==> r->0 == wanted,
{
    let mut i: usize = 0;
    while i < available.len()
        invariant
            0 <= i <= available@.len(),
            forall|j: int| 0 <= j < i ==> available@[j] != wanted,
        decreases available@.len() - i,
    {
        if available[i] == wanted {
            return Some(wanted);
        }
        i = i + 1;
    }
    None
}

/// Number of swapchain images to ask for: one more than the surface's
/// minimum, but no more than its maximum when it states one (a maximum of
/// zero means none).
pub fn image_count(min_image_count: u32, max_image_count: u32) -> (r: u32)
    ensures
        r == if max_image_count > 0 && max_image_count < min_image_count + 1 {
            max_image_count as int
        } else if min_image_count == u32::MAX {
            u32::MAX as int
        } else {
            min_image_count + 1
        },
{
    let wanted = if min_image_count == u32::MAX { u32::MAX } else { min_image_count + 1 };
    if max_image_count > 0 && (max_image_count as u64) < min_image_count as u64 + 1 {
        max_image_count
    } else {
        wanted
    }
}

/// The semaphore pair used after pair `current`, going round the `count`
/// pairs in turn.
pub fn next_semaphore(current: usize, count: usize) -> (r: usize)
    requires
        current < count,
    ensures
        r == (current + 1) % (count as int),
        r < count,
{
    (current + 1) % count
}

/// The swapchain no longer matches its surface and must be recreated.
#[derive(Clone, Copy, Debug, PartialEq, Eq, Structural)]
pub enum SwapchainAcquireImageErr {
    RecreateSwapchain,
}

/// What asking the presentation engine for the next image gave.
#[derive(Clone, Copy, Debug, PartialEq, Eq, Structural)]
pub enum AcquireResult {
    /// Image `index` was acquired; `suboptimal` when it no longer matches
    /// the surface exactly.
    Acquired { index: u32, suboptimal: bool },
    /// The surface changed and the swapchain is out of date.
    OutOfDate,
}

/// Image index of an acquisition, or a request to recreate the swapchain
/// when the acquired image is suboptimal or the swapchain is out of date.
pub fn acquire_outcome(result: AcquireResult) -> (r: Result<u32, SwapchainAcquireImageErr>)
    ensures
        r == match result {
            AcquireResult::Acquired { index, suboptimal: false } => Ok(index),
            _ => Err(SwapchainAcquireImageErr::RecreateSwapchain),
        },
{
    match result {
        AcquireResult::Acquired { index, suboptimal } => {
            if suboptimal {
                Err(SwapchainAcquireImageErr::RecreateSwapchain)
            } else {
                Ok(index)
            }
        },
        AcquireResult::OutOfDate => Err(SwapchainAcquireImageErr::RecreateSwapchain),
    }
}

/// Outcome of a present: an out-of-date swapchain is ignored, since the
/// next acquisition reports it; any other failure code is passed on.
pub fn present_outcome(result: Result<(), i32>, out_of_date: i32) -> (r: Result<(), i32>)
    ensures
        r == match result {
            Ok(_) => Ok(()),
            Err(code) => if code == out_of_date {
                Ok(())
            } else {
                Err(code)
            },
        },
{
    match result {
        Ok(_) => Ok(()),
        Err(code) => {
            if code == out_of_date {
                Ok(())
            } else {
                Err(code)
            }
        },
    }
}

/// Value source for a timeline semaphore: each signal uses the next value,
/// starting at one.
#[derive(Debug)]
pub struct TimelineCounter {
    value: u64,
}

impl View for TimelineCounter {
    type V = u64;

    closed spec fn view(&self) -> u64 {
        self.value
    }
}

impl TimelineCounter {
    pub fn new() -> (r: Self)
        ensures
            r@ == 1,
    {
        TimelineCounter { value: 1 }
    }

    /// The value to signal next, then advances; `None` once the values are
    /// used up.
    pub fn advance(&mut self) -> (r: Option<u64>)
        ensures
            old(self)@ < u64::MAX ==> r == Some(old(self)@) && final(self)@ == old(self)@ + 1,
            old(self)@ == u64::MAX ==> r is None && final(self)@ == old(self)@,
    {
        if self.value == u64::MAX {
            None
        } else {
            let v = self.value;
            self.value = v + 1;
            Some(v)
        }
    }
}

} // verus!
