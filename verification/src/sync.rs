//! Waiting for points on timelines.

use vstd::prelude::*;

verus! {

/// How long a point is waited for, in nanoseconds.
pub const WAIT_TIMEOUT_NS: u64 = 10_000_000_000;

/// How long a frame waits for a client's timeline that cannot be imported, in nanoseconds.
pub const CLIENT_WAIT_NS: i64 = 100_000_000;

/// The wait was interrupted.
#[derive(Debug, Clone, Copy, PartialEq, Eq, Structural)]
pub struct Interrupted;

/// How a wait ended.
#[derive(Debug, Clone, Copy, PartialEq, Eq, Structural)]
pub enum WaitEnd {
    Reached,
    Interrupted,
    TimedOut,
    Failed,
}

/// Whether a timeline has reached a point; one that cannot be queried has not.
pub open spec fn reached(value: Option<u64>, point: u64) -> bool {
    match value {
        Some(value) => value >= point,
        None => false,
    }
}

/// See [`reached`].
pub fn is_signaled(value: Option<u64>, point: u64) -> (r: bool)
    ensures
        r == reached(value, point),
{
    match value {
        Some(value) => value >= point,
        None => false,
    }
}

/// A time some nanoseconds after another one, as far as 64 bits hold it.
pub open spec fn later(tv_sec: int, tv_nsec: int, timeout: int) -> int {
    let at = tv_sec * 1_000_000_000 + tv_nsec + timeout;
    if at > i64::MAX {
        i64::MAX as int
    } else {
        at
    }
}

fn make_later(tv_sec: i64, tv_nsec: i64, timeout: i64) -> (deadline: i64)
    requires
        0 <= tv_sec,
        0 <= tv_nsec < 1_000_000_000,
        tv_sec * 1_000_000_000 + tv_nsec <= i64::MAX,
        0 <= timeout,
    ensures
        deadline == later(tv_sec as int, tv_nsec as int, timeout as int),
{
    let now: i64 = tv_sec * 1_000_000_000 + tv_nsec;
    if now > i64::MAX - timeout {
        i64::MAX
    } else {
        now + timeout
    }
}

/// The time at which a wait for a kernel timeline is given up, on the monotonic clock.
pub fn wait_deadline(tv_sec: i64, tv_nsec: i64) -> (deadline: i64)
    requires
        0 <= tv_sec,
        0 <= tv_nsec < 1_000_000_000,
        tv_sec * 1_000_000_000 + tv_nsec <= i64::MAX,
    ensures
        deadline == later(tv_sec as int, tv_nsec as int, WAIT_TIMEOUT_NS as int),
{
    make_later(tv_sec, tv_nsec, WAIT_TIMEOUT_NS as i64)
}

/// The time at which a frame gives up on a client's timeline that cannot be imported, on the
/// monotonic clock.
pub fn client_wait_deadline(tv_sec: i64, tv_nsec: i64) -> (deadline: i64)
    requires
        0 <= tv_sec,
        0 <= tv_nsec < 1_000_000_000,
        tv_sec * 1_000_000_000 + tv_nsec <= i64::MAX,
    ensures
        deadline == later(tv_sec as int, tv_nsec as int, CLIENT_WAIT_NS as int),
{
    make_later(tv_sec, tv_nsec, CLIENT_WAIT_NS)
}

/// What a wait for a kernel timeline returns: an interruption is reported, anything else ends
/// the wait for good.
pub fn drm_wait_result(end: WaitEnd) -> (r: Result<(), Interrupted>)
    ensures
        r == if end == WaitEnd::Interrupted {
            Err::<(), Interrupted>(Interrupted)
        } else {
            Ok(())
        },
{
    match end {
        WaitEnd::Interrupted => Err(Interrupted),
        _ => Ok(()),
    }
}

/// What is done to wait for a point of a graphics timeline.
#[derive(Debug, Clone, Copy, PartialEq, Eq, Structural)]
pub enum VulkanWait {
    /// Nothing: it has been reached, or the device is gone.
    Done,
    /// The device waits, up to a timeout.
    Device { timeout_ns: u64 },
}

/// A point on a graphics timeline: what is known of it.
#[derive(Debug, Clone, Copy, PartialEq, Eq, Structural)]
pub struct VulkanSyncPoint {
    pub point: u64,
    /// The timeline is shared with the kernel.
    pub exported: bool,
}

impl VulkanSyncPoint {
    /// Whether the point has been reached, by what the kernel or the device says.
    pub open spec fn is_reached(self, drm_value: Option<u64>, device_value: Option<u64>) -> bool {
        (self.exported && reached(drm_value, self.point)) || reached(device_value, self.point)
    }

    /// See [`VulkanSyncPoint::is_reached`].
    pub fn is_signaled(&self, drm_value: Option<u64>, device_value: Option<u64>) -> (r: bool)
        ensures
            r == self.is_reached(drm_value, device_value),
    {
        (self.exported && is_signaled(drm_value, self.point)) || is_signaled(
            device_value,
            self.point,
        )
    }

    /// How the point is waited for.
    pub fn wait(&self, drm_value: Option<u64>, device_value: Option<u64>, device_alive: bool) -> (plan:
        VulkanWait)
        ensures
            plan == if self.is_reached(drm_value, device_value) || !device_alive {
                VulkanWait::Done
            } else {
                VulkanWait::Device { timeout_ns: WAIT_TIMEOUT_NS }
            },
    {
        if self.is_signaled(drm_value, device_value) || !device_alive {
            VulkanWait::Done
        } else {
            VulkanWait::Device { timeout_ns: WAIT_TIMEOUT_NS }
        }
    }

    /// Whether the point can be handed to the kernel.
    pub fn is_exportable(&self) -> (r: bool)
        ensures
            r == self.exported,
    {
        self.exported
    }
}

/// Whether a frame has to wait for a client's point before it is submitted: only if the
/// timeline could not be imported and has not reached the point.
pub fn waits_on_cpu(imported: bool, value: Option<u64>, point: u64) -> (r: bool)
    ensures
        r == (!imported && !reached(value, point)),
{
    !imported && !is_signaled(value, point)
}

/// A point that has been reached stays reached, and so do all earlier points.
pub proof fn law_reached_points_stay_reached(before: u64, after: u64, point: u64, earlier: u64)
    requires
        before <= after,
        earlier <= point,
        reached(Some(before), point),
    ensures
        reached(Some(after), point),
        reached(Some(after), earlier),
{
}

} // verus!
