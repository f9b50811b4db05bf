use vstd::prelude::*;

verus! {

/// Which frame statistics overlays are shown.
#[derive(Debug, Clone, Copy, PartialEq, Eq, Structural)]
pub enum StatsDisplayMode {
    Off,
    Basic,
    Full,
}

pub open spec fn spec_next_mode(m: StatsDisplayMode) -> StatsDisplayMode {
    match m {
        StatsDisplayMode::Off => StatsDisplayMode::Basic,
        StatsDisplayMode::Basic => StatsDisplayMode::Full,
        StatsDisplayMode::Full => StatsDisplayMode::Off,
    }
}

impl StatsDisplayMode {
    /// Cycles off -> basic -> full -> off.
    pub fn next(self) -> (m: Self)
        ensures
            m == spec_next_mode(self),
    {
        match self {
            Self::Off => Self::Basic,
            Self::Basic => Self::Full,
            Self::Full => Self::Off,
        }
    }

    /// The frame-rate window is shown in basic and full mode.
    pub fn shows_frame_stats(self) -> (b: bool)
        ensures
            b == (self == StatsDisplayMode::Basic || self == StatsDisplayMode::Full),
    {
        match self {
            Self::Basic | Self::Full => true,
            Self::Off => false,
        }
    }

    /// The frame-time graphs are shown in full mode only.
    pub fn shows_graphs(self) -> (b: bool)
        ensures
            b == (self == StatsDisplayMode::Full),
    {
        match self {
            Self::Full => true,
            _ => false,
        }
    }
}

/// Toggling the statistics display three times brings it back to where it was.
pub proof fn lemma_stats_mode_cycle(m: StatsDisplayMode)
    ensures
        spec_next_mode(spec_next_mode(spec_next_mode(m))) == m,
{
}

/// A bounded log: pushing into a full log drops its oldest entry.
#[derive(Debug)]
pub struct Queue<T>(pub Vec<T>, pub usize);

/// What pushing `value` leaves in a log holding `items` with capacity `max_size`.
pub open spec fn spec_queue_push<T>(items: Seq<T>, max_size: usize, value: T) -> Seq<T> {
    if items.len() == max_size {
        items.drop_first().push(value)
    } else {
        items.push(value)
    }
}

impl<T> Queue<T> {
    /// An empty log that keeps at most `max_size` entries.
    pub fn new(max_size: usize) -> (q: Self)
        ensures
            q.0@.len() == 0,
            q.1 == max_size,
    {
        Queue(Vec::with_capacity(max_size), max_size)
    }

    /// Appends `value`, dropping the oldest entry first when the log is full.
    pub fn push(&mut self, value: T)
        requires
            old(self).0@.len() == old(self).1 ==> old(self).1 > 0,
        ensures
            final(self).0@ == spec_queue_push(old(self).0@, old(self).1, value),
            final(self).1 == old(self).1,
    {
        if self.0.len() == self.1 {
            self.0.remove(0);
        }
        self.0.push(value);
    }
}

/// A log within its capacity stays within it, and its newest entry is the value pushed.
pub proof fn lemma_queue_push_bounded<T>(items: Seq<T>, max_size: usize, value: T)
    requires
        items.len() <= max_size,
        max_size > 0,
    ensures
        spec_queue_push(items, max_size, value).len() <= max_size,
        spec_queue_push(items, max_size, value).last() == value,
        spec_queue_push(items, max_size, value).len() == if items.len() == max_size {
            items.len()
        } else {
            items.len() + 1
        },
{
}

/// The per-frame resources of the frames in flight, with the one in use.
pub struct InFlightFrames<T> {
    pub per_frames: Vec<T>,
    pub current_frame: usize,
}

/// The frame index after `k` advances from `c` among `len` frames.
pub open spec fn advance_frames(c: int, len: int, k: nat) -> int
    decreases k,
{
    if k == 0 {
        c
    } else {
        advance_frames((c + 1) % len, len, (k - 1) as nat)
    }
}

impl<T> InFlightFrames<T> {
    /// Starts with the first frame.
    pub fn new(per_frames: Vec<T>) -> (f: Self)
        ensures
            f.per_frames@ == per_frames@,
            f.current_frame == 0,
    {
        InFlightFrames { per_frames, current_frame: 0 }
    }

    /// Moves on to the next frame, wrapping around.
    pub fn next(&mut self)
        requires
            old(self).per_frames@.len() > 0,
            old(self).current_frame < usize::MAX,
        ensures
            final(self).current_frame == (old(self).current_frame + 1) % (old(self).per_frames@.len() as int),
            final(self).per_frames@ == old(self).per_frames@,
    {
        self.current_frame = (self.current_frame + 1) % self.per_frames.len();
    }

    /// The resources of the frame in use.
    pub fn current(&self) -> (r: &T)
        requires
            self.current_frame < self.per_frames@.len(),
        ensures
            *r == self.per_frames@[self.current_frame as int],
    {
        &self.per_frames[self.current_frame]
    }
}

/// Advancing `k` times from frame `c` lands on `(c + k) mod len`.
pub proof fn lemma_frames_advance(c: int, len: int, k: nat)
    requires
        len > 0,
        0 <= c < len,
    ensures
        advance_frames(c, len, k) == (c + k) % len,
    decreases k,
{
    if k == 0 {
        vstd::arithmetic::div_mod::lemma_small_mod(c as nat, len as nat);
    } else {
        let c1 = (c + 1) % len;
        vstd::arithmetic::div_mod::lemma_mod_bound(c + 1, len);
        lemma_frames_advance(c1, len, (k - 1) as nat);
        vstd::arithmetic::div_mod::lemma_add_mod_noop(c + 1, k - 1, len);
        vstd::arithmetic::div_mod::lemma_add_mod_noop(c1, k - 1, len);
        vstd::arithmetic::div_mod::lemma_mod_twice(c + 1, len);
    }
}

/// After as many advances as there are frames in flight, the same frame is
/// in use again.
pub proof fn lemma_frames_cycle(c: int, len: int)
    requires
        len > 0,
        0 <= c < len,
    ensures
        advance_frames(c, len, len as nat) == c,
{
    lemma_frames_advance(c, len, len as nat);
    vstd::arithmetic::div_mod::lemma_add_mod_noop(c, len, len);
    vstd::arithmetic::div_mod::lemma_mod_self_0(len);
    vstd::arithmetic::div_mod::lemma_small_mod(c as nat, len as nat);
}

/// Nanoseconds in one second.
pub const ONE_SEC_NANOS: u128 = 1_000_000_000;

/// Nanoseconds in one millisecond.
pub const ONE_MILLI_NANOS: u128 = 1_000_000;

/// The largest `std::time::Duration`, in nanoseconds.
pub const MAX_DURATION_NANOS: u128 = 18_446_744_073_709_551_615_999_999_999;

/// How many entries each frame-time log keeps.
pub const MAX_LOG_SIZE: usize = 1000;

/// Frame timing statistics; times are durations in nanoseconds, logs hold
/// whole milliseconds.
#[derive(Debug)]
pub struct FrameStats {
    /// GPU timings arrive a frame late, so the previous frame time is kept.
    pub previous_frame_time: u128,
    pub frame_time: u128,
    pub cpu_time: u128,
    pub gpu_time: u128,
    pub frame_time_ms_log: Queue<u128>,
    pub cpu_time_ms_log: Queue<u128>,
    pub gpu_time_ms_log: Queue<u128>,
    pub total_frame_count: u32,
    pub frame_count: u32,
    pub fps_counter: u32,
    pub timer: u128,
}

/// The logs of `s` are within their capacity.
pub open spec fn logs_ok(s: &FrameStats) -> bool {
    &&& s.frame_time_ms_log.1 > 0 && s.frame_time_ms_log.0@.len() <= s.frame_time_ms_log.1
    &&& s.cpu_time_ms_log.1 > 0 && s.cpu_time_ms_log.0@.len() <= s.cpu_time_ms_log.1
    &&& s.gpu_time_ms_log.1 > 0 && s.gpu_time_ms_log.0@.len() <= s.gpu_time_ms_log.1
}

pub open spec fn saturating_sub(a: u128, b: u128) -> u128 {
    if a >= b {
        (a - b) as u128
    } else {
        0
    }
}

impl FrameStats {
    /// All times and counters zero, empty logs of `MAX_LOG_SIZE` entries.
    pub fn default() -> (s: Self)
        ensures
            s.previous_frame_time == 0 && s.frame_time == 0 && s.cpu_time == 0 && s.gpu_time == 0,
            s.frame_time_ms_log.0@.len() == 0 && s.frame_time_ms_log.1 == MAX_LOG_SIZE,
            s.cpu_time_ms_log.0@.len() == 0 && s.cpu_time_ms_log.1 == MAX_LOG_SIZE,
            s.gpu_time_ms_log.0@.len() == 0 && s.gpu_time_ms_log.1 == MAX_LOG_SIZE,
            s.total_frame_count == 0 && s.frame_count == 0 && s.fps_counter == 0 && s.timer == 0,
            logs_ok(&s),
    {
        FrameStats {
            previous_frame_time: 0,
            frame_time: 0,
            cpu_time: 0,
            gpu_time: 0,
            frame_time_ms_log: Queue::new(MAX_LOG_SIZE),
            cpu_time_ms_log: Queue::new(MAX_LOG_SIZE),
            gpu_time_ms_log: Queue::new(MAX_LOG_SIZE),
            total_frame_count: 0,
            frame_count: 0,
            fps_counter: 0,
            timer: 0,
        }
    }

    /// Accounts for one frame: the CPU time is what the previous frame took
    /// beyond the GPU time, the three times are logged in milliseconds, the
    /// counters advance, and once more than a second has accumulated the
    /// frame count becomes the FPS figure and a second is taken off the timer.
    pub fn tick(&mut self)
        requires
            logs_ok(old(self)),
            old(self).total_frame_count < u32::MAX,
            old(self).frame_count < u32::MAX,
            old(self).timer + old(self).frame_time <= MAX_DURATION_NANOS,
        ensures
            logs_ok(final(self)),
            final(self).cpu_time == saturating_sub(old(self).previous_frame_time, old(self).gpu_time),
            final(self).frame_time_ms_log.0@ == spec_queue_push(
                old(self).frame_time_ms_log.0@,
                old(self).frame_time_ms_log.1,
                (old(self).previous_frame_time / ONE_MILLI_NANOS) as u128,
            ),
            final(self).cpu_time_ms_log.0@ == spec_queue_push(
                old(self).cpu_time_ms_log.0@,
                old(self).cpu_time_ms_log.1,
                (final(self).cpu_time / ONE_MILLI_NANOS) as u128,
            ),
            final(self).gpu_time_ms_log.0@ == spec_queue_push(
                old(self).gpu_time_ms_log.0@,
                old(self).gpu_time_ms_log.1,
                (old(self).gpu_time / ONE_MILLI_NANOS) as u128,
            ),
            final(self).total_frame_count == old(self).total_frame_count + 1,
            old(self).timer + old(self).frame_time > ONE_SEC_NANOS ==> {
                &&& final(self).fps_counter == old(self).frame_count + 1
                &&& final(self).frame_count == 0
                &&& final(self).timer == old(self).timer + old(self).frame_time - ONE_SEC_NANOS
            },
            old(self).timer + old(self).frame_time <= ONE_SEC_NANOS ==> {
                &&& final(self).fps_counter == old(self).fps_counter
                &&& final(self).frame_count == old(self).frame_count + 1
                &&& final(self).timer == old(self).timer + old(self).frame_time
            },
            final(self).previous_frame_time == old(self).previous_frame_time,
            final(self).frame_time == old(self).frame_time,
            final(self).gpu_time == old(self).gpu_time,
    {
        self.cpu_time = if self.previous_frame_time >= self.gpu_time {
            self.previous_frame_time - self.gpu_time
        } else {
            0
        };
        self.frame_time_ms_log.push(self.previous_frame_time / ONE_MILLI_NANOS);
        self.cpu_time_ms_log.push(self.cpu_time / ONE_MILLI_NANOS);
        self.gpu_time_ms_log.push(self.gpu_time / ONE_MILLI_NANOS);
        self.total_frame_count += 1;
        self.frame_count += 1;
        self.timer += self.frame_time;
        if self.timer > ONE_SEC_NANOS {
            self.fps_counter = self.frame_count;
            self.frame_count = 0;
            self.timer -= ONE_SEC_NANOS;
        }
    }

    /// Records a new frame time, keeping the last one as the previous.
    pub fn set_frame_time(&mut self, frame_time: u128)
        ensures
            final(self).previous_frame_time == old(self).frame_time,
            final(self).frame_time == frame_time,
            final(self).cpu_time == old(self).cpu_time,
            final(self).gpu_time == old(self).gpu_time,
            final(self).frame_time_ms_log.0@ == old(self).frame_time_ms_log.0@,
            final(self).frame_time_ms_log.1 == old(self).frame_time_ms_log.1,
            final(self).cpu_time_ms_log.0@ == old(self).cpu_time_ms_log.0@,
            final(self).cpu_time_ms_log.1 == old(self).cpu_time_ms_log.1,
            final(self).gpu_time_ms_log.0@ == old(self).gpu_time_ms_log.0@,
            final(self).gpu_time_ms_log.1 == old(self).gpu_time_ms_log.1,
            final(self).total_frame_count == old(self).total_frame_count,
            final(self).frame_count == old(self).frame_count,
            final(self).fps_counter == old(self).fps_counter,
            final(self).timer == old(self).timer,
    {
        self.previous_frame_time = self.frame_time;
        self.frame_time = frame_time;
    }

    /// Records the GPU time of the last completed frame.
    pub fn set_gpu_time_time(&mut self, gpu_time: u128)
        ensures
            final(self).gpu_time == gpu_time,
            final(self).previous_frame_time == old(self).previous_frame_time,
            final(self).frame_time == old(self).frame_time,
            final(self).cpu_time == old(self).cpu_time,
            final(self).frame_time_ms_log.0@ == old(self).frame_time_ms_log.0@,
            final(self).frame_time_ms_log.1 == old(self).frame_time_ms_log.1,
            final(self).cpu_time_ms_log.0@ == old(self).cpu_time_ms_log.0@,
            final(self).cpu_time_ms_log.1 == old(self).cpu_time_ms_log.1,
            final(self).gpu_time_ms_log.0@ == old(self).gpu_time_ms_log.0@,
            final(self).gpu_time_ms_log.1 == old(self).gpu_time_ms_log.1,
            final(self).total_frame_count == old(self).total_frame_count,
            final(self).frame_count == old(self).frame_count,
            final(self).fps_counter == old(self).fps_counter,
            final(self).timer == old(self).timer,
    {
        self.gpu_time = gpu_time;
    }
}

/// The GPU time of a frame from its two timestamps (in nanoseconds):
/// their difference, or zero if the clock went backwards.
pub fn gpu_frame_time_nanos(timestamps: &[u64; 2]) -> (t: u64)
    ensures
        t == if timestamps@[1] >= timestamps@[0] {
            (timestamps@[1] - timestamps@[0]) as u64
        } else {
            0u64
        },
{
    timestamps[1].saturating_sub(timestamps[0])
}

} // verus!
