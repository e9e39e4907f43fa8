//! Timestamp heuristics over raw FILETIME values (100 ns intervals since 1601-01-01 UTC).
use vstd::prelude::*;

verus! {

/// FILETIME of the Unix epoch, 1970-01-01T00:00:00Z.
pub const UNIX_EPOCH_FILETIME: u64 = 116_444_736_000_000_000;

/// How far a `$FILE_NAME` time may lie after the matching `$STANDARD_INFORMATION` time
/// before the pair counts as timestomped, in milliseconds.
pub const TIMESTOMP_THRESHOLD_MS: i64 = 100_000;

/// The tolerance of the volume-birth check, in milliseconds.
pub const VOLUME_BIRTH_TOLERANCE_MS: i64 = 1_000;

/// 100 ns intervals since the Unix epoch; times before it count as the epoch.
pub open spec fn unix_ticks(ft: u64) -> int {
    if ft < UNIX_EPOCH_FILETIME {
        0
    } else {
        ft - UNIX_EPOCH_FILETIME
    }
}

/// Milliseconds since the Unix epoch.
pub open spec fn unix_millis(ft: u64) -> int {
    unix_ticks(ft) / 10_000
}

/// The time falls on a whole second.
pub open spec fn whole_second(ft: u64) -> bool {
    unix_ticks(ft) % 10_000_000 == 0
}

pub fn filetime_unix_millis(ft: u64) -> (r: i64)
    ensures
        r == unix_millis(ft),
{
    let ticks = ft.saturating_sub(UNIX_EPOCH_FILETIME);
    (ticks / 10_000) as i64
}

pub fn filetime_whole_second(ft: u64) -> (r: bool)
    ensures
        r == whole_second(ft),
{
    ft.saturating_sub(UNIX_EPOCH_FILETIME) % 10_000_000 == 0
}

/// The four `$STANDARD_INFORMATION` and four `$FILE_NAME` times of one record.
#[derive(Debug, Clone, Copy, PartialEq, Eq, Structural)]
pub struct TimestampData {
    pub si_c: u64,
    pub si_m: u64,
    /// Record change (MFT modified).
    pub si_e: u64,
    pub si_a: u64,
    pub fn_c: u64,
    pub fn_m: u64,
    pub fn_e: u64,
    pub fn_a: u64,
}

pub open spec fn count_whole(a: u64, b: u64, c: u64, d: u64) -> int {
    (if whole_second(a) { 1int } else { 0int }) + (if whole_second(b) { 1int } else { 0int }) + (if whole_second(
        c,
    ) {
        1int
    } else {
        0int
    }) + (if whole_second(d) { 1int } else { 0int })
}

pub open spec fn later_by_threshold(fn_t: u64, si_t: u64) -> bool {
    unix_millis(fn_t) - unix_millis(si_t) > TIMESTOMP_THRESHOLD_MS
}

/// Some `$FILE_NAME` time lies more than the threshold after its `$STANDARD_INFORMATION`
/// counterpart.
pub open spec fn timestomped_spec(t: TimestampData) -> bool {
    later_by_threshold(t.fn_c, t.si_c) || later_by_threshold(t.fn_m, t.si_m) || later_by_threshold(t.fn_e, t.si_e)
        || later_by_threshold(t.fn_a, t.si_a)
}

/// The creation time lies more than the tolerance before the volume's birth.
pub open spec fn before_birth_spec(t: TimestampData, volume_birth: Option<u64>) -> bool {
    match volume_birth {
        Some(vb) => unix_millis(t.si_c) < unix_millis(vb) - VOLUME_BIRTH_TOLERANCE_MS,
        None => false,
    }
}

/// Created after the last modification.
pub open spec fn copied_spec(t: TimestampData) -> bool {
    unix_ticks(t.si_c) > unix_ticks(t.si_m)
}

/// Three or more whole-second `$STANDARD_INFORMATION` times, at most one `$FILE_NAME` one.
pub open spec fn usec_zeros_spec(t: TimestampData) -> bool {
    count_whole(t.si_c, t.si_m, t.si_e, t.si_a) >= 3 && count_whole(t.fn_c, t.fn_m, t.fn_e, t.fn_a) <= 1
}

fn count_whole_exec(a: u64, b: u64, c: u64, d: u64) -> (r: u32)
    ensures
        r == count_whole(a, b, c, d),
{
    let mut n: u32 = 0;
    if filetime_whole_second(a) {
        n = n + 1;
    }
    if filetime_whole_second(b) {
        n = n + 1;
    }
    if filetime_whole_second(c) {
        n = n + 1;
    }
    if filetime_whole_second(d) {
        n = n + 1;
    }
    n
}

fn later_by_threshold_exec(fn_t: u64, si_t: u64) -> (r: bool)
    ensures
        r == later_by_threshold(fn_t, si_t),
{
    filetime_unix_millis(fn_t) - filetime_unix_millis(si_t) > TIMESTOMP_THRESHOLD_MS
}

impl TimestampData {
    /// At least three `$STANDARD_INFORMATION` times fall on whole seconds while at most one
    /// `$FILE_NAME` time does.
    pub fn has_usec_zeros(&self) -> (r: bool)
        ensures
            r == (count_whole(self.si_c, self.si_m, self.si_e, self.si_a) >= 3 && count_whole(
                self.fn_c,
                self.fn_m,
                self.fn_e,
                self.fn_a,
            ) <= 1),
    {
        count_whole_exec(self.si_c, self.si_m, self.si_e, self.si_a) >= 3 && count_whole_exec(
            self.fn_c,
            self.fn_m,
            self.fn_e,
            self.fn_a,
        ) <= 1
    }

    /// The file was created after its last modification, the mark of a copy.
    pub fn is_copied(&self) -> (r: bool)
        ensures
            r == (unix_ticks(self.si_c) > unix_ticks(self.si_m)),
    {
        self.si_c.saturating_sub(UNIX_EPOCH_FILETIME) > self.si_m.saturating_sub(UNIX_EPOCH_FILETIME)
    }

    /// Some `$FILE_NAME` time lies more than the threshold after its `$STANDARD_INFORMATION`
    /// counterpart.
    pub fn is_timestomped(&self) -> (r: bool)
        ensures
            r == (later_by_threshold(self.fn_c, self.si_c) || later_by_threshold(self.fn_m, self.si_m)
                || later_by_threshold(self.fn_e, self.si_e) || later_by_threshold(self.fn_a, self.si_a)),
    {
        later_by_threshold_exec(self.fn_c, self.si_c) || later_by_threshold_exec(self.fn_m, self.si_m)
            || later_by_threshold_exec(self.fn_e, self.si_e) || later_by_threshold_exec(self.fn_a, self.si_a)
    }

    /// The creation time lies more than the tolerance before the volume's birth.
    pub fn is_before_volume_birth(&self, volume_birth: Option<u64>) -> (r: bool)
        ensures
            r == match volume_birth {
                Some(vb) => unix_millis(self.si_c) < unix_millis(vb) - VOLUME_BIRTH_TOLERANCE_MS,
                None => false,
            },
    {
        match volume_birth {
            Some(vb) => filetime_unix_millis(self.si_c) < filetime_unix_millis(vb) - VOLUME_BIRTH_TOLERANCE_MS,
            None => false,
        }
    }
}

} // verus!
