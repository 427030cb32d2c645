//! Following ffmpeg's `-progress` output: percentage done and a smoothed write speed.
use vstd::prelude::*;
use crate::ffmpeg::{parse_progress_kv, progress_kv_spec};
use crate::text::{chars_of, str_eq};

verus! {

#[verifier::external_type_specification]
#[verifier::external_body]
pub struct ExInstant(std::time::Instant);

/// Relies on `Instant::now`: a reading of the monotonic clock.
#[verifier::external_body]
fn clock_now() -> std::time::Instant {
    std::time::Instant::now()
}

/// Relies on `Instant::elapsed`: the time since `start`, in nanoseconds (saturated to `u64`).
/// The clock decides the value, so nothing is stated of it.
#[verifier::external_body]
fn nanos_since(start: &std::time::Instant) -> u64 {
    u64::try_from(start.elapsed().as_nanos()).unwrap_or(u64::MAX)
}

/// The value of a run of decimal digits.
pub open spec fn digits_value(s: Seq<char>) -> int
    decreases s.len(),
{
    if s.len() == 0 {
        0
    } else {
        digits_value(s.drop_last()) * 10 + (s.last() as int - '0' as int)
    }
}

pub open spec fn all_digits(s: Seq<char>) -> bool {
    forall|i: int| 0 <= i < s.len() ==> '0' <= #[trigger] s[i] && s[i] <= '9'
}

/// An unsigned decimal number with an optional leading `+`, if it fits in `u64`.
pub open spec fn parse_u64_spec(s: Seq<char>) -> Option<u64> {
    let body = if s.len() > 0 && s[0] == '+' {
        s.drop_first()
    } else {
        s
    };
    if body.len() > 0 && all_digits(body) && digits_value(body) <= u64::MAX {
        Some(digits_value(body) as u64)
    } else {
        None
    }
}

proof fn lemma_digits_value_grows(s: Seq<char>)
    requires
        all_digits(s),
    ensures
        digits_value(s) >= 0,
    decreases s.len(),
{
    if s.len() > 0 {
        assert(all_digits(s.drop_last())) by {
            assert forall|i: int| 0 <= i < s.drop_last().len() implies '0' <= #[trigger] s.drop_last()[i] && s.drop_last()[i] <= '9' by {
                assert(s.drop_last()[i] == s[i]);
            }
        }
        lemma_digits_value_grows(s.drop_last());
        assert('0' <= s[s.len() - 1]);
    }
}

/// Reads an unsigned decimal number, as `u64`'s `from_str` does.
pub fn parse_u64(s: &str) -> (r: Option<u64>)
    ensures
        r == parse_u64_spec(s@),
{
    let chars = chars_of(s);
    let start: usize = if chars.len() > 0 && chars[0] == '+' { 1 } else { 0 };
    let ghost body = if s@.len() > 0 && s@[0] == '+' { s@.drop_first() } else { s@ };
    assert(body == chars@.subrange(start as int, chars@.len() as int));
    if start == chars.len() {
        return None;
    }
    let mut value: u64 = 0;
    let mut i: usize = start;
    while i < chars.len()
        invariant
            chars@ == s@,
            body == (if s@.len() > 0 && s@[0] == '+' { s@.drop_first() } else { s@ }),
            body == chars@.subrange(start as int, chars@.len() as int),
            start < chars@.len(),
            start <= i <= chars@.len(),
            all_digits(chars@.subrange(start as int, i as int)),
            value == digits_value(chars@.subrange(start as int, i as int)),
        decreases chars@.len() - i,
    {
        let c = chars[i];
        let ghost pre = chars@.subrange(start as int, i + 1);
        assert(pre.drop_last() == chars@.subrange(start as int, i as int));
        if c < '0' || c > '9' {
            assert(!all_digits(body)) by {
                assert(body[i - start] == c);
            }
            return None;
        }
        let d = (c as u32 - '0' as u32) as u64;
        assert(all_digits(pre)) by {
            assert forall|k: int| 0 <= k < pre.len() implies '0' <= #[trigger] pre[k] && pre[k] <= '9' by {
                if k < pre.len() - 1 {
                    assert(pre[k] == chars@.subrange(start as int, i as int)[k]);
                }
            }
        }
        match value.checked_mul(10) {
            Some(t) => match t.checked_add(d) {
                Some(v) => {
                    value = v;
                },
                None => {
                    proof {
                        lemma_rest_bigger(chars@, start as int, i + 1);
                    }
                    return None;
                },
            },
            None => {
                proof {
                    lemma_digits_value_grows(chars@.subrange(start as int, i as int));
                    lemma_rest_bigger(chars@, start as int, i + 1);
                }
                return None;
            },
        }
        i = i + 1;
    }
    Some(value)
}

/// Once a prefix of digits is too large, the whole run is too large (or not all digits).
proof fn lemma_rest_bigger(s: Seq<char>, start: int, i: int)
    requires
        0 <= start < i <= s.len(),
        all_digits(s.subrange(start, i)) ==> digits_value(s.subrange(start, i)) > u64::MAX,
    ensures
        all_digits(s.subrange(start, s.len() as int)) ==> digits_value(s.subrange(start, s.len() as int)) > u64::MAX,
    decreases s.len() - i,
{
    if i < s.len() {
        let next = s.subrange(start, i + 1);
        assert(next.drop_last() == s.subrange(start, i));
        if all_digits(next) {
            assert(all_digits(s.subrange(start, i))) by {
                assert forall|k: int| 0 <= k < i - start implies '0' <= #[trigger] s.subrange(start, i)[k] && s.subrange(start, i)[k] <= '9' by {
                    assert(s.subrange(start, i)[k] == next[k]);
                }
            }
            assert(next[i - start] == next.last());
        }
        lemma_rest_bigger(s, start, i + 1);
    } else {
        assert(s.subrange(start, i) == s.subrange(start, s.len() as int));
    }
}

/// Percentage of `duration_us` that `out_time_us` has reached, rounded half up and held
/// between 0 and 99 (100 is kept for the end).
pub open spec fn running_progress_spec(out_time_us: u64, duration_us: u64) -> int {
    let p = (out_time_us * 200 + duration_us) / (2 * duration_us as int);
    if p > 99 {
        99
    } else {
        p
    }
}

/// One report drawn from ffmpeg's progress output.
#[derive(Clone, Copy, Debug, PartialEq, Eq, Structural)]
pub struct FfmpegProgressUpdate {
    /// Percentage done, when the duration is known.
    pub progress: Option<i32>,
    /// Smoothed write speed, in bytes per second.
    pub speed_bytes_per_sec: Option<u64>,
    /// ffmpeg reported the end.
    pub is_end: bool,
}

/// The state kept while reading one ffmpeg run's progress output.
pub struct FfmpegProgressTracker {
    /// Length of the media, when known and positive.
    pub duration_us: Option<u64>,
    /// When the run started.
    pub start_instant: std::time::Instant,
    pub last_total_size_bytes: Option<u64>,
    /// When the last size was seen, in nanoseconds since the start.
    pub last_total_size_elapsed_ns: Option<u64>,
    /// Exponential moving average of the write speed, a quarter weight on the newest sample.
    pub smoothed_speed_bytes_per_sec: Option<u64>,
}

/// The speed between two size samples, rounded down, if the clock and the size both moved
/// forward.
pub open spec fn sample_speed(size: u64, elapsed_ns: u64, last_size: u64, last_ns: u64) -> int {
    if elapsed_ns > last_ns && size >= last_size {
        let s = (size - last_size) * 1_000_000_000 / ((elapsed_ns - last_ns) as int);
        if s > u64::MAX {
            u64::MAX as int
        } else {
            s
        }
    } else {
        0
    }
}

impl FfmpegProgressTracker {
    /// A tracker for a run of `duration_us` microseconds; zero counts as unknown.
    pub fn new(duration_us: Option<u64>) -> (r: FfmpegProgressTracker)
        ensures
            r.duration_us == (match duration_us {
                Some(d) if d > 0 => Some(d),
                _ => None,
            }),
            r.last_total_size_bytes is None,
            r.last_total_size_elapsed_ns is None,
            r.smoothed_speed_bytes_per_sec is None,
    {
        let duration = match duration_us {
            Some(d) => if d > 0 {
                Some(d)
            } else {
                None
            },
            None => None,
        };
        FfmpegProgressTracker {
            duration_us: duration,
            start_instant: clock_now(),
            last_total_size_bytes: None,
            last_total_size_elapsed_ns: None,
            smoothed_speed_bytes_per_sec: None,
        }
    }

    /// Percentage done at `out_time_us`, or `None` when the duration is unknown.
    pub fn compute_running_progress(&self, out_time_us: u64) -> (r: Option<i32>)
        ensures
            r == (match self.duration_us {
                Some(d) if d > 0 => Some(running_progress_spec(out_time_us, d) as i32),
                _ => None,
            }),
    {
        let d = match self.duration_us {
            Some(d) => d,
            None => {
                return None;
            },
        };
        if d == 0 {
            return None;
        }
        let p: u128 = (out_time_us as u128 * 200 + d as u128) / (2 * d as u128);
        if p > 99 {
            Some(99)
        } else {
            Some(p as i32)
        }
    }

    /// Takes a size sample seen `elapsed_ns` after the start: when both the clock and the size
    /// moved forward since the last sample and the speed is positive, it enters the average.
    pub fn update_speed(&mut self, total_size_bytes: u64, elapsed_ns: u64)
        ensures
            final(self).duration_us == old(self).duration_us,
            final(self).last_total_size_bytes == Some(total_size_bytes),
            final(self).last_total_size_elapsed_ns == Some(elapsed_ns),
            final(self).smoothed_speed_bytes_per_sec == (match (old(self).last_total_size_bytes, old(self).last_total_size_elapsed_ns) {
                (Some(last), Some(last_ns)) if sample_speed(total_size_bytes, elapsed_ns, last, last_ns) > 0 => {
                    let s = sample_speed(total_size_bytes, elapsed_ns, last, last_ns);
                    match old(self).smoothed_speed_bytes_per_sec {
                        Some(prev) => Some(((s + 3 * prev) / 4) as u64),
                        None => Some(s as u64),
                    }
                },
                _ => old(self).smoothed_speed_bytes_per_sec,
            }),
    {
        match (self.last_total_size_bytes, self.last_total_size_elapsed_ns) {
            (Some(last), Some(last_ns)) => {
                if elapsed_ns > last_ns && total_size_bytes >= last {
                    let wide: u128 = (total_size_bytes - last) as u128 * 1_000_000_000 / (elapsed_ns - last_ns) as u128;
                    let speed: u64 = if wide > u64::MAX as u128 {
                        u64::MAX
                    } else {
                        wide as u64
                    };
                    if speed > 0 {
                        self.smoothed_speed_bytes_per_sec = match self.smoothed_speed_bytes_per_sec {
                            Some(prev) => Some(((speed as u128 + 3 * prev as u128) / 4) as u64),
                            None => Some(speed),
                        };
                    }
                }
            },
            _ => {},
        }
        self.last_total_size_bytes = Some(total_size_bytes);
        self.last_total_size_elapsed_ns = Some(elapsed_ns);
    }

    /// Reads one line of progress output: `out_time_us` gives the percentage done,
    /// `total_size` a speed sample, `progress=end` the end; other lines give nothing.
    pub fn handle_line(&mut self, line: &str) -> (r: Option<FfmpegProgressUpdate>)
        ensures
            final(self).duration_us == old(self).duration_us,
            match progress_kv_spec(line@) {
                None => r is None,
                Some((k, v)) => {
                    &&& k == "out_time_us"@ ==> match parse_u64_spec(v) {
                        Some(t) => r == Some(
                            FfmpegProgressUpdate {
                                progress: match old(self).duration_us {
                                    Some(d) if d > 0 => Some(running_progress_spec(t, d) as i32),
                                    _ => None,
                                },
                                speed_bytes_per_sec: old(self).smoothed_speed_bytes_per_sec,
                                is_end: false,
                            },
                        ),
                        None => r is None,
                    }
                    &&& k == "total_size"@ && parse_u64_spec(v) is Some ==> {
                        &&& final(self).last_total_size_bytes == parse_u64_spec(v)
                        &&& match final(self).smoothed_speed_bytes_per_sec {
                            Some(sp) => r == Some(
                                FfmpegProgressUpdate { progress: None, speed_bytes_per_sec: Some(sp), is_end: false },
                            ),
                            None => r is None,
                        }
                    }
                    &&& k == "progress"@ && v == "end"@ ==> r == Some(
                        FfmpegProgressUpdate {
                            progress: Some(100),
                            speed_bytes_per_sec: old(self).smoothed_speed_bytes_per_sec,
                            is_end: true,
                        },
                    )
                },
            },
    {
        proof {
            reveal_strlit("out_time_us");
            reveal_strlit("total_size");
            reveal_strlit("progress");
            assert("out_time_us"@.len() == 11);
            assert("total_size"@.len() == 10);
            assert("progress"@.len() == 8);
        }
        let (key, value) = match parse_progress_kv(line) {
            Some(kv) => kv,
            None => {
                return None;
            },
        };
        if str_eq(key.as_str(), "out_time_us") {
            match parse_u64(value.as_str()) {
                Some(t) => Some(FfmpegProgressUpdate {
                    progress: self.compute_running_progress(t),
                    speed_bytes_per_sec: self.smoothed_speed_bytes_per_sec,
                    is_end: false,
                }),
                None => None,
            }
        } else if str_eq(key.as_str(), "total_size") {
            match parse_u64(value.as_str()) {
                Some(size) => {
                    let elapsed = nanos_since(&self.start_instant);
                    self.update_speed(size, elapsed);
                    match self.smoothed_speed_bytes_per_sec {
                        Some(s) => Some(FfmpegProgressUpdate { progress: None, speed_bytes_per_sec: Some(s), is_end: false }),
                        None => None,
                    }
                },
                None => None,
            }
        } else if str_eq(key.as_str(), "progress") && str_eq(value.as_str(), "end") {
            Some(FfmpegProgressUpdate { progress: Some(100), speed_bytes_per_sec: self.smoothed_speed_bytes_per_sec, is_end: true })
        } else {
            None
        }
    }
}

} // verus!
