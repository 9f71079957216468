//! A line of the on-screen display, which expires a fixed time after it was made.
use vstd::prelude::*;

use crate::messages::LogKind;

verus! {

/// How long a line stays on screen: 4 seconds, in nanoseconds.
pub open spec fn max_duration_nanos() -> u128 {
    4_000_000_000
}

/// Time from `created` to `now` (nanoseconds since the UNIX epoch, negative before it),
/// or 0 when the clock reads earlier than `created` (as `SystemTime::elapsed` falls back
/// to zero).
pub open spec fn elapsed_since(created: i128, now: i128) -> u128 {
    if now >= created {
        (now - created) as u128
    } else {
        0
    }
}

/// A line made at `created` has expired at `now`: more than 4 seconds have passed.
pub open spec fn expired_at(created: i128, now: i128) -> bool {
    elapsed_since(created, now) > max_duration_nanos()
}

/// A clock reading as signed nanoseconds from the UNIX epoch: `nanos` after it, or
/// before it when `after_epoch` is false; held at the bounds of `i128`.
pub open spec fn epoch_offset(after_epoch: bool, nanos: u128) -> i128 {
    if after_epoch {
        if nanos <= i128::MAX {
            nanos as i128
        } else {
            i128::MAX
        }
    } else {
        if nanos <= i128::MAX {
            (-nanos) as i128
        } else {
            i128::MIN
        }
    }
}

#[verifier::external_type_specification]
#[verifier::external_body]
pub struct ExSystemTime(std::time::SystemTime);

/// `SystemTime::now()`.
/// Trusted: nothing is claimed of the value; it is the clock's.
#[verifier::external_body]
fn system_time_now() -> std::time::SystemTime {
    std::time::SystemTime::now()
}

/// `t.duration_since(UNIX_EPOCH)`: whether `t` is at or after the epoch, and how far
/// from it (the error's `duration()` when `t` is before it).
/// Trusted: nothing is claimed of the values.
#[verifier::external_body]
fn since_epoch(t: &std::time::SystemTime) -> (bool, std::time::Duration) {
    match t.duration_since(std::time::UNIX_EPOCH) {
        Ok(d) => (true, d),
        Err(e) => (false, e.duration()),
    }
}

/// `Duration::as_nanos`.
/// Trusted: nothing is claimed of the value; `vstd` sees nothing inside a `Duration`.
#[verifier::external_body]
fn duration_nanos(d: &std::time::Duration) -> u128 {
    d.as_nanos()
}

/// A clock reading as signed nanoseconds from the UNIX epoch.
pub fn epoch_nanos(after_epoch: bool, nanos: u128) -> (r: i128)
    ensures
        r == epoch_offset(after_epoch, nanos),
{
    let in_range = nanos <= i128::MAX as u128;
    if after_epoch {
        if in_range {
            nanos as i128
        } else {
            i128::MAX
        }
    } else {
        if in_range {
            -(nanos as i128)
        } else {
            i128::MIN
        }
    }
}

/// The system clock, in signed nanoseconds from the UNIX epoch (negative for a clock
/// set before 1970). What it reads is the clock's; `epoch_nanos` states the conversion.
pub fn now_nanos() -> i128 {
    let t = system_time_now();
    let (after_epoch, d) = since_epoch(&t);
    epoch_nanos(after_epoch, duration_nanos(&d))
}

/// Time from `created` to `now`, without overflow for any two readings.
pub fn elapsed_nanos(created: i128, now: i128) -> (r: u128)
    ensures
        r == elapsed_since(created, now),
{
    if now < created {
        0
    } else if created >= 0 || now < 0 {
        (now - created) as u128
    } else {
        let back: i128 = -(created + 1);
        (now as u128) + (back as u128) + 1
    }
}

/// A line for the on-screen display, with the time it was made.
#[derive(Clone, Debug)]
pub struct TextLine {
    pub text: String,
    pub kind: LogKind,
    timestamp: i128,
}

impl View for TextLine {
    type V = (Seq<char>, LogKind, i128);

    closed spec fn view(&self) -> (Seq<char>, LogKind, i128) {
        (self.text@, self.kind, self.timestamp)
    }
}

impl TextLine {
    /// When this line was made, in nanoseconds since the UNIX epoch.
    pub closed spec fn created(&self) -> i128 {
        self.timestamp
    }

    /// The characters of this line's text.
    pub closed spec fn text_view(&self) -> Seq<char> {
        self.text@
    }

    /// This line's kind.
    pub closed spec fn kind_view(&self) -> LogKind {
        self.kind
    }

    /// The view is the text, the kind and the creation time.
    pub proof fn lemma_view(&self)
        ensures
            self@ == (self.text_view(), self.kind_view(), self.created()),
    {
    }

    /// A line made now.
    pub fn new(text: &str, kind: LogKind) -> (r: Self)
        ensures
            r.text_view() == text@,
            r.kind_view() == kind,
    {
        let now = now_nanos();
        Self::new_at(text, kind, now)
    }

    /// A line made at `now`.
    pub fn new_at(text: &str, kind: LogKind, now: i128) -> (r: Self)
        ensures
            r.text_view() == text@,
            r.kind_view() == kind,
            r.created() == now,
            r@ == (text@, kind, now),
    {
        TextLine { text: String::from_str(text), kind, timestamp: now }
    }

    /// When this line was made.
    pub fn timestamp(&self) -> (r: i128)
        ensures
            r == self.created(),
    {
        self.timestamp
    }

    /// How long a line stays on screen, in nanoseconds (4 seconds).
    pub fn max_duration() -> (r: u128)
        ensures
            r == max_duration_nanos(),
    {
        4_000_000_000
    }

    /// Time since this line was made, as of `now` (0 if `now` is earlier).
    pub fn get_elapsed_at(&self, now: i128) -> (r: u128)
        ensures
            r == elapsed_since(self.created(), now),
    {
        elapsed_nanos(self.timestamp, now)
    }

    /// The time this line has left on screen as of `now`: the full 4 seconds less the
    /// time since it was made, or the full 4 seconds when more than that has passed.
    pub fn remaining_at(&self, now: i128) -> (r: u128)
        ensures
            r == (if elapsed_since(self.created(), now) <= max_duration_nanos() {
                (max_duration_nanos() - elapsed_since(self.created(), now)) as u128
            } else {
                max_duration_nanos()
            }),
    {
        let max = Self::max_duration();
        let elapsed = self.get_elapsed_at(now);
        if elapsed <= max {
            max - elapsed
        } else {
            max
        }
    }

    /// Whether this line has expired as of `now`.
    pub fn is_expired_at(&self, now: i128) -> (r: bool)
        ensures
            r == expired_at(self.created(), now),
    {
        self.get_elapsed_at(now) > Self::max_duration()
    }

    /// Time since this line was made, by the system clock.
    pub fn get_elapsed(&self) -> (r: u128)
        ensures
            exists|now: i128| r == elapsed_since(self.created(), now),
    {
        let now = now_nanos();
        self.get_elapsed_at(now)
    }

    /// Whether this line has expired, by the system clock.
    pub fn is_expired(&self) -> (r: bool)
        ensures
            exists|now: i128| r == expired_at(self.created(), now),
    {
        let now = now_nanos();
        self.is_expired_at(now)
    }
}

/// A line has not expired at the moment it is made, and once expired it stays expired
/// as the clock goes on.
pub proof fn law_expiry_monotone(created: i128, t1: i128, t2: i128)
    requires
        t1 <= t2,
    ensures
        !expired_at(created, created),
        expired_at(created, t1) ==> expired_at(created, t2),
{
}

} // verus!
