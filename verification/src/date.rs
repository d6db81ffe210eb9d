//! Points in time, counted from the Unix epoch.

use vstd::prelude::*;

verus! {

/// Nanoseconds in one second.
pub const NANOS_PER_SEC: u32 = 1_000_000_000;

/// Nanoseconds in one day.
pub const NANOS_PER_DAY: u64 = 86_400_000_000_000;

/// A number of nanoseconds since the epoch is representable where its whole
/// seconds, without the sign, fit in 64 bits.
pub open spec fn is_representable(nanos: int) -> bool {
    -(u64::MAX + 1) * NANOS_PER_SEC < nanos < (u64::MAX + 1) * NANOS_PER_SEC
}

/// A point in time: a distance from the Unix epoch and the side of the epoch
/// on which it lies.
///
/// Two timestamps are ordered by [`Timestamp::instant`], whatever their
/// fields: the order does not depend on `nanos` staying under one second.
#[derive(Clone, Copy, Debug, PartialEq, Eq, Structural)]
pub struct Timestamp {
    /// The point lies before the epoch.
    pub before_epoch: bool,
    /// Whole seconds between the epoch and the point.
    pub secs: u64,
    /// Nanoseconds on top of `secs`.
    pub nanos: u32,
}

impl Timestamp {
    /// The point in nanoseconds since the epoch, negative before it.
    pub open spec fn instant(self) -> int {
        let distance = self.secs * NANOS_PER_SEC + self.nanos;
        if self.before_epoch {
            -distance
        } else {
            distance
        }
    }

    /// `nanos` is less than one second, and the epoch itself is not counted
    /// as lying before the epoch.
    pub open spec fn is_normal(self) -> bool {
        &&& self.nanos < NANOS_PER_SEC
        &&& self.before_epoch ==> self.secs > 0 || self.nanos > 0
    }

    /// The Unix epoch.
    pub open spec fn epoch_spec() -> Timestamp {
        Timestamp { before_epoch: false, secs: 0, nanos: 0 }
    }

    /// The Unix epoch.
    #[verifier::when_used_as_spec(epoch_spec)]
    pub fn epoch() -> (t: Timestamp)
        ensures
            t == Timestamp::epoch_spec(),
            t.instant() == 0,
            t.is_normal(),
    {
        Timestamp { before_epoch: false, secs: 0, nanos: 0 }
    }

    /// The point `secs` seconds after the epoch.
    pub fn from_secs(secs: u64) -> (t: Timestamp)
        ensures
            t.instant() == secs * NANOS_PER_SEC,
            t.is_normal(),
            t == (Timestamp { before_epoch: false, secs, nanos: 0 }),
    {
        Timestamp { before_epoch: false, secs, nanos: 0 }
    }

    /// The point in nanoseconds since the epoch.
    pub fn to_nanos(&self) -> (nanos: i128)
        ensures
            nanos == self.instant(),
    {
        assert(0 <= self.secs * NANOS_PER_SEC <= u64::MAX * NANOS_PER_SEC) by (nonlinear_arith)
            requires
                0 <= self.secs <= u64::MAX,
                NANOS_PER_SEC > 0,
        ;
        let distance: i128 = (self.secs as i128) * (NANOS_PER_SEC as i128) + (self.nanos as i128);
        if self.before_epoch {
            -distance
        } else {
            distance
        }
    }

    /// Whether this point is `other` or lies before it.
    pub fn is_at_or_before(&self, other: &Timestamp) -> (earlier: bool)
        ensures
            earlier == (self.instant() <= other.instant()),
    {
        self.to_nanos() <= other.to_nanos()
    }

    /// The point that lies `nanos` nanoseconds after the epoch, or before it
    /// where `nanos` is negative; `None` where its whole seconds do not fit
    /// in 64 bits.
    pub fn from_nanos(nanos: i128) -> (time: Option<Timestamp>)
        ensures
            time is Some <==> is_representable(nanos as int),
            time matches Some(t) ==> t.instant() == nanos && t.is_normal(),
    {
        if nanos == i128::MIN {
            return None;
        }
        let before_epoch = nanos < 0;
        let distance: u128 = if before_epoch {
            (-nanos) as u128
        } else {
            nanos as u128
        };
        let secs: u128 = distance / (NANOS_PER_SEC as u128);
        let rest: u128 = distance % (NANOS_PER_SEC as u128);
        if secs > u64::MAX as u128 {
            return None;
        }
        Some(Timestamp { before_epoch, secs: secs as u64, nanos: rest as u32 })
    }

    /// The point `days` days after this one, or `None` where its whole
    /// seconds do not fit in 64 bits.
    pub fn checked_add_days(&self, days: u64) -> (later: Option<Timestamp>)
        ensures
            later is Some <==> is_representable(self.instant() + days * NANOS_PER_DAY),
            later matches Some(t) ==> t.instant() == self.instant() + days * NANOS_PER_DAY
                && t.is_normal(),
    {
        let start = self.to_nanos();
        assert(-(u64::MAX * NANOS_PER_SEC + u32::MAX) <= start <= u64::MAX * NANOS_PER_SEC
            + u32::MAX) by (nonlinear_arith)
            requires
                start == self.instant(),
                start == self.secs * NANOS_PER_SEC + self.nanos || start == -(self.secs
                    * NANOS_PER_SEC + self.nanos),
                0 <= self.secs <= u64::MAX,
                0 <= self.nanos <= u32::MAX,
                NANOS_PER_SEC > 0,
        ;
        assert(0 <= days * NANOS_PER_DAY <= u64::MAX * NANOS_PER_DAY) by (nonlinear_arith)
            requires
                0 <= days <= u64::MAX,
                NANOS_PER_DAY > 0,
        ;
        let span: i128 = (days as i128) * (NANOS_PER_DAY as i128);
        Timestamp::from_nanos(start + span)
    }
}

/// Timestamps are ordered as their instants are: the order is total and
/// transitive.
pub proof fn lemma_order_is_total(a: Timestamp, b: Timestamp, c: Timestamp)
    ensures
        a.instant() <= b.instant() || b.instant() <= a.instant(),
        a.instant() <= b.instant() && b.instant() <= c.instant() ==> a.instant() <= c.instant(),
        a.is_normal() && b.is_normal() && a.instant() == b.instant() ==> a == b,
{
    if a.is_normal() && b.is_normal() && a.instant() == b.instant() {
        assert(a.secs == b.secs && a.nanos == b.nanos) by (nonlinear_arith)
            requires
                a.secs * 1_000_000_000 + a.nanos == b.secs * 1_000_000_000 + b.nanos
                    || a.secs * 1_000_000_000 + a.nanos == -(b.secs * 1_000_000_000 + b.nanos),
                a.nanos < 1_000_000_000,
                b.nanos < 1_000_000_000,
                a.secs >= 0,
                b.secs >= 0,
                a.nanos >= 0,
                b.nanos >= 0,
        ;
    }
}

} // verus!
