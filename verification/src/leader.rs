//! Leader lease and fencing. Every change of holder raises the epoch; the epoch
//! is stamped into what the leader publishes, so that consumers can drop what
//! an earlier leader still sends.
use crate::money;
use crate::text;
use vstd::prelude::*;

verus! {

/// The role under which matching engines compete.
pub const LEADER_ROLE_ENGINE: &'static str = "engine";

#[derive(Debug, Clone, Copy, PartialEq, Eq, Structural)]
pub struct Leadership {
    /// The fencing token.
    pub epoch: i64,
}

/// A lease as it is stored.
#[derive(Debug)]
pub struct Lease {
    pub holder: String,
    pub epoch: i64,
    pub expires_at_ms: i64,
}

/// What a lease says, over plain values.
#[verifier::ext_equal]
pub struct LeaseView {
    pub holder: Seq<char>,
    pub epoch: int,
    pub expires_at_ms: int,
}

impl Lease {
    pub open spec fn view(&self) -> LeaseView {
        LeaseView {
            holder: self.holder@,
            epoch: self.epoch as int,
            expires_at_ms: self.expires_at_ms as int,
        }
    }
}

/// The lease after `holder` asked for it: granted where it is free, already
/// theirs, or expired; a renewal keeps the epoch and a takeover raises it.
pub open spec fn acquired(
    current: Option<LeaseView>,
    holder: Seq<char>,
    now_ms: int,
    ttl_ms: int,
) -> Option<LeaseView> {
    match current {
        None => Some(LeaseView { holder, epoch: 1, expires_at_ms: now_ms + ttl_ms }),
        Some(lease) => if lease.holder == holder {
            Some(LeaseView { expires_at_ms: now_ms + ttl_ms, ..lease })
        } else if lease.expires_at_ms < now_ms {
            Some(LeaseView { holder, epoch: lease.epoch + 1, expires_at_ms: now_ms + ttl_ms })
        } else {
            None
        },
    }
}

pub open spec fn lease_view(lease: Option<&Lease>) -> Option<LeaseView> {
    match lease {
        Some(l) => Some(l.view()),
        None => None,
    }
}

/// Decides on a request for the lease.
pub fn try_acquire(current: Option<&Lease>, holder: &str, now_ms: i64, ttl_ms: i64) -> (r: Option<
    Lease,
>)
    requires
        acquired(lease_view(current), holder@, now_ms as int, ttl_ms as int) is Some
            ==> money::fits_i64(now_ms + ttl_ms),
        current matches Some(l) ==> l.holder@ != holder@ && l.expires_at_ms < now_ms ==> l.epoch
            < i64::MAX,
    ensures
        lease_view(
            match r {
                Some(lease) => Some(&lease),
                None => None,
            },
        ) == acquired(lease_view(current), holder@, now_ms as int, ttl_ms as int),
{
    let epoch: i64 = match current {
        None => 1,
        Some(lease) => if text::str_eq(lease.holder.as_str(), holder) {
            lease.epoch
        } else if lease.expires_at_ms < now_ms {
            lease.epoch + 1
        } else {
            return None;
        },
    };
    Some(Lease { holder: text::owned(holder), epoch, expires_at_ms: now_ms + ttl_ms })
}

/// A lease given up: it expires at once, but only where `holder` has it.
pub fn release(lease: &mut Lease, holder: &str, now_ms: i64)
    ensures
        final(lease).view() == (if old(lease).holder@ == holder@ {
            LeaseView { expires_at_ms: now_ms as int, ..old(lease).view() }
        } else {
            old(lease).view()
        }),
{
    if text::str_eq(lease.holder.as_str(), holder) {
        lease.expires_at_ms = now_ms;
    }
}

/// Epochs never fall, and they rise with every change of holder: no two
/// holders ever publish under one epoch. A lease that has not expired is not
/// handed to anyone else.
pub proof fn law_takeover_raises_epoch(
    current: LeaseView,
    holder: Seq<char>,
    now_ms: int,
    ttl_ms: int,
)
    ensures
        acquired(Some(current), holder, now_ms, ttl_ms) matches Some(next) ==> {
            &&& next.epoch >= current.epoch
            &&& next.holder == holder
            &&& next.holder != current.holder ==> next.epoch == current.epoch + 1
            &&& next.holder == current.holder ==> next.epoch == current.epoch
        },
        holder != current.holder && now_ms <= current.expires_at_ms ==> acquired(
            Some(current),
            holder,
            now_ms,
            ttl_ms,
        ) is None,
{
}

/// A leader's own clock on its lease: once it has run out the leader has to
/// stop publishing, whether or not the lease can be looked up.
#[derive(Debug, Clone, Copy, PartialEq, Eq, Structural)]
pub struct LeaseGuard {
    pub last_renew_ms: u64,
    pub ttl_ms: u64,
}

impl LeaseGuard {
    pub fn new(ttl_ms: u64, now_ms: u64) -> (r: LeaseGuard)
        ensures
            r.ttl_ms == ttl_ms,
            r.last_renew_ms == now_ms,
    {
        LeaseGuard { last_renew_ms: now_ms, ttl_ms }
    }

    pub fn record_renewal(&mut self, now_ms: u64)
        ensures
            final(self).last_renew_ms == now_ms,
            final(self).ttl_ms == old(self).ttl_ms,
    {
        self.last_renew_ms = now_ms;
    }

    /// Whether less than the lifetime has passed since the last renewal.
    pub fn is_lease_valid(&self, now_ms: u64) -> (r: bool)
        requires
            self.last_renew_ms <= now_ms,
        ensures
            r == (now_ms - self.last_renew_ms < self.ttl_ms),
    {
        now_ms - self.last_renew_ms < self.ttl_ms
    }
}

/// The epoch takes the high sixteen bits, the sequence the low forty-eight.
pub const EPOCH_SHIFT: u32 = 48;

pub const SEQ_MASK: u64 = 0xffff_ffff_ffff;

/// A sequence number under an epoch.
pub open spec fn stamped(epoch: int, seq: int) -> int {
    epoch * 0x1_0000_0000_0000 + seq % 0x1_0000_0000_0000
}

/// Stamps an epoch into a sequence number.
pub fn stamp_epoch(epoch: i64, seq: u64) -> (r: u64)
    requires
        0 <= epoch <= 65535,
    ensures
        r == stamped(epoch as int, seq as int),
{
    let e = epoch as u64;
    proof {
        assert(((e & 0xffff) << 48u32) | (seq & 0xffff_ffff_ffff) == e * 0x1_0000_0000_0000 + seq
            % 0x1_0000_0000_0000) by (bit_vector)
            requires
                e <= 65535,
        ;
    }
    ((e & 0xffff) << EPOCH_SHIFT) | (seq & SEQ_MASK)
}

/// The epoch and the sequence number of a stamp.
pub fn split_epoch(stamped: u64) -> (r: (u16, u64))
    ensures
        r.0 == stamped as int / 0x1_0000_0000_0000,
        r.1 == stamped as int % 0x1_0000_0000_0000,
{
    proof {
        assert(stamped >> 48u32 == stamped / 0x1_0000_0000_0000) by (bit_vector);
        assert(stamped >> 48u32 <= 0xffff) by (bit_vector);
        assert(stamped & 0xffff_ffff_ffff == stamped % 0x1_0000_0000_0000) by (bit_vector);
    }
    ((stamped >> EPOCH_SHIFT) as u16, stamped & SEQ_MASK)
}

/// Splitting a stamp gives the epoch and the sequence back, and a stamp of a
/// higher epoch is above every stamp of a lower one.
pub proof fn law_stamps_round_trip_and_order(low: int, high: int, seq: int, other: int)
    requires
        0 <= low < high <= 65535,
        seq >= 0,
        other >= 0,
    ensures
        stamped(low, seq) / 0x1_0000_0000_0000 == low,
        stamped(low, seq) % 0x1_0000_0000_0000 == seq % 0x1_0000_0000_0000,
        stamped(low, seq) < stamped(high, other),
        0 <= stamped(high, other) <= u64::MAX,
{
}

/// A lease that nobody holds, that its holder renews, or that has run out is
/// granted from now on for its full time; the first one starts at epoch one.
pub proof fn law_free_lease_is_granted(
    current: Option<LeaseView>,
    holder: Seq<char>,
    now_ms: int,
    ttl_ms: int,
)
    ensures
        acquired(current, holder, now_ms, ttl_ms) is Some <==> (current matches Some(l)
            ==> l.holder == holder || l.expires_at_ms < now_ms),
        acquired(current, holder, now_ms, ttl_ms) matches Some(next) ==> next.holder == holder
            && next.expires_at_ms == now_ms + ttl_ms,
        current is None ==> (acquired(current, holder, now_ms, ttl_ms) matches Some(next)
            && next.epoch == 1),
{
}

/// Two stamps of one epoch are ordered as their sequence numbers are, while
/// these fit.
pub proof fn law_stamps_follow_the_sequence(epoch: int, first: int, second: int)
    requires
        0 <= epoch <= 65535,
        0 <= first < second < 0x1_0000_0000_0000,
    ensures
        stamped(epoch, first) < stamped(epoch, second),
        stamped(epoch, second) - stamped(epoch, first) == second - first,
{
}

} // verus!
