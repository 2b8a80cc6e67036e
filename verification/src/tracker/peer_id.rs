//! The id under which the client speaks to trackers and peers.

use std::time::{Duration, SystemTime, UNIX_EPOCH};
use vstd::prelude::*;

verus! {

/// `std::time::SystemTime`, a reading of the system clock, carried as it
/// is.
#[verifier::external_type_specification]
#[verifier::external_body]
pub struct ExSystemTime(SystemTime);

/// The first eight bytes of every peer id of this client: the ASCII text
/// `-RT0100-`.
pub open spec fn peer_id_prefix() -> Seq<u8> {
    seq![45u8, 82u8, 84u8, 48u8, 49u8, 48u8, 48u8, 45u8]
}

/// The peer id made from a number of seconds: the prefix, then twelve
/// bytes that count up from the seconds, each taken modulo 256.
pub open spec fn peer_id_of(seconds: u64) -> Seq<u8> {
    Seq::new(
        20,
        |i: int|
            if i < 8 {
                peer_id_prefix()[i]
            } else {
                ((seconds + (i - 8)) % 256) as u8
            },
    )
}

/// Calls `SystemTime::now`: the time of the system clock, of which nothing
/// is known.
#[verifier::external_body]
fn system_now() -> SystemTime {
    SystemTime::now()
}

/// Calls `SystemTime::duration_since` with `UNIX_EPOCH`: how long after
/// the epoch a time is, or nothing for a time before it.
#[verifier::external_body]
fn since_epoch(t: &SystemTime) -> Option<Duration> {
    t.duration_since(UNIX_EPOCH).ok()
}

/// Calls `Duration::as_secs`: the whole seconds of a duration.
#[verifier::external_body]
fn whole_seconds(d: &Duration) -> u64 {
    d.as_secs()
}

/// The peer id made from a number of seconds.
pub fn peer_id_from_seconds(seconds: u64) -> (r: [u8; 20])
    ensures
        r@ == peer_id_of(seconds),
{
    let mut peer_id = [0u8; 20];
    peer_id[0] = 45;
    peer_id[1] = 82;
    peer_id[2] = 84;
    peer_id[3] = 48;
    peer_id[4] = 49;
    peer_id[5] = 48;
    peer_id[6] = 48;
    peer_id[7] = 45;
    let base: u64 = seconds % 256;
    let mut i: usize = 0;
    while i < 12
        invariant
            i <= 12,
            base == seconds % 256,
            forall|j: int| 0 <= j < 8 ==> peer_id[j] == peer_id_prefix()[j],
            forall|j: int| 8 <= j < 8 + i ==> peer_id[j] == ((seconds + (j - 8)) % 256) as u8,
        decreases 12 - i,
    {
        peer_id[8 + i] = ((base + i as u64) % 256) as u8;
        i = i + 1;
    }
    proof {
        assert(peer_id@ =~= peer_id_of(seconds));
    }
    peer_id
}

/// A peer id for this session: the client's prefix, then bytes taken from
/// the clock's seconds since the epoch (from 0 where the clock stands
/// before it).
pub fn generate_peer_id() -> (r: [u8; 20])
    ensures
        exists|seconds: u64| r@ == peer_id_of(seconds),
        r@.subrange(0, 8) == peer_id_prefix(),
{
    let now = system_now();
    let seconds = match since_epoch(&now) {
        Some(d) => whole_seconds(&d),
        None => 0,
    };
    let r = peer_id_from_seconds(seconds);
    proof {
        assert(r@.subrange(0, 8) =~= peer_id_prefix());
    }
    r
}

} // verus!
