//! Minting of storage keys: six bytes of the current time in milliseconds,
//! then six random bytes, drawn again while the key is already in use.

use vstd::prelude::*;
use std::time::{Duration, SystemTime, UNIX_EPOCH};
use rand::RngCore;
use crate::bytes::{be_byte, big_endian_u64};
use super::{holds_key, StorageKey};

verus! {

/// How often a key is drawn before the planner gives up on finding one that
/// is not in use.
pub const MAX_KEY_ATTEMPTS: usize = 64;

/// Why no key could be minted.
#[derive(Debug)]
pub enum KeygenError {
    /// The clock reads before the epoch, or so late that the milliseconds
    /// since the epoch no longer fit in six bytes.
    ClockOutOfRange,
    /// Every key drawn was already in use.
    KeySpaceExhausted,
}

#[verifier::external_type_specification]
#[verifier::external_body]
pub struct ExSystemTime(SystemTime);

/// The key made of the last six bytes of `time` followed by `tail`.
pub open spec fn key_of_parts(time: [u8; 8], tail: [u8; 6]) -> Seq<u8> {
    time@.subrange(2, 8) + tail@
}

/// `SystemTime::now`: the system clock as it reads at the call. Nothing is
/// claimed of the reading.
#[verifier::external_body]
fn clock_now() -> SystemTime {
    SystemTime::now()
}

/// `SystemTime::duration_since` with `UNIX_EPOCH`: the time from the epoch to
/// `t`, and nothing where `t` lies before the epoch. Nothing is claimed of the
/// length.
#[verifier::external_body]
fn since_epoch(t: &SystemTime) -> Option<Duration> {
    match t.duration_since(UNIX_EPOCH) {
        Ok(elapsed) => Some(elapsed),
        Err(_) => None,
    }
}

/// `Duration::as_millis`: the whole milliseconds in `d`. Nothing is claimed of
/// the number.
#[verifier::external_body]
fn whole_millis(d: &Duration) -> u128 {
    d.as_millis()
}

/// `rand::thread_rng` and `RngCore::fill_bytes` on a buffer of six bytes: the
/// bytes come from the thread's generator, and nothing is claimed of them.
#[verifier::external_body]
fn random_tail() -> [u8; 6] {
    let mut tail = [0u8; 6];
    rand::thread_rng().fill_bytes(&mut tail);
    tail
}

/// Puts a key together from the big-endian time and the random tail.
pub fn key_from_parts(time: &[u8; 8], tail: &[u8; 6]) -> (key: StorageKey)
    ensures
        key@ == key_of_parts(*time, *tail),
{
    let key: StorageKey = [
        time[2],
        time[3],
        time[4],
        time[5],
        time[6],
        time[7],
        tail[0],
        tail[1],
        tail[2],
        tail[3],
        tail[4],
        tail[5],
    ];
    assert(key@ =~= key_of_parts(*time, *tail));
    key
}

/// The milliseconds fit the six bytes that a key has for the time: written as
/// eight big-endian bytes, the first two are zero.
pub open spec fn fits_key(millis: u128) -> bool {
    millis <= u64::MAX && be_byte(millis as u64, 0) == 0 && be_byte(millis as u64, 1) == 0
}

/// The key for a clock reading of `millis` milliseconds since the epoch and a
/// random tail: the last six big-endian bytes of the milliseconds, then the
/// tail. There is a key exactly where the milliseconds fit those six bytes.
pub fn key_at(millis: u128, tail: &[u8; 6]) -> (key: Option<StorageKey>)
    ensures
        key is Some == fits_key(millis),
        key matches Some(k) ==> k@.subrange(6, 12) == tail@ && forall|i: int|
            0 <= i < 6 ==> k@[i] == be_byte(millis as u64, i + 2),
{
    if millis > u64::MAX as u128 {
        return None;
    }
    let time = big_endian_u64(millis as u64);
    if time[0] != 0 || time[1] != 0 {
        return None;
    }
    let key = key_from_parts(&time, tail);
    assert(key@.subrange(6, 12) =~= tail@);
    Some(key)
}

/// Draws one key from the clock and the random generator: `key_at` of the
/// milliseconds that the clock reads since the epoch and of six random bytes.
/// The draw fails where the clock reads before the epoch or too late for a
/// key; of the key drawn nothing holds but that it is a key.
pub fn draw_key() -> (key: Result<StorageKey, KeygenError>)
    ensures
        key matches Err(e) ==> e is ClockOutOfRange,
{
    let now = clock_now();
    match since_epoch(&now) {
        None => Err(KeygenError::ClockOutOfRange),
        Some(elapsed) => {
            let tail = random_tail();
            match key_at(whole_millis(&elapsed), &tail) {
                Some(key) => Ok(key),
                None => Err(KeygenError::ClockOutOfRange),
            }
        },
    }
}

/// Takes `candidate` into use if it is not in use yet, and says whether it did.
pub fn claim_key(used: &mut Vec<StorageKey>, candidate: StorageKey) -> (claimed: bool)
    ensures
        claimed == !old(used)@.contains(candidate),
        claimed ==> final(used)@ == old(used)@.push(candidate),
        !claimed ==> final(used)@ == old(used)@,
{
    if holds_key(used, &candidate) {
        false
    } else {
        used.push(candidate);
        true
    }
}

/// Mints a key that is not in use and takes it into use. Keys are drawn until
/// one is new, `MAX_KEY_ATTEMPTS` times at most; a draw that fails ends the
/// minting with its error. Minting gives up for want of a new key only where
/// keys are in use: every key that it drew was one of them.
pub fn rand_storage_key(used: &mut Vec<StorageKey>) -> (minted: Result<StorageKey, KeygenError>)
    ensures
        match minted {
            Ok(key) => !old(used)@.contains(key) && final(used)@ == old(used)@.push(key),
            Err(_) => final(used)@ == old(used)@,
        },
        minted matches Err(KeygenError::KeySpaceExhausted) ==> old(used)@.len() > 0,
{
    let mut attempt: usize = 0;
    while attempt < MAX_KEY_ATTEMPTS
        invariant
            used@ == old(used)@,
            attempt > 0 ==> old(used)@.len() > 0,
        decreases MAX_KEY_ATTEMPTS - attempt,
    {
        match draw_key() {
            Err(e) => {
                return Err(e);
            },
            Ok(candidate) => {
                if claim_key(used, candidate) {
                    return Ok(candidate);
                }
            },
        }
        attempt += 1;
    }
    Err(KeygenError::KeySpaceExhausted)
}

} // verus!
