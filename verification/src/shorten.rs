//! Creation of short links: a key derived from the wall clock, written in
//! base 36, paired with the URL in the store, and the display URL built
//! for the caller.

use vstd::prelude::*;
use vstd::string::StringExecFns;
use crate::radix::clamp_radix;
use crate::radix::encode;
use crate::radix::format_radix;
use crate::store::LinkStore;
use crate::store::StoreError;

verus! {

/// The radix production keys are written in.
pub const KEY_RADIX: u32 = 36;

/// Relies on `std::time::SystemTime::now` and
/// `SystemTime::duration_since(UNIX_EPOCH)`, through
/// `Duration::as_millis`: the milliseconds from the Unix epoch to now, or
/// nothing where the clock reads before the epoch. Of a clock reading
/// nothing further can be promised.
#[verifier::external_body]
fn now_unix_millis() -> (r: Option<u128>) {
    match std::time::SystemTime::now().duration_since(std::time::UNIX_EPOCH) {
        Ok(d) => Some(d.as_millis()),
        Err(_) => None,
    }
}

/// Derives a short key: the current wall-clock time in milliseconds,
/// written in base 36. The generator does not check uniqueness -- two
/// calls within one millisecond yield the same key, and the store's
/// insert is what rejects the collision.
pub fn generate_key() -> (r: Result<String, StoreError>)
    ensures
        r matches Ok(key) ==> exists|t: nat| key@ == encode(t, 36),
        r matches Err(e) ==> e == StoreError::ClockUnavailable,
{
    match now_unix_millis() {
        Some(t) => {
            let key = format_radix(t, KEY_RADIX);
            proof {
                assert(clamp_radix(KEY_RADIX) == 36);
                assert(key@ == encode(t as nat, 36));
            }
            Ok(key)
        },
        None => Err(StoreError::ClockUnavailable),
    }
}

/// Creates a new short link for `uri`: derives a key from the clock and
/// inserts the pair. On success the mapping grows by exactly that one
/// pair, under a key that was absent before and is a base-36 numeral. On
/// any failure -- the clock unavailable, the key already taken within the
/// same millisecond, or the store unreachable -- the mapping is exactly
/// what it was; the caller decides whether to retry.
pub fn create_link(store: &mut LinkStore, uri: &str) -> (r: Result<String, StoreError>)
    requires
        old(store).wf(),
    ensures
        final(store).wf(),
        r matches Ok(key) ==> !old(store)@.contains_key(key@) && final(store)@ == old(
            store,
        )@.insert(key@, uri@) && (exists|t: nat| key@ == encode(t, 36)),
        r is Err ==> final(store)@ == old(store)@,
        r matches Err(e) ==> e == StoreError::ClockUnavailable || e == StoreError::KeyConflict
            || e == StoreError::StoreUnavailable,
{
    match generate_key() {
        Ok(key) => match store.create(key.as_str(), uri) {
            Ok(()) => Ok(key),
            Err(e) => Err(e),
        },
        Err(e) => Err(e),
    }
}

/// The full display URL for a freshly created key: the caller's host,
/// then the service's base path, then the key, concatenated verbatim.
pub fn short_url(host: &str, base_path: &str, key: &str) -> (r: String)
    ensures
        r@ == host@ + base_path@ + key@,
{
    let mut s = host.to_owned();
    s.append(base_path);
    s.append(key);
    s
}

} // verus!
