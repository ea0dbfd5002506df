//! One-time codes computed from descriptors.

use vstd::prelude::*;
use crate::clock::unix_now;
use crate::descriptor::{Algorithm, Descriptor, DescriptorView};

verus! {

/// The RFC 6238 code of `digits` decimal digits for the key `secret` under
/// `algorithm`, in the window of `period` seconds that contains `time`.
pub uninterp spec fn totp_code(algorithm: Algorithm, digits: u32, period: u64, secret: Seq<u8>, time: u64) -> Seq<char>;

/// Relies on `totp_rs::TOTP::new_unchecked` and `TOTP::generate`: the code
/// for counter `time / period`, zero-padded to `digits` characters. The
/// division needs a nonzero period, and `10^digits` must fit in `u32`.
#[verifier::external_body]
fn totp_generate(algorithm: Algorithm, digits: u32, period: u64, secret: &Vec<u8>, time: u64) -> (r: String)
    requires
        period > 0,
        digits <= 9,
    ensures
        r@ == totp_code(algorithm, digits, period, secret@, time),
        digits >= 1 ==> r@.len() == digits,
{
    let algorithm = match algorithm {
        Algorithm::SHA1 => totp_rs::Algorithm::SHA1,
        Algorithm::SHA256 => totp_rs::Algorithm::SHA256,
        Algorithm::SHA512 => totp_rs::Algorithm::SHA512,
    };
    totp_rs::TOTP::new_unchecked(algorithm, digits as usize, 1, period, secret.clone()).generate(time)
}

/// A descriptor for which a code can be computed: a nonzero period, and at
/// most nine digits.
pub open spec fn computable(d: DescriptorView) -> bool {
    d.period > 0 && d.digits <= 9
}

/// The code of `d` at `time`.
pub open spec fn code_spec(d: DescriptorView, time: u64) -> Seq<char> {
    totp_code(d.algorithm, d.digits, d.period, d.secret, time)
}

/// The code of `d` at `time` (seconds since the Unix epoch), where one can
/// be computed.
pub fn code_at(d: &Descriptor, time: u64) -> (r: Option<String>)
    ensures
        r is Some <==> computable(d@),
        r is Some ==> r->0@ == code_spec(d@, time),
        r is Some && d.digits >= 1 ==> r->0@.len() == d.digits,
{
    if d.period == 0 || d.digits > 9 {
        None
    } else {
        Some(totp_generate(d.algorithm, d.digits, d.period, &d.secret, time))
    }
}

/// The code of `d` now, by the system clock, where one can be computed.
pub fn generate_code(d: &Descriptor) -> (r: Option<String>)
    ensures
        r is Some <==> computable(d@),
        r is Some ==> exists|t: u64| r->0@ == code_spec(d@, t),
{
    let t = unix_now();
    code_at(d, t)
}

} // verus!
