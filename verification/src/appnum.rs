use vstd::prelude::*;
use vstd::string::{StrSliceExecFns, StringExecFns};

use crate::bytes::ascii_string;

verus! {

/// Relies on rand's `random`: some value of the type; nothing is assumed of
/// which value comes back.
pub assume_specification<T>[ rand::random::<T> ]() -> (r: T)
    where
        rand::distributions::Standard: rand::distributions::Distribution<T>,
;

/// Relies on chrono's `format` on `Utc::now`: the clock rendered as
/// year-month-day-hour-minute-second digits; nothing is assumed of the
/// value.
#[verifier::external_body]
fn timestamp_code() -> (r: String) {
    chrono::Utc::now().format("%Y%m%d%H%M%S").to_string()
}

/// A fresh case number: the fixed prefix, the clock code, and four random
/// digits.
pub fn generate_application_number() -> (r: String)
    ensures
        exists|code: Seq<char>, digits: Seq<char>|
            r@ == "BAIL-"@ + code + "-"@ + digits && digits.len() == 4 && (forall|i: int|
                0 <= i < digits.len() ==> '0' <= #[trigger] digits[i] <= '9'),
{
    let mut s = String::from_str("BAIL-");
    let code = timestamp_code();
    s.append(code.as_str());
    s.append("-");
    let mut dv: Vec<u8> = Vec::new();
    let mut k: usize = 0;
    while k < 4
        invariant
            dv@.len() == k,
            k <= 4,
            forall|i: int| 0 <= i < dv@.len() ==> 48 <= #[trigger] dv@[i] <= 57,
        decreases 4 - k,
    {
        let b: u8 = rand::random::<u8>();
        dv.push(48 + (b % 10));
        k += 1;
    }
    let ghost dvv = dv@;
    let ds = ascii_string(dv);
    s.append(ds.as_str());
    proof {
        assert(s@ == "BAIL-"@ + code@ + "-"@ + ds@);
        assert forall|i: int| 0 <= i < ds@.len() implies '0' <= #[trigger] ds@[i] <= '9' by {
            assert(ds@[i] == dvv[i] as char);
            assert(48 <= dvv[i] <= 57);
        }
    }
    s
}

} // verus!
