use vstd::prelude::*;
use vstd::string::*;

use crate::error::OabError;
use crate::numerals::is_numeral;
use crate::numerals::numeral_value;
use crate::numerals::parse_u32_radix;
use crate::numerals::radix_rep;
use crate::numerals::u32_to_radix;

verus! {

/// Whether `set_mode` issues the mutating platform call: only when the low
/// nine permission bits of the current mode differ from those requested.
pub open spec fn set_mode_acts(current: u32, requested: u32) -> bool {
    current & 0o777 != requested & 0o777
}

/// The permission bits of a path after one `set_mode` step: untouched when
/// no call is issued, else the low twelve bits of the requested mode, which
/// is all the platform call keeps.
pub open spec fn mode_after(current: u32, requested: u32) -> u32 {
    if set_mode_acts(current, requested) {
        requested & 0o7777
    } else {
        current
    }
}

/// The decision `set_mode` takes before touching anything: `true` exactly
/// when a mutating call is needed.
pub fn mode_change_needed(current: u32, requested: u32) -> (b: bool)
    ensures
        b == set_mode_acts(current, requested),
{
    (current & 0o777) != (requested & 0o777)
}

/// `set_mode` is idempotent: after one step with `m`, a second step with the
/// same `m` finds nothing to change — it issues no call and leaves the bits
/// exactly as the first step left them.
pub proof fn lemma_set_mode_idempotent(current: u32, m: u32)
    ensures
        !set_mode_acts(mode_after(current, m), m),
        mode_after(mode_after(current, m), m) == mode_after(current, m),
{
    if set_mode_acts(current, m) {
        assert((m & 0o7777) & 0o777 == m & 0o777) by (bit_vector);
    }
}

/// Parses the octal mode argument of `set-permissions`, exactly as the
/// platform's base-8 unsigned conversion does, and rejects anything else.
pub fn parse_mode(s: &str) -> (r: Result<u32, OabError>)
    ensures
        r is Ok <==> is_numeral(s@, 8) && numeral_value(s@, 8) <= u32::MAX,
        r is Ok ==> r->Ok_0 as int == numeral_value(s@, 8),
        r is Err ==> r->Err_0.message@ == "error parsing input "@ + s@,
{
    match parse_u32_radix(s, 8) {
        Some(m) => Ok(m),
        None => {
            let mut msg = String::from_str("error parsing input ");
            msg.append(s);
            Err(OabError { message: msg })
        },
    }
}

/// The diagnostic when the metadata of `path` cannot be read before a mode
/// change; `err` is the platform's own account of the failure.
pub fn metadata_error(path: &str, err: &str) -> (r: OabError)
    ensures
        r.message@ == "error getting permissions for "@ + path@ + ": "@ + err@,
{
    let mut msg = String::from_str("error getting permissions for ");
    msg.append(path);
    msg.append(": ");
    msg.append(err);
    proof {
        assert(msg@ =~= "error getting permissions for "@ + path@ + ": "@ + err@);
    }
    OabError { message: msg }
}

/// The diagnostic when the platform refuses the new mode, naming the mode in
/// octal and the path; `err` is the platform's own account of the failure.
pub fn set_mode_error(path: &str, mode: u32, err: &str) -> (r: OabError)
    ensures
        r.message@ == "unable to set mode "@ + radix_rep(mode as nat, 8) + " on path "@ + path@
            + ": "@ + err@,
{
    let mut msg = String::from_str("unable to set mode ");
    let oct = u32_to_radix(mode, 8);
    msg.append(oct.as_str());
    msg.append(" on path ");
    msg.append(path);
    msg.append(": ");
    msg.append(err);
    proof {
        assert(msg@ =~= "unable to set mode "@ + radix_rep(mode as nat, 8) + " on path "@ + path@
            + ": "@ + err@);
    }
    OabError { message: msg }
}

} // verus!
