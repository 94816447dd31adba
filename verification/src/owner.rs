use vstd::prelude::*;
use vstd::string::*;

use crate::error::OabError;
use crate::numerals::radix_rep;
use crate::numerals::u32_to_radix;

verus! {

/// The gid that `change-owner` hands to the platform: the one the token
/// carried when it had a group side, else the path's current gid, so that an
/// ownership change without a group side preserves the existing group.
pub fn effective_gid(token_gid: Option<u32>, current_gid: u32) -> (g: u32)
    ensures
        token_gid is Some ==> g == token_gid->0,
        token_gid is None ==> g == current_gid,
{
    match token_gid {
        Some(gid) => gid,
        None => current_gid,
    }
}

/// Reads the platform's answer to the ownership-change call: a return code
/// of zero is success, anything else becomes a diagnostic
/// naming the path and the requested ids. The call is never short-circuited:
/// whatever the current owner is, `change-owner` issues it.
pub fn chown_outcome(path: &str, uid: u32, gid: u32, rc: i32) -> (r: Result<(), OabError>)
    ensures
        r is Ok <==> rc == 0,
        r is Err ==> r->Err_0.message@ == "unable to change owner of "@ + path@ + " to "@
            + radix_rep(uid as nat, 10) + ":"@ + radix_rep(gid as nat, 10),
{
    if rc == 0 {
        Ok(())
    } else {
        let mut msg = String::from_str("unable to change owner of ");
        msg.append(path);
        msg.append(" to ");
        let uid_s = u32_to_radix(uid, 10);
        msg.append(uid_s.as_str());
        msg.append(":");
        let gid_s = u32_to_radix(gid, 10);
        msg.append(gid_s.as_str());
        proof {
            assert(msg@ =~= "unable to change owner of "@ + path@ + " to "@ + radix_rep(
                uid as nat,
                10,
            ) + ":"@ + radix_rep(gid as nat, 10));
        }
        Err(OabError { message: msg })
    }
}

} // verus!
