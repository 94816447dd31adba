use vstd::prelude::*;
use vstd::string::*;

use crate::error::OabError;
use crate::numerals::is_numeral;
use crate::numerals::numeral_value;
use crate::numerals::parse_u32_radix;

verus! {

/// The index of the first `':'` in `s`, or -1 when `s` has none.
pub open spec fn first_colon(s: Seq<char>) -> int
    decreases s.len(),
{
    if s.len() == 0 {
        -1
    } else if s[0] == ':' {
        0
    } else if first_colon(s.drop_first()) < 0 {
        -1
    } else {
        first_colon(s.drop_first()) + 1
    }
}

/// What `first_colon` finds is a `':'` and nothing before it is one; when it
/// finds nothing, `s` holds no `':'` at all.
pub proof fn lemma_first_colon(s: Seq<char>)
    ensures
        first_colon(s) >= 0 ==> first_colon(s) < s.len() && s[first_colon(s)] == ':' && (forall|
            j: int,
        | 0 <= j < first_colon(s) ==> s[j] != ':'),
        first_colon(s) < 0 ==> forall|j: int| 0 <= j < s.len() ==> s[j] != ':',
    decreases s.len(),
{
    if s.len() == 0 {
    } else if s[0] == ':' {
    } else {
        let d = s.drop_first();
        lemma_first_colon(d);
        if first_colon(d) >= 0 {
            let fd = first_colon(d);
            assert(first_colon(s) == fd + 1);
            assert(s[fd + 1] == d[fd]);
            assert forall|j: int| 0 <= j < fd + 1 implies s[j] != ':' by {
                if j > 0 {
                    assert(d[j - 1] == s[j]);
                }
            }
        } else {
            assert(first_colon(s) < 0);
            assert forall|j: int| 0 <= j < s.len() implies s[j] != ':' by {
                if j > 0 {
                    assert(d[j - 1] == s[j]);
                }
            }
        }
    }
}

/// A `':'` at `i` with none before it is the first one.
proof fn lemma_first_colon_at(s: Seq<char>, i: int)
    requires
        0 <= i < s.len(),
        s[i] == ':',
        forall|j: int| 0 <= j < i ==> s[j] != ':',
    ensures
        first_colon(s) == i,
    decreases i,
{
    if i > 0 {
        let d = s.drop_first();
        assert(d[i - 1] == s[i]);
        assert forall|j: int| 0 <= j < i - 1 implies d[j] != ':' by {
            assert(d[j] == s[j + 1]);
        }
        lemma_first_colon_at(d, i - 1);
    }
}

/// Finds the first `':'` of `s`, where an identity token is split.
fn find_colon(s: &str) -> (r: Option<usize>)
    ensures
        r is Some ==> first_colon(s@) == r->0 as int,
        r is None ==> first_colon(s@) < 0,
{
    let n = s.unicode_len();
    let mut i: usize = 0;
    while i < n
        invariant
            i <= n,
            n == s@.len(),
            forall|j: int| 0 <= j < i ==> s@[j] != ':',
        decreases n - i,
    {
        let c = s.get_char(i);
        if c == ':' {
            proof {
                lemma_first_colon_at(s@, i as int);
            }
            return Some(i);
        }
        i = i + 1;
    }
    proof {
        lemma_first_colon(s@);
    }
    None
}

/// One side of an identity token: either a number the side spelled out
/// directly, or a name that must be resolved against a system database.
#[derive(Debug, Clone)]
pub enum IdRef {
    Num(u32),
    Name(String),
}

/// An identity token taken apart: the user side, and the group side when the
/// token carried a `':'`.
#[derive(Debug, Clone)]
pub struct ParsedId {
    pub user: IdRef,
    pub group: Option<IdRef>,
}

/// `r` stands for the token side `s`: its value when `s` is a decimal
/// numeral that fits an id, otherwise `s` itself as a name to resolve.
pub open spec fn id_ref_for(r: IdRef, s: Seq<char>) -> bool {
    match r {
        IdRef::Num(n) => is_numeral(s, 10) && numeral_value(s, 10) <= u32::MAX && n as int
            == numeral_value(s, 10),
        IdRef::Name(name) => !(is_numeral(s, 10) && numeral_value(s, 10) <= u32::MAX) && name@
            == s,
    }
}

/// What `parse_id_input` promises of its result for the token `s`: split at
/// the first `':'` when there is one, each side interpreted on its own; a
/// token without `':'` is a user side alone, its group left absent.
pub open spec fn parsed_id_for(p: ParsedId, s: Seq<char>) -> bool {
    if first_colon(s) >= 0 {
        &&& id_ref_for(p.user, s.subrange(0, first_colon(s)))
        &&& p.group is Some
        &&& id_ref_for(p.group->0, s.subrange(first_colon(s) + 1, s.len() as int))
    } else {
        &&& id_ref_for(p.user, s)
        &&& p.group is None
    }
}

/// Interprets one side of a token: a decimal numeral in range gives its
/// value, anything else is kept as a name.
fn parse_id_part(tok: &str) -> (r: IdRef)
    ensures
        id_ref_for(r, tok@),
{
    match parse_u32_radix(tok, 10) {
        Some(n) => IdRef::Num(n),
        None => IdRef::Name(tok.to_owned()),
    }
}

/// Takes an identity token apart. A token `A:B` is split at its first `':'`;
/// each side independently is read as a decimal id when it can be, and kept
/// as a name to resolve otherwise. A token without `':'` is the user side
/// alone; its absent group means "preserve the path's group".
pub fn parse_id_input(id: &str) -> (p: ParsedId)
    ensures
        parsed_id_for(p, id@),
{
    let n = id.unicode_len();
    match find_colon(id) {
        Some(i) => {
            proof {
                lemma_first_colon(id@);
            }
            let left = id.substring_char(0, i);
            let right = id.substring_char(i + 1, n);
            ParsedId { user: parse_id_part(left), group: Some(parse_id_part(right)) }
        },
        None => ParsedId { user: parse_id_part(id), group: None },
    }
}

/// A purely numeric token in range names a uid directly: taking it apart
/// yields that number and leaves the group absent.
pub proof fn lemma_numeric_token_is_uid(p: ParsedId, s: Seq<char>)
    requires
        parsed_id_for(p, s),
        is_numeral(s, 10),
        numeral_value(s, 10) <= u32::MAX,
    ensures
        p.user == IdRef::Num(numeral_value(s, 10) as u32),
        p.group is None,
{
    lemma_first_colon(s);
    if first_colon(s) >= 0 {
        let i = first_colon(s);
        if s.len() > 0 && s[0] == '+' {
            if i > 0 {
                assert(crate::numerals::digit_part(s)[i - 1] == s[i]);
            }
        } else {
            assert(crate::numerals::digit_part(s)[i] == s[i]);
        }
        assert(false);
    }
}

/// A token with a `':'` is split there and each side stands on its own: the
/// pair combines whatever the two sides give.
pub proof fn lemma_pair_token_splits(p: ParsedId, s: Seq<char>, i: int)
    requires
        parsed_id_for(p, s),
        0 <= i < s.len(),
        s[i] == ':',
        forall|j: int| 0 <= j < i ==> s[j] != ':',
    ensures
        p.group is Some,
        id_ref_for(p.user, s.subrange(0, i)),
        id_ref_for(p.group->0, s.subrange(i + 1, s.len() as int)),
{
    lemma_first_colon_at(s, i);
}

/// Names handed to the platform databases must not hold a nul character:
/// such a name cannot even be turned into the C string the lookup needs, so
/// it is rejected before any lookup happens.
pub fn check_no_nul(s: &str) -> (r: Result<(), OabError>)
    ensures
        r is Ok <==> (forall|i: int| 0 <= i < s@.len() ==> s@[i] != '\0'),
        r is Err ==> r->Err_0.message@ == "nul byte found in provided data"@,
{
    let n = s.unicode_len();
    let mut i: usize = 0;
    while i < n
        invariant
            i <= n,
            n == s@.len(),
            forall|j: int| 0 <= j < i ==> s@[j] != '\0',
        decreases n - i,
    {
        if s.get_char(i) == '\0' {
            return Err(OabError { message: String::from_str("nul byte found in provided data") });
        }
        i = i + 1;
    }
    Ok(())
}

/// Outcome of a user-database lookup for `name`: the uid of the entry when
/// the database held one, a "no uid found" failure naming `name` otherwise.
pub fn user_lookup_outcome(name: &str, found: Option<u32>) -> (r: Result<u32, OabError>)
    ensures
        found is Some <==> r is Ok,
        found is Some ==> r->Ok_0 == found->0,
        found is None ==> r->Err_0.message@ == "no uid found for user "@ + name@,
{
    match found {
        Some(uid) => Ok(uid),
        None => {
            let mut m = String::from_str("no uid found for user ");
            m.append(name);
            Err(OabError { message: m })
        },
    }
}

/// Outcome of a group-database lookup for `name`: the gid of the entry when
/// the database held one, a "no gid found" failure naming `name` otherwise.
pub fn group_lookup_outcome(name: &str, found: Option<u32>) -> (r: Result<u32, OabError>)
    ensures
        found is Some <==> r is Ok,
        found is Some ==> r->Ok_0 == found->0,
        found is None ==> r->Err_0.message@ == "no gid found for group "@ + name@,
{
    match found {
        Some(gid) => Ok(gid),
        None => {
            let mut m = String::from_str("no gid found for group ");
            m.append(name);
            Err(OabError { message: m })
        },
    }
}

/// Combines the two resolved sides of a token into the final pair: a side
/// that failed to resolve fails the whole token with its own error, the user
/// side first.
pub fn resolved_pair(user: Result<u32, OabError>, group: Option<Result<u32, OabError>>) -> (r:
    Result<(u32, Option<u32>), OabError>)
    ensures
        user is Err ==> r is Err && r->Err_0 == user->Err_0,
        user is Ok && group is None ==> r is Ok && r->Ok_0 == (user->Ok_0, None::<u32>),
        user is Ok && group is Some && (group->0) is Err ==> r is Err && r->Err_0 == (
        group->0)->Err_0,
        user is Ok && group is Some && (group->0) is Ok ==> r is Ok && r->Ok_0 == (
            user->Ok_0,
            Some((group->0)->Ok_0),
        ),
{
    match user {
        Err(e) => Err(e),
        Ok(uid) => match group {
            None => Ok((uid, None)),
            Some(Err(e)) => Err(e),
            Some(Ok(gid)) => Ok((uid, Some(gid))),
        },
    }
}

} // verus!
