//! Capability policy for embedded dynamic content.
//!
//! A `Dynamic` content item carries a `ContentPolicy`: the set of
//! authorities it was explicitly granted. An action is honored only when
//! its authority is listed; absence is always denial (deny-by-default).

use vstd::prelude::*;

verus! {

/// A named permission a sandboxed content item may be granted.
#[derive(Clone, Copy, PartialEq, Eq, Structural, Debug)]
pub enum Authority {
    MediaDevices,
    Network,
    Storage,
    /// Access to the store's own API is itself an authority.
    S_lfApi,
}

/// The authorities explicitly granted to one dynamic content item.
#[derive(Clone, PartialEq, Eq, Debug)]
pub struct ContentPolicy {
    pub authorities: Vec<Authority>,
}

/// A denied action: the requested authority is not granted.
#[derive(Clone, Copy, PartialEq, Eq, Structural, Debug)]
pub enum PolicyError {
    AuthorityDenied,
}

/// What it means for a policy to grant an authority: the authority is
/// explicitly listed, nothing else.
pub open spec fn granted(policy: ContentPolicy, a: Authority) -> bool {
    policy.authorities@.contains(a)
}

/// Deny-by-default authorization: true iff `requested` is explicitly
/// listed in `policy.authorities`. In particular it is false for every
/// authority outside the list, and for every authority under the empty
/// policy.
pub fn authorize(policy: &ContentPolicy, requested: Authority) -> (r: bool)
    ensures
        r == granted(*policy, requested),
{
    let n = policy.authorities.len();
    let mut i: usize = 0;
    while i < n
        invariant
            n == policy.authorities@.len(),
            i <= n,
            forall|j: int| 0 <= j < i ==> policy.authorities@[j] != requested,
        decreases n - i,
    {
        if policy.authorities[i] == requested {
            return true;
        }
        i += 1;
    }
    false
}

/// What an execution engine consults before honoring an action of a
/// dynamic content item: `Ok` iff the authority is granted, else the
/// action fails with `AuthorityDenied` and must not be performed.
pub fn enforce(policy: &ContentPolicy, requested: Authority) -> (r: Result<(), PolicyError>)
    ensures
        r is Ok <==> granted(*policy, requested),
        r is Err ==> r->Err_0 == PolicyError::AuthorityDenied,
{
    if authorize(policy, requested) {
        Ok(())
    } else {
        Err(PolicyError::AuthorityDenied)
    }
}

} // verus!
