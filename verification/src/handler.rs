//! Host-key checking: what to do with the key a server presents, given what
//! `known_hosts` says about it and the context's policy.

use vstd::prelude::*;

use crate::cli::HostKeyPolicyArg;
use crate::config::{policy_label, HostKeyPolicy};

verus! {

/// The client side of a connection to one host.
#[derive(Clone, Debug)]
pub struct ClientHandler {
    pub host: String,
    pub port: u16,
    pub policy: HostKeyPolicy,
}

/// What the `known_hosts` lookup reported for the presented key.
#[derive(Copy, Clone, Debug, PartialEq, Eq, Structural)]
pub enum KnownHostsCheck {
    /// The host is listed with this key.
    Matches,
    /// The host is not listed.
    Unknown,
    /// The lookup failed; this includes a host listed with a different key.
    Failed,
}

/// What to do with the presented key.
#[derive(Copy, Clone, Debug, PartialEq, Eq, Structural)]
pub enum HostKeyVerdict {
    /// Accept it.
    Accept,
    /// Add it to `known_hosts` and accept it if that works.
    Learn,
    /// Refuse it: the host is unknown and the policy is strict.
    RefuseUnknown,
    /// Refuse it: the lookup failed, or the key changed.
    RefuseFailed,
}

/// The verdict on a presented key.
pub open spec fn host_key_verdict_spec(policy: HostKeyPolicy, check: KnownHostsCheck) -> HostKeyVerdict {
    match check {
        KnownHostsCheck::Matches => HostKeyVerdict::Accept,
        KnownHostsCheck::Unknown => match policy {
            HostKeyPolicy::AcceptNew => HostKeyVerdict::Learn,
            HostKeyPolicy::Strict => HostKeyVerdict::RefuseUnknown,
        },
        KnownHostsCheck::Failed => HostKeyVerdict::RefuseFailed,
    }
}

impl ClientHandler {
    /// Decides on the key the server presented.
    pub fn host_key_verdict(&self, check: KnownHostsCheck) -> (r: HostKeyVerdict)
        ensures
            r == host_key_verdict_spec(self.policy, check),
    {
        match check {
            KnownHostsCheck::Matches => HostKeyVerdict::Accept,
            KnownHostsCheck::Unknown => match self.policy {
                HostKeyPolicy::AcceptNew => HostKeyVerdict::Learn,
                HostKeyPolicy::Strict => HostKeyVerdict::RefuseUnknown,
            },
            KnownHostsCheck::Failed => HostKeyVerdict::RefuseFailed,
        }
    }
}

/// Whether the connection goes ahead, once the verdict is known and, for a
/// key to be learnt, whether writing it to `known_hosts` worked.
pub fn key_accepted(verdict: HostKeyVerdict, learned: bool) -> (b: bool)
    ensures
        b == (verdict == HostKeyVerdict::Accept || (verdict == HostKeyVerdict::Learn && learned)),
{
    match verdict {
        HostKeyVerdict::Accept => true,
        HostKeyVerdict::Learn => learned,
        _ => false,
    }
}

/// A changed host key (a failed lookup) is never accepted, under any policy;
/// an unknown host is refused under the strict policy; a listed key is
/// always accepted.
pub proof fn law_changed_key_always_refused(policy: HostKeyPolicy, learned: bool)
    ensures
        !(host_key_verdict_spec(policy, KnownHostsCheck::Failed) == HostKeyVerdict::Accept || (
        host_key_verdict_spec(policy, KnownHostsCheck::Failed) == HostKeyVerdict::Learn
            && learned)),
        host_key_verdict_spec(HostKeyPolicy::Strict, KnownHostsCheck::Unknown)
            != HostKeyVerdict::Accept,
        host_key_verdict_spec(HostKeyPolicy::Strict, KnownHostsCheck::Unknown)
            != HostKeyVerdict::Learn,
        host_key_verdict_spec(policy, KnownHostsCheck::Matches) == HostKeyVerdict::Accept,
{
}

/// The policy `context add` stores is the one `--host-key-policy` names,
/// and no choice is weakened: `strict` is stored as strict, shown as
/// `strict`, and refuses a host that is not in `known_hosts`; `accept-new` is
/// stored as accept-new, shown as `accept-new`, and learns such a host.
pub proof fn law_policy_is_the_one_named(arg: HostKeyPolicyArg, other: HostKeyPolicyArg)
    ensures
        (HostKeyPolicy::from_arg_spec(arg) == HostKeyPolicy::Strict) <==> (arg
            == HostKeyPolicyArg::Strict),
        (HostKeyPolicy::from_arg_spec(arg) == HostKeyPolicy::AcceptNew) <==> (arg
            == HostKeyPolicyArg::AcceptNew),
        HostKeyPolicy::from_arg_spec(arg) == HostKeyPolicy::from_arg_spec(other) ==> arg == other,
        arg == HostKeyPolicyArg::Strict ==> host_key_verdict_spec(
            HostKeyPolicy::from_arg_spec(arg),
            KnownHostsCheck::Unknown,
        ) == HostKeyVerdict::RefuseUnknown && policy_label(HostKeyPolicy::from_arg_spec(arg))
            == "strict"@,
        arg == HostKeyPolicyArg::AcceptNew ==> host_key_verdict_spec(
            HostKeyPolicy::from_arg_spec(arg),
            KnownHostsCheck::Unknown,
        ) == HostKeyVerdict::Learn && policy_label(HostKeyPolicy::from_arg_spec(arg))
            == "accept-new"@,
{
}

} // verus!
