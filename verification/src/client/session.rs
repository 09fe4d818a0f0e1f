//! Workspace key exchange: wire types and the decisions around the
//! `user_key` cache.

use vstd::prelude::*;
use crate::auth::cache::CachedUserKey;
use crate::auth::cached_expired;
use crate::error::Error;
use crate::model::{Node, NodeId, TenantId, Workspace};
use crate::project::frontmatter::opt_view;
use crate::text::{lower_chars, lower_seq, owned, str_eq, chars_eq, chars_of, copy_opt_string};

verus! {

/// The default requested lifetime for a minted `user_key` (~15 minutes).
pub const DEFAULT_KEY_LIFETIME_SECONDS: i64 = 900;

/// The node client configuration returned by `generate-client-config`.
#[derive(Debug)]
pub struct ClientConfig {
    /// The id of the (possibly newly-created) node.
    pub node_id: String,
    /// The suggested filename for the config, if any.
    pub filename: Option<String>,
    /// The rendered configuration file contents.
    pub contents: String,
}

/// `workspace/create-invitation` response body.
#[derive(Debug)]
pub struct Invitation {
    /// The id of the created invitation.
    pub invitation_id: String,
    /// The token to redeem the invitation.
    pub token: String,
}

/// An invitation entry in the list-invitations response.
#[derive(Debug)]
pub struct InvitationInfo {
    /// The id of the invitation.
    pub invitation_id: String,
    /// The status of the invitation, if reported.
    pub status: Option<String>,
    /// The label attached to the invitation, if any.
    pub label: Option<String>,
    /// The role granted by the invitation, if reported (org invitations).
    pub role: Option<String>,
}

/// An organization entry (`org/list`, `org/get`, `org/create`).
#[derive(Debug)]
pub struct Organization {
    /// The id of the organization.
    pub organization_id: String,
    /// The name of the organization, if reported.
    pub name: Option<String>,
}

/// Aggregated organization information for `org info`.
#[derive(Debug)]
pub struct OrgInfo {
    /// The organization.
    pub organization: Organization,
    /// The number of members.
    pub members: usize,
    /// The number of pending invitations.
    pub pending_invitations: usize,
}

/// `org/redeem-invitation` response body.
#[derive(Debug)]
pub struct RedeemedOrg {
    /// The name of the joined organization.
    pub name: Option<String>,
    /// The id of the joined organization.
    pub organization_id: String,
    /// The role granted in the organization.
    pub role: Option<String>,
}

/// `workspace/redeem-invitation` response body.
#[derive(Debug)]
pub struct RedeemedWorkspace {
    /// The name of the joined workspace.
    pub name: Option<String>,
    /// The id of the joined workspace.
    pub tenant_id: String,
    /// The role granted in the workspace.
    pub role: Option<String>,
}

/// An alert entry of `alert/list`, its idle duration in whole seconds.
#[derive(Debug)]
pub struct Alert {
    /// The alert id.
    pub id: String,
    /// The monitored node, if reported.
    pub node_id: Option<String>,
    /// The idle duration before the alert triggers, in whole seconds.
    pub duration_seconds: Option<u64>,
    /// The webhook the alert calls, if reported.
    pub webhook_url: Option<String>,
}

/// A workspace entry in the login-info response.
#[derive(Debug)]
pub struct TenantInfo {
    /// The workspace id.
    pub tenant_id: String,
    /// The workspace name, if reported.
    pub name: Option<String>,
}

impl TenantInfo {
    /// The domain [`Workspace`]; the name falls back to the id.
    pub fn into_workspace(self) -> (w: Workspace)
        ensures
            w.tenant_id.0@ == self.tenant_id@,
            w.name@ == (match self.name {
                Some(n) => n@,
                None => self.tenant_id@,
            }),
    {
        let name = match self.name {
            Some(n) => n,
            None => owned(self.tenant_id.as_str()),
        };
        Workspace { tenant_id: TenantId(self.tenant_id), name }
    }
}

/// A node entry in the list-nodes response (defensively typed).
#[derive(Debug)]
pub struct RawNode {
    /// The node id.
    pub node_id: String,
    /// The node name, if reported.
    pub name: Option<String>,
    /// The raw lifecycle state, if reported.
    pub lifecycle_state: Option<String>,
    /// The explicit connection flag, if reported.
    pub connected: Option<bool>,
}

/// Whether a lifecycle state means the node is connected: `connected`,
/// `running` or `online`, in any ASCII case.
pub open spec fn connected_state(s: Seq<char>) -> bool {
    lower_seq(s) == "connected"@ || lower_seq(s) == "running"@ || lower_seq(s) == "online"@
}

/// The connection status of a node: the explicit flag if reported, else
/// inferred from the lifecycle state, else disconnected.
pub open spec fn node_connected(n: RawNode) -> bool {
    match n.connected {
        Some(c) => c,
        None => match n.lifecycle_state {
            Some(s) => connected_state(s@),
            None => false,
        },
    }
}

impl RawNode {
    /// Convert into the domain [`Node`], deriving the connection status; the
    /// name falls back to the id.
    pub fn into_node(self) -> (n: Node)
        ensures
            n.node_id.0@ == self.node_id@,
            n.name@ == (match self.name {
                Some(m) => m@,
                None => self.node_id@,
            }),
            n.connected == node_connected(self),
            opt_view(n.lifecycle_state) == opt_view(self.lifecycle_state),
    {
        let connected = match self.connected {
            Some(c) => c,
            None => match &self.lifecycle_state {
                Some(s) => {
                    let l = lower_chars(s.as_str());
                    chars_eq(&l, &chars_of("connected")) || chars_eq(&l, &chars_of("running"))
                        || chars_eq(&l, &chars_of("online"))
                },
                None => false,
            },
        };
        let name = match self.name {
            Some(m) => m,
            None => owned(self.node_id.as_str()),
        };
        Node { node_id: NodeId(self.node_id), name, connected, lifecycle_state: self.lifecycle_state }
    }
}

/// Whether a cached user key can be used at `now` (it is not within a minute
/// of its expiry).
pub fn user_key_usable(cached: &CachedUserKey, now: i64) -> (r: bool)
    ensures
        r == !cached_expired(cached.expires_at, now),
{
    match cached.expires_at {
        Some(exp) => !crate::auth::token::is_expired_at(now, exp, crate::auth::EXPIRY_SKEW_SECONDS),
        None => true,
    }
}

/// The cache entry for a freshly minted key with a lifetime of
/// `lifetime_seconds`, minted at `now`.
pub fn minted_key(user_key: String, now: i64, lifetime_seconds: i64) -> (r: CachedUserKey)
    requires
        i64::MIN <= now + lifetime_seconds <= i64::MAX,
    ensures
        r.user_key == user_key,
        r.expires_at == Some((now + lifetime_seconds) as i64),
{
    CachedUserKey { user_key, expires_at: Some(now + lifetime_seconds) }
}

/// Whether a request made with a cached key is retried once with a freshly
/// minted key: exactly when it failed with an authentication error.
pub fn retry_with_fresh_key<T>(result: &Result<T, Error>) -> (r: bool)
    ensures
        r == (result matches Err(Error::Auth(_))),
{
    match result {
        Err(Error::Auth(_)) => true,
        _ => false,
    }
}

/// The id of the user's current organization: the first one listed.
pub fn current_org_id(organizations: &Vec<Organization>) -> (r: Result<String, Error>)
    ensures
        organizations@.len() > 0 ==> (r matches Ok(id) && id@ == organizations@[0].organization_id@),
        organizations@.len() == 0 ==> (r matches Err(Error::Platform(m))
            && m@ == "you are not a member of any organization"@),
{
    if organizations.len() > 0 {
        Ok(owned(organizations[0].organization_id.as_str()))
    } else {
        Err(Error::Platform(owned("you are not a member of any organization")))
    }
}

/// Whether an invitation is pending.
pub open spec fn is_pending(i: InvitationInfo) -> bool {
    i.status matches Some(s) && s@ == "pending"@
}

/// How many of `invitations` are pending.
pub open spec fn pending_count(invitations: Seq<InvitationInfo>) -> nat
    decreases invitations.len(),
{
    if invitations.len() == 0 {
        0
    } else {
        pending_count(invitations.drop_last()) + if is_pending(invitations.last()) { 1nat } else { 0nat }
    }
}

/// The number of pending invitations.
pub fn count_pending(invitations: &Vec<InvitationInfo>) -> (n: usize)
    ensures
        n == pending_count(invitations@),
{
    let mut n: usize = 0;
    let mut i: usize = 0;
    while i < invitations.len()
        invariant
            i <= invitations.len(),
            n == pending_count(invitations@.take(i as int)),
            n <= i,
        decreases invitations.len() - i,
    {
        proof {
            assert(invitations@.take(i + 1).drop_last() =~= invitations@.take(i as int));
        }
        let pending = match &invitations[i].status {
            Some(s) => str_eq(s.as_str(), "pending"),
            None => false,
        };
        if pending {
            n = n + 1;
        }
        i = i + 1;
    }
    proof {
        assert(invitations@.take(invitations@.len() as int) =~= invitations@);
    }
    n
}

/// The invitations of an organization for `org info`: listing them may be
/// forbidden for non-admins, so an authentication error counts as none.
pub fn invitations_or_none(result: Result<Vec<InvitationInfo>, Error>) -> (r: Result<Vec<InvitationInfo>, Error>)
    ensures
        result matches Err(Error::Auth(_)) ==> r matches Ok(v) && v@.len() == 0,
        !(result matches Err(Error::Auth(_))) ==> r == result,
{
    match result {
        Err(Error::Auth(_)) => Ok(Vec::new()),
        other => other,
    }
}

} // verus!
