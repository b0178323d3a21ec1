//! Credentials, permissions, token pairs, and the context an
//! authentication yields.
use vstd::prelude::*;
use crate::graph::strings_view;
use crate::json::JsonValue;
use crate::keyed_map::StrMap;
use crate::security::AuthError;

verus! {

/// The outcome of an authentication operation.
pub type AuthResult<T> = Result<T, AuthError>;

/// How long a context lasts when nothing else says: a day, in milliseconds.
pub const CONTEXT_LIFETIME_MS: i64 = 86_400_000;

/// The latest issue time whose default expiry still fits an `i64`.
pub const LATEST_ISSUE_MS: i64 = 9_223_372_036_768_375_807;

/// Credentials for authentication.
#[derive(Debug, Clone)]
pub enum Credentials {
    /// API key authentication
    ApiKey(String),
    /// JWT token authentication
    JwtToken(String),
    /// Username and password authentication
    UsernamePassword { username: String, password: String },
}

/// Granular permissions.
#[derive(Debug, Clone, PartialEq, Eq, Hash)]
pub enum Permission {
    /// Execute graphs
    ExecuteGraph,
    /// Create graphs
    CreateGraph,
    /// Modify graphs
    ModifyGraph,
    /// Delete graphs
    DeleteGraph,
    /// Read state
    ReadState,
    /// Write state
    WriteState,
    /// Manage checkpoints
    ManageCheckpoints,
    /// View audit logs
    ViewAuditLogs,
    /// Custom permission
    Custom(String),
}

/// Two permissions are the same: the same variant, and for custom ones
/// the same name.
pub open spec fn same_permission(a: Permission, b: Permission) -> bool {
    match (a, b) {
        (Permission::ExecuteGraph, Permission::ExecuteGraph) => true,
        (Permission::CreateGraph, Permission::CreateGraph) => true,
        (Permission::ModifyGraph, Permission::ModifyGraph) => true,
        (Permission::DeleteGraph, Permission::DeleteGraph) => true,
        (Permission::ReadState, Permission::ReadState) => true,
        (Permission::WriteState, Permission::WriteState) => true,
        (Permission::ManageCheckpoints, Permission::ManageCheckpoints) => true,
        (Permission::ViewAuditLogs, Permission::ViewAuditLogs) => true,
        (Permission::Custom(x), Permission::Custom(y)) => x@ == y@,
        _ => false,
    }
}

/// Compares two permissions.
pub fn permission_eq(a: &Permission, b: &Permission) -> (r: bool)
    ensures
        r == same_permission(*a, *b),
{
    match (a, b) {
        (Permission::ExecuteGraph, Permission::ExecuteGraph) => true,
        (Permission::CreateGraph, Permission::CreateGraph) => true,
        (Permission::ModifyGraph, Permission::ModifyGraph) => true,
        (Permission::DeleteGraph, Permission::DeleteGraph) => true,
        (Permission::ReadState, Permission::ReadState) => true,
        (Permission::WriteState, Permission::WriteState) => true,
        (Permission::ManageCheckpoints, Permission::ManageCheckpoints) => true,
        (Permission::ViewAuditLogs, Permission::ViewAuditLogs) => true,
        (Permission::Custom(x), Permission::Custom(y)) => crate::text::str_eq(x.as_str(), y.as_str()),
        _ => false,
    }
}

/// What an authentication establishes of a user. Times are milliseconds
/// since the Unix epoch.
#[derive(Debug)]
pub struct AuthContext {
    /// Unique user identifier
    pub user_id: String,
    /// User roles (e.g. "admin", "user", "developer")
    pub roles: Vec<String>,
    /// Granular permissions
    pub permissions: Vec<Permission>,
    /// Additional metadata
    pub metadata: StrMap<JsonValue>,
    /// When this context expires
    pub expires_at: i64,
    /// When this context was issued
    pub issued_at: i64,
}

impl AuthContext {
    /// A context issued now, for a day.
    pub fn new(user_id: String, roles: Vec<String>) -> (c: AuthContext)
        ensures
            c.user_id@ == user_id@,
            strings_view(c.roles@) == strings_view(roles@),
            c.permissions@.len() == 0,
            c.metadata.map() == Map::<Seq<char>, JsonValue>::empty(),
            0 <= c.issued_at,
            c.expires_at == c.issued_at + CONTEXT_LIFETIME_MS,
    {
        AuthContext::new_at(user_id, roles, crate::clock::now_millis())
    }

    /// A context issued at `now`, for a day.
    pub fn new_at(user_id: String, roles: Vec<String>, now: i64) -> (c: AuthContext)
        requires
            now <= LATEST_ISSUE_MS,
        ensures
            c.user_id@ == user_id@,
            strings_view(c.roles@) == strings_view(roles@),
            c.permissions@.len() == 0,
            c.metadata.map() == Map::<Seq<char>, JsonValue>::empty(),
            c.issued_at == now,
            c.expires_at == now + CONTEXT_LIFETIME_MS,
    {
        AuthContext {
            user_id,
            roles,
            permissions: Vec::new(),
            metadata: StrMap::new(),
            expires_at: now + CONTEXT_LIFETIME_MS,
            issued_at: now,
        }
    }

    /// Whether the context carries `role`.
    pub fn has_role(&self, role: &str) -> (b: bool)
        ensures
            b == exists|i: int| 0 <= i < self.roles@.len() && #[trigger] self.roles@[i]@ == role@,
    {
        let mut i: usize = 0;
        while i < self.roles.len()
            invariant
                i <= self.roles@.len(),
                forall|j: int| 0 <= j < i ==> #[trigger] self.roles@[j]@ != role@,
            decreases self.roles@.len() - i,
        {
            if crate::text::str_eq(self.roles[i].as_str(), role) {
                return true;
            }
            i = i + 1;
        }
        false
    }

    /// Whether the context carries `permission`.
    pub fn has_permission(&self, permission: &Permission) -> (b: bool)
        ensures
            b == exists|i: int|
                0 <= i < self.permissions@.len() && #[trigger] same_permission(
                    self.permissions@[i],
                    *permission,
                ),
    {
        let mut i: usize = 0;
        while i < self.permissions.len()
            invariant
                i <= self.permissions@.len(),
                forall|j: int|
                    0 <= j < i ==> !#[trigger] same_permission(self.permissions@[j], *permission),
            decreases self.permissions@.len() - i,
        {
            if permission_eq(&self.permissions[i], permission) {
                return true;
            }
            i = i + 1;
        }
        false
    }

    /// Whether the context has expired at `now`.
    pub fn is_expired_at(&self, now: i64) -> (b: bool)
        ensures
            b == (now > self.expires_at),
    {
        now > self.expires_at
    }

    /// Whether the context has expired by the system clock.
    pub fn is_expired(&self) -> (b: bool)
        ensures
            exists|now: i64| 0 <= now && #[trigger] self.expired_at(now) == b,
    {
        let now = crate::clock::now_millis();
        let b = self.is_expired_at(now);
        assert(self.expired_at(now) == b);
        b
    }

    /// Whether the context has expired at `now`.
    pub open spec fn expired_at(&self, now: i64) -> bool {
        now > self.expires_at
    }
}

/// The calls every authenticator answers.
pub trait Authenticator {
    /// Authenticate with the given credentials.
    fn authenticate(&mut self, credentials: &Credentials) -> AuthResult<AuthContext>;

    /// Validate an existing token and return its context.
    fn validate_token(&mut self, token: &str) -> AuthResult<AuthContext>;

    /// Exchange a refresh token for a new token pair.
    fn refresh_token(&mut self, refresh_token: &str) -> AuthResult<TokenPair>;
}

/// Token pair for authentication.
#[derive(Debug, Clone)]
pub struct TokenPair {
    /// Short-lived access token
    pub access_token: String,
    /// Long-lived refresh token
    pub refresh_token: String,
    /// Token type (usually "Bearer")
    pub token_type: String,
    /// Access token expiration in seconds
    pub expires_in: i64,
}

impl TokenPair {
    /// A bearer token pair.
    pub fn new(access_token: String, refresh_token: String, expires_in: i64) -> (t: TokenPair)
        ensures
            t.access_token == access_token,
            t.refresh_token == refresh_token,
            t.token_type@ == "Bearer"@,
            t.expires_in == expires_in,
    {
        let mut token_type = String::new();
        crate::text::push_str(&mut token_type, "Bearer");
        TokenPair { access_token, refresh_token, token_type, expires_in }
    }
}

} // verus!
