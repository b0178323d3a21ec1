//! API key authentication: keys are found by their SHA-256 digest and
//! checked against an Argon2 hash, then against their expiry and rate limit.
use vstd::prelude::*;
use argon2::password_hash::rand_core::OsRng;
use argon2::password_hash::SaltString;
use argon2::{Argon2, PasswordHash, PasswordHasher, PasswordVerifier};
use sha2::{Digest, Sha256};
use crate::engine::tracing::string_map;
use crate::graph::strings_view;
use crate::keyed_map::StrMap;
use crate::security::AuthError;
use crate::security::audit::AuditLogger;
use crate::security::auth::{AuthContext, AuthResult, Authenticator, Credentials, TokenPair, CONTEXT_LIFETIME_MS, LATEST_ISSUE_MS};
use crate::security::metrics::{metric_views, outcome, MetricEvent, SecurityMetrics};

verus! {

/// The lowercase hexadecimal SHA-256 digest of a text's UTF-8 bytes.
pub uninterp spec fn sha256_hex_of(text: Seq<char>) -> Seq<char>;

/// Whether Argon2 accepts `key` against the PHC hash string `phc`.
pub uninterp spec fn argon2_accepts(key: Seq<char>, phc: Seq<char>) -> bool;

/// `Sha256::digest` of the text's UTF-8 bytes, written through `LowerHex`:
/// two lowercase hexadecimal digits per byte of the 32-byte digest. The
/// contract names the digest and states its length.
#[verifier::external_body]
fn sha256_hex(text: &str) -> (h: String)
    ensures
        h@ == sha256_hex_of(text@),
        h@.len() == 64,
{
    format!("{:x}", Sha256::digest(text.as_bytes()))
}

/// `PasswordHasher::hash_password` of `Argon2::default()` on the key's
/// bytes, with a salt that `SaltString::generate` draws from `OsRng`; the
/// PHC string of the hash, or none where hashing fails. The salt is random,
/// so nothing is promised of the string but that `argon2_verify` accepts
/// the same key against it.
#[verifier::external_body]
fn argon2_hash(key: &str) -> (r: Option<String>)
    ensures
        r.is_some() ==> argon2_accepts(key@, r.unwrap()@),
{
    let salt = SaltString::generate(&mut OsRng);
    match Argon2::default().hash_password(key.as_bytes(), &salt) {
        Ok(hash) => Some(hash.to_string()),
        Err(_) => None,
    }
}

/// `PasswordHash::new` on the stored string, then
/// `PasswordVerifier::verify_password` of `Argon2::default()`: whether the
/// key matches; false where the string does not parse. The contract names
/// the answer.
#[verifier::external_body]
fn argon2_verify(key: &str, phc: &str) -> (ok: bool)
    ensures
        ok == argon2_accepts(key@, phc@),
{
    match PasswordHash::new(phc) {
        Ok(parsed) => Argon2::default().verify_password(key.as_bytes(), &parsed).is_ok(),
        Err(_) => false,
    }
}

/// Rate limiting for one key. Times are milliseconds since the Unix epoch.
#[derive(Debug, Clone, Copy)]
pub struct RateLimitConfig {
    /// Maximum requests allowed in a window
    pub max_requests: u32,
    /// Length of a window
    pub window: i64,
    /// Requests counted in the current window
    pub request_count: u32,
    /// When the current window started
    pub window_start: i64,
}

/// What is stored for a registered key. Times are milliseconds since the
/// Unix epoch.
#[derive(Debug)]
pub struct ApiKeyMetadata {
    /// SHA-256 digest of the key, by which it is found
    pub key_hash: String,
    /// Argon2 hash of the key, against which it is checked
    pub secure_hash: String,
    /// User ID associated with this key
    pub user_id: String,
    /// Roles assigned to this key
    pub roles: Vec<String>,
    /// When the key was registered
    pub created_at: i64,
    /// Optional expiration time
    pub expires_at: Option<i64>,
    /// Optional rate limit
    pub rate_limit: Option<RateLimitConfig>,
    /// Additional metadata
    pub metadata: StrMap<String>,
}

/// The configuration after the window check at `now`: a window that has
/// run out starts again at `now` with no requests counted.
pub open spec fn rate_reset(c: RateLimitConfig, now: i64) -> RateLimitConfig {
    if now >= c.window_start + c.window {
        RateLimitConfig { max_requests: c.max_requests, window: c.window, request_count: 0, window_start: now }
    } else {
        c
    }
}

/// Whether a request at `now` is over the limit.
pub open spec fn rate_refused(rl: Option<RateLimitConfig>, now: i64) -> bool {
    match rl {
        Some(c) => rate_reset(c, now).request_count >= rate_reset(c, now).max_requests,
        None => false,
    }
}

/// The rate limit after a request at `now`: reset where the window ran
/// out, and the request counted where it was not refused.
pub open spec fn rate_after(rl: Option<RateLimitConfig>, now: i64) -> Option<RateLimitConfig> {
    match rl {
        Some(c) => {
            let r = rate_reset(c, now);
            if r.request_count >= r.max_requests {
                Some(r)
            } else {
                Some(
                    RateLimitConfig {
                        max_requests: r.max_requests,
                        window: r.window,
                        request_count: (r.request_count + 1) as u32,
                        window_start: r.window_start,
                    },
                )
            }
        },
        None => None,
    }
}

/// A key's count never exceeds its limit.
pub open spec fn rate_within(rl: Option<RateLimitConfig>) -> bool {
    match rl {
        Some(c) => c.request_count <= c.max_requests,
        None => true,
    }
}

/// The metadata with another rate limit.
pub open spec fn with_rate(m: ApiKeyMetadata, rl: Option<RateLimitConfig>) -> ApiKeyMetadata {
    ApiKeyMetadata {
        key_hash: m.key_hash,
        secure_hash: m.secure_hash,
        user_id: m.user_id,
        roles: m.roles,
        created_at: m.created_at,
        expires_at: m.expires_at,
        rate_limit: rl,
        metadata: m.metadata,
    }
}

/// Whether a key with this expiry has expired at `now`.
pub open spec fn key_expired(expires_at: Option<i64>, now: i64) -> bool {
    match expires_at {
        Some(t) => now > t,
        None => false,
    }
}

/// How a presented API key fares.
pub enum KeyCheck {
    /// No key with its digest is registered
    NotFound,
    /// Argon2 rejects it against the stored hash
    Rejected,
    /// It has expired
    Expired,
    /// It is over its rate limit
    Limited,
    /// It is accepted
    Accepted,
}

/// How `key` fares at `now` against the registered keys.
pub open spec fn key_check(keys: Map<Seq<char>, ApiKeyMetadata>, key: Seq<char>, now: i64) -> KeyCheck {
    let h = sha256_hex_of(key);
    if !keys.contains_key(h) {
        KeyCheck::NotFound
    } else if !argon2_accepts(key, keys[h].secure_hash@) {
        KeyCheck::Rejected
    } else if key_expired(keys[h].expires_at, now) {
        KeyCheck::Expired
    } else if rate_refused(keys[h].rate_limit, now) {
        KeyCheck::Limited
    } else {
        KeyCheck::Accepted
    }
}

/// An authentication failure counted for API keys, with its reason.
pub open spec fn failure_metric(reason: Seq<char>) -> (Seq<char>, Seq<Seq<char>>) {
    ("langgraph_auth_failures_total"@, seq!["api_key"@, reason])
}

/// An authentication attempt counted for API keys, with its outcome.
pub open spec fn attempt_metric(ok: bool) -> (Seq<char>, Seq<Seq<char>>) {
    ("langgraph_auth_attempts_total"@, seq!["api_key"@, outcome(ok)])
}

/// The metric events an authentication records, by how the key fared.
pub open spec fn check_metrics(check: KeyCheck, user_id: Seq<char>) -> Seq<(Seq<char>, Seq<Seq<char>>)> {
    match check {
        KeyCheck::NotFound => seq![failure_metric("key_not_found"@), attempt_metric(false)],
        KeyCheck::Rejected => seq![failure_metric("verification_failed"@), attempt_metric(false)],
        KeyCheck::Expired => seq![failure_metric("token_expired"@), attempt_metric(false)],
        KeyCheck::Limited => seq![
            ("langgraph_auth_rate_limit_hits_total"@, seq![user_id]),
            failure_metric("rate_limit_exceeded"@),
            attempt_metric(false),
        ],
        KeyCheck::Accepted => seq![attempt_metric(true)],
    }
}

/// The audit entry an authentication writes, by how the key fared: none,
/// a failure, or a success.
pub open spec fn check_audit(check: KeyCheck) -> Option<bool> {
    match check {
        KeyCheck::Rejected => Some(false),
        KeyCheck::Expired => Some(false),
        KeyCheck::Accepted => Some(true),
        _ => None,
    }
}

/// The event type of an authentication audit entry.
pub open spec fn auth_event_type(success: bool) -> Seq<char> {
    if success {
        "authentication_success"@
    } else {
        "authentication_failure"@
    }
}

/// The audit logger after an authentication of `user_id` at `now` that
/// writes `entry`; an absent logger stays absent.
pub open spec fn audit_written(
    before: Option<AuditLogger>,
    after: Option<AuditLogger>,
    entry: Option<bool>,
    user_id: Seq<char>,
    now: i64,
) -> bool {
    match (before, after) {
        (None, None) => true,
        (Some(a), Some(b)) => match entry {
            None => b.events@ == a.events@,
            Some(ok) => {
                &&& b.events@.len() == a.events@.len() + 1
                &&& b.events@.drop_last() == a.events@
                &&& b.events@.last().event_type@ == auth_event_type(ok)
                &&& b.events@.last().user_id@ == user_id
                &&& b.events@.last().timestamp == now
                &&& string_map(b.events@.last().metadata) == Map::<Seq<char>, Seq<char>>::empty()
            },
        },
        _ => false,
    }
}

/// Whether `m` is what registration stores: these fields, no metadata.
pub open spec fn stored_as(
    m: ApiKeyMetadata,
    key_hash: Seq<char>,
    secure_hash: Seq<char>,
    user_id: Seq<char>,
    roles: Seq<Seq<char>>,
    created_at: i64,
    expires_at: Option<i64>,
    rate_limit: Option<RateLimitConfig>,
) -> bool {
    &&& m.key_hash@ == key_hash
    &&& m.secure_hash@ == secure_hash
    &&& m.user_id@ == user_id
    &&& strings_view(m.roles@) == roles
    &&& m.created_at == created_at
    &&& m.expires_at == expires_at
    &&& m.rate_limit == rate_limit
    &&& string_map(m.metadata) == Map::<Seq<char>, Seq<char>>::empty()
}

/// A fresh rate limit of `n` requests per `w` milliseconds from `start`.
pub open spec fn limit_config(limit: Option<(u32, i64)>, start: i64) -> Option<RateLimitConfig> {
    match limit {
        Some((n, w)) => Some(RateLimitConfig { max_requests: n, window: w, request_count: 0, window_start: start }),
        None => None,
    }
}

/// Authenticates API keys.
pub struct ApiKeyAuthenticator {
    /// Registered keys, by the SHA-256 digest of the key
    pub keys: StrMap<ApiKeyMetadata>,
    /// Optional audit logger
    pub audit_logger: Option<AuditLogger>,
    /// Metric events recorded and not yet handed to the metrics registry
    pub metric_events: Vec<MetricEvent>,
}

fn owned(s: &str) -> (r: String)
    ensures
        r@ == s@,
{
    let mut r = String::new();
    crate::text::push_str(&mut r, s);
    r
}

/// What authenticating `credentials` at `now` does: `before` becomes `after`
/// and `r` is answered, by the check of the key.
pub open spec fn authenticated_at(
    before: ApiKeyAuthenticator,
    after: ApiKeyAuthenticator,
    credentials: Credentials,
    now: i64,
    r: AuthResult<AuthContext>,
) -> bool {
    match credentials {
        Credentials::ApiKey(key) => {
            let h = sha256_hex_of(key@);
            let check = key_check(before.keys.map(), key@, now);
            let m = before.keys.map()[h];
            &&& metric_views(after.metric_events@) == metric_views(before.metric_events@)
                + check_metrics(check, m.user_id@)
            &&& audit_written(before.audit_logger, after.audit_logger, check_audit(check), m.user_id@, now)
            &&& (if check is Limited || check is Accepted {
                after.keys.map() == before.keys.map().insert(h, with_rate(m, rate_after(m.rate_limit, now)))
            } else {
                after.keys.map() == before.keys.map()
            })
            &&& match check {
                KeyCheck::NotFound => r is Err && r->Err_0 is InvalidCredentials,
                KeyCheck::Rejected => r is Err && r->Err_0 is InvalidCredentials,
                KeyCheck::Expired => r is Err && r->Err_0 is TokenExpired,
                KeyCheck::Limited => r is Err && r->Err_0 is RateLimitExceeded,
                KeyCheck::Accepted => r is Ok && {
                    let c = r->Ok_0;
                    &&& c.user_id@ == m.user_id@
                    &&& strings_view(c.roles@) == strings_view(m.roles@)
                    &&& c.permissions@.len() == 0
                    &&& c.metadata.map() == Map::<Seq<char>, crate::json::JsonValue>::empty()
                    &&& c.issued_at == now
                    &&& c.expires_at == match m.expires_at {
                        Some(t) => t as int,
                        None => now + CONTEXT_LIFETIME_MS,
                    }
                },
            }
        },
        _ => {
            &&& r is Err && r->Err_0 is InvalidCredentials
            &&& metric_views(after.metric_events@) == metric_views(before.metric_events@).push(
                failure_metric("invalid_credentials_type"@),
            )
            &&& after.keys == before.keys
            &&& after.audit_logger == before.audit_logger
        },
    }
}

impl ApiKeyAuthenticator {
    /// An authenticator with no keys and no audit logger.
    pub fn new() -> (a: ApiKeyAuthenticator)
        ensures
            a.keys.map() == Map::<Seq<char>, ApiKeyMetadata>::empty(),
            a.audit_logger.is_none(),
            a.metric_events@.len() == 0,
    {
        ApiKeyAuthenticator { keys: StrMap::new(), audit_logger: None, metric_events: Vec::new() }
    }

    /// Logs authentication events to `logger` from now on.
    pub fn set_audit_logger(&mut self, logger: AuditLogger)
        ensures
            final(self).audit_logger == Some(logger),
            final(self).keys == old(self).keys,
            final(self).metric_events == old(self).metric_events,
    {
        self.audit_logger = Some(logger);
    }

    /// Stores the metadata of a key whose digest and Argon2 hash are
    /// given; returns the digest.
    pub fn store_key(
        &mut self,
        key_hash: String,
        secure_hash: String,
        user_id: String,
        roles: Vec<String>,
        created_at: i64,
        expires_at: Option<i64>,
        rate_limit: Option<RateLimitConfig>,
    ) -> (h: String)
        ensures
            h@ == key_hash@,
            final(self).keys.map() == old(self).keys.map().insert(key_hash@, final(self).keys.map()[key_hash@]),
            stored_as(
                final(self).keys.map()[key_hash@],
                key_hash@,
                secure_hash@,
                user_id@,
                strings_view(roles@),
                created_at,
                expires_at,
                rate_limit,
            ),
            final(self).audit_logger == old(self).audit_logger,
            final(self).metric_events == old(self).metric_events,
    {
        let ghost roles_view = strings_view(roles@);
        let metadata = ApiKeyMetadata {
            key_hash: key_hash.clone(),
            secure_hash,
            user_id,
            roles,
            created_at,
            expires_at,
            rate_limit,
            metadata: StrMap::new(),
        };
        proof {
            assert(string_map(metadata.metadata) =~= Map::<Seq<char>, Seq<char>>::empty());
        }
        let h = key_hash.clone();
        self.keys.insert(key_hash, metadata);
        h
    }

    fn register(
        &mut self,
        api_key: &str,
        user_id: String,
        roles: Vec<String>,
        expires_at: Option<i64>,
        limit: Option<(u32, i64)>,
    ) -> (r: AuthResult<String>)
        ensures
            match r {
                Ok(h) => {
                    &&& h@ == sha256_hex_of(api_key@)
                    &&& final(self).keys.map() == old(self).keys.map().insert(h@, final(self).keys.map()[h@])
                    &&& argon2_accepts(api_key@, final(self).keys.map()[h@].secure_hash@)
                    &&& exists|t: i64|
                        0 <= t && #[trigger] stored_as(
                            final(self).keys.map()[h@],
                            h@,
                            final(self).keys.map()[h@].secure_hash@,
                            user_id@,
                            strings_view(roles@),
                            t,
                            expires_at,
                            limit_config(limit, t),
                        )
                },
                Err(e) => e is TokenGenerationFailed && final(self).keys == old(self).keys,
            },
            final(self).audit_logger == old(self).audit_logger,
            final(self).metric_events == old(self).metric_events,
    {
        let key_hash = sha256_hex(api_key);
        let secure_hash = match argon2_hash(api_key) {
            Some(s) => s,
            None => {
                return Err(AuthError::TokenGenerationFailed(owned("Failed to hash API key")));
            },
        };
        let now = crate::clock::now_millis();
        let rate_limit = match limit {
            Some((n, w)) => Some(RateLimitConfig { max_requests: n, window: w, request_count: 0, window_start: now }),
            None => None,
        };
        let ghost sh = secure_hash@;
        assert(argon2_accepts(api_key@, sh));
        assert(rate_limit == limit_config(limit, now));
        let h = self.store_key(key_hash, secure_hash, user_id, roles, now, expires_at, rate_limit);
        assert(stored_as(self.keys.map()[h@], h@, sh, user_id@, strings_view(roles@), now, expires_at, limit_config(limit, now)));
        assert(self.keys.map()[h@].secure_hash@ == sh);
        Ok(h)
    }

    /// Registers `api_key` for `user_id`; returns the key's digest, by
    /// which it is stored. Fails only where Argon2 cannot hash the key.
    pub fn register_key(&mut self, api_key: &str, user_id: String, roles: Vec<String>, expires_at: Option<i64>) -> (r: AuthResult<String>)
        ensures
            match r {
                Ok(h) => {
                    &&& h@ == sha256_hex_of(api_key@)
                    &&& final(self).keys.map() == old(self).keys.map().insert(h@, final(self).keys.map()[h@])
                    &&& argon2_accepts(api_key@, final(self).keys.map()[h@].secure_hash@)
                    &&& exists|t: i64|
                        0 <= t && #[trigger] stored_as(
                            final(self).keys.map()[h@],
                            h@,
                            final(self).keys.map()[h@].secure_hash@,
                            user_id@,
                            strings_view(roles@),
                            t,
                            expires_at,
                            None,
                        )
                },
                Err(e) => e is TokenGenerationFailed && final(self).keys == old(self).keys,
            },
            final(self).audit_logger == old(self).audit_logger,
            final(self).metric_events == old(self).metric_events,
    {
        self.register(api_key, user_id, roles, expires_at, None)
    }

    /// Registers `api_key` for `user_id` with a limit of `max_requests` per
    /// `window` milliseconds, the first window starting now.
    pub fn register_key_with_rate_limit(
        &mut self,
        api_key: &str,
        user_id: String,
        roles: Vec<String>,
        expires_at: Option<i64>,
        max_requests: u32,
        window: i64,
    ) -> (r: AuthResult<String>)
        ensures
            match r {
                Ok(h) => {
                    &&& h@ == sha256_hex_of(api_key@)
                    &&& final(self).keys.map() == old(self).keys.map().insert(h@, final(self).keys.map()[h@])
                    &&& argon2_accepts(api_key@, final(self).keys.map()[h@].secure_hash@)
                    &&& exists|t: i64|
                        0 <= t && #[trigger] stored_as(
                            final(self).keys.map()[h@],
                            h@,
                            final(self).keys.map()[h@].secure_hash@,
                            user_id@,
                            strings_view(roles@),
                            t,
                            expires_at,
                            Some(
                                RateLimitConfig {
                                    max_requests,
                                    window,
                                    request_count: 0,
                                    window_start: t,
                                },
                            ),
                        )
                },
                Err(e) => e is TokenGenerationFailed && final(self).keys == old(self).keys,
            },
            final(self).audit_logger == old(self).audit_logger,
            final(self).metric_events == old(self).metric_events,
    {
        self.register(api_key, user_id, roles, expires_at, Some((max_requests, window)))
    }

    /// Counts a request at `now` against the key's rate limit, starting a
    /// new window where the current one has run out; refuses it where the
    /// window's count has reached the limit.
    pub fn check_rate_limit(&self, metadata: &mut ApiKeyMetadata, now: i64) -> (r: AuthResult<()>)
        ensures
            *final(metadata) == with_rate(*old(metadata), rate_after(old(metadata).rate_limit, now)),
            match r {
                Ok(_) => !rate_refused(old(metadata).rate_limit, now),
                Err(e) => rate_refused(old(metadata).rate_limit, now) && e is RateLimitExceeded,
            },
            rate_within(old(metadata).rate_limit) ==> rate_within(final(metadata).rate_limit),
    {
        match metadata.rate_limit {
            None => Ok(()),
            Some(c) => {
                let mut rl = c;
                let end: i128 = rl.window_start as i128 + rl.window as i128;
                if now as i128 >= end {
                    rl.request_count = 0;
                    rl.window_start = now;
                }
                if rl.request_count >= rl.max_requests {
                    metadata.rate_limit = Some(rl);
                    return Err(AuthError::RateLimitExceeded);
                }
                rl.request_count = rl.request_count + 1;
                metadata.rate_limit = Some(rl);
                Ok(())
            },
        }
    }

    /// Writes an authentication entry to the audit logger, if there is one.
    fn log_auth_event(&mut self, user_id: &str, success: bool, now: i64)
        ensures
            audit_written(old(self).audit_logger, final(self).audit_logger, Some(success), user_id@, now),
            final(self).keys == old(self).keys,
            final(self).metric_events == old(self).metric_events,
    {
        match self.audit_logger.take() {
            Some(mut logger) => {
                let event_type = if success {
                    owned("authentication_success")
                } else {
                    owned("authentication_failure")
                };
                let metadata: StrMap<String> = StrMap::new();
                proof {
                    assert(string_map(metadata) =~= Map::<Seq<char>, Seq<char>>::empty());
                }
                let ghost before = logger.events@;
                let uid = owned(user_id);
                logger.log_event_at(event_type, uid, metadata, now);
                assert(logger.events@.drop_last() =~= before);
                assert(logger.events@.last().metadata == metadata);
                self.audit_logger = Some(logger);
            },
            None => {},
        }
    }

    /// Authenticates `credentials` at `now`: an API key is found by its
    /// digest, checked by Argon2, then against its expiry and its rate
    /// limit. Records the metric events and audit entries of the outcome.
    pub fn authenticate_at(&mut self, credentials: &Credentials, now: i64) -> (r: AuthResult<AuthContext>)
        requires
            now <= LATEST_ISSUE_MS,
        ensures
            final(self).metric_events@.len() >= old(self).metric_events@.len(),
            metric_views(final(self).metric_events@).take(old(self).metric_events@.len() as int)
                == metric_views(old(self).metric_events@),
            authenticated_at(*old(self), *final(self), *credentials, now, r),
    {
        let ghost old_events = metric_views(self.metric_events@);
        let api_key = match credentials {
            Credentials::ApiKey(k) => k,
            _ => {
                self.metric_events.push(SecurityMetrics::record_auth_failure("api_key", "invalid_credentials_type"));
                assert(metric_views(self.metric_events@) =~= old_events.push(failure_metric("invalid_credentials_type"@)));
                return Err(AuthError::InvalidCredentials);
            },
        };
        let ghost keys0 = self.keys.map();
        let ghost logger0 = self.audit_logger;
        let key_hash = sha256_hex(api_key.as_str());
        let mut metadata = match self.keys.remove(key_hash.as_str()) {
            Some(m) => m,
            None => {
                self.metric_events.push(SecurityMetrics::record_auth_failure("api_key", "key_not_found"));
                self.metric_events.push(SecurityMetrics::record_auth_attempt("api_key", false));
                assert(self.keys.map() =~= keys0);
                assert(metric_views(self.metric_events@) =~= old_events + check_metrics(KeyCheck::NotFound, keys0[key_hash@].user_id@));
                return Err(AuthError::InvalidCredentials);
            },
        };
        if !argon2_verify(api_key.as_str(), metadata.secure_hash.as_str()) {
            self.metric_events.push(SecurityMetrics::record_auth_failure("api_key", "verification_failed"));
            self.metric_events.push(SecurityMetrics::record_auth_attempt("api_key", false));
            self.log_auth_event(metadata.user_id.as_str(), false, now);
            assert(metric_views(self.metric_events@) =~= old_events + check_metrics(KeyCheck::Rejected, metadata.user_id@));
            self.keys.insert(key_hash, metadata);
            assert(self.keys.map() =~= keys0);
            return Err(AuthError::InvalidCredentials);
        }
        match metadata.expires_at {
            Some(t) => {
                if now > t {
                    self.metric_events.push(SecurityMetrics::record_auth_failure("api_key", "token_expired"));
                    self.metric_events.push(SecurityMetrics::record_auth_attempt("api_key", false));
                    self.log_auth_event(metadata.user_id.as_str(), false, now);
                    assert(metric_views(self.metric_events@) =~= old_events + check_metrics(KeyCheck::Expired, metadata.user_id@));
                    self.keys.insert(key_hash, metadata);
                    assert(self.keys.map() =~= keys0);
                    return Err(AuthError::TokenExpired);
                }
            },
            None => {},
        }
        let ghost m0 = metadata;
        let limited = self.check_rate_limit(&mut metadata, now);
        match limited {
            Err(e) => {
                self.metric_events.push(SecurityMetrics::record_rate_limit_hit(metadata.user_id.as_str()));
                self.metric_events.push(SecurityMetrics::record_auth_failure("api_key", "rate_limit_exceeded"));
                self.metric_events.push(SecurityMetrics::record_auth_attempt("api_key", false));
                assert(metric_views(self.metric_events@) =~= old_events + check_metrics(KeyCheck::Limited, m0.user_id@));
                self.keys.insert(key_hash, metadata);
                assert(self.keys.map() =~= keys0.insert(sha256_hex_of(api_key@), with_rate(m0, rate_after(m0.rate_limit, now))));
                return Err(e);
            },
            Ok(_) => {},
        }
        let mut context = AuthContext::new_at(
            metadata.user_id.clone(),
            crate::text::copy_strings(&metadata.roles),
            now,
        );
        match metadata.expires_at {
            Some(t) => {
                context.expires_at = t;
            },
            None => {},
        }
        self.metric_events.push(SecurityMetrics::record_auth_attempt("api_key", true));
        self.log_auth_event(metadata.user_id.as_str(), true, now);
        assert(metric_views(self.metric_events@) =~= old_events + check_metrics(KeyCheck::Accepted, m0.user_id@));
        self.keys.insert(key_hash, metadata);
        assert(self.keys.map() =~= keys0.insert(sha256_hex_of(api_key@), with_rate(m0, rate_after(m0.rate_limit, now))));
        Ok(context)
    }
}

impl Default for ApiKeyAuthenticator {
    fn default() -> (a: ApiKeyAuthenticator)
        ensures
            a.keys.map() == Map::<Seq<char>, ApiKeyMetadata>::empty(),
            a.audit_logger.is_none(),
            a.metric_events@.len() == 0,
    {
        ApiKeyAuthenticator::new()
    }
}

impl Authenticator for ApiKeyAuthenticator {
    /// Authenticates at the time of the system clock.
    fn authenticate(&mut self, credentials: &Credentials) -> (r: AuthResult<AuthContext>)
        ensures
            exists|now: i64| 0 <= now && #[trigger] authenticated_at(*old(self), *final(self), *credentials, now, r),
    {
        let now = crate::clock::now_millis();
        self.authenticate_at(credentials, now)
    }

    /// For API keys, validating a token is authenticating it as a key.
    fn validate_token(&mut self, token: &str) -> (r: AuthResult<AuthContext>)
        ensures
            exists|key: String, now: i64|
                key@ == token@ && 0 <= now && #[trigger] authenticated_at(
                    *old(self),
                    *final(self),
                    Credentials::ApiKey(key),
                    now,
                    r,
                ),
    {
        let credentials = Credentials::ApiKey(owned(token));
        self.authenticate(&credentials)
    }

    /// API keys cannot be refreshed.
    fn refresh_token(&mut self, refresh_token: &str) -> (r: AuthResult<TokenPair>)
        ensures
            r is Err && r->Err_0 is InvalidToken && r->Err_0->InvalidToken_0@ == "API keys do not support token refresh"@,
    {
        Err(AuthError::InvalidToken(owned("API keys do not support token refresh")))
    }
}

/// A key that registration stored, presented again before it expires and
/// with no rate limit, is accepted.
pub proof fn lemma_registered_key_accepted(
    keys: Map<Seq<char>, ApiKeyMetadata>,
    key: Seq<char>,
    now: i64,
)
    requires
        keys.contains_key(sha256_hex_of(key)),
        argon2_accepts(key, keys[sha256_hex_of(key)].secure_hash@),
        !key_expired(keys[sha256_hex_of(key)].expires_at, now),
        keys[sha256_hex_of(key)].rate_limit is None,
    ensures
        key_check(keys, key, now) is Accepted,
{
}

} // verus!
