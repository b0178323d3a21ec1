//! JWT authentication: signed access and refresh tokens, with single-use
//! refresh tokens.
use vstd::prelude::*;
use jsonwebtoken::errors::ErrorKind;
use jsonwebtoken::{Algorithm, DecodingKey, EncodingKey, Header, Validation};
use crate::graph::strings_view;
use crate::json::{JsonModel, JsonValue, serde_value, from_serde_value};
use crate::keyed_map::StrMap;
use crate::security::AuthError;
use crate::security::auth::{AuthContext, AuthResult, Authenticator, Credentials, Permission, TokenPair, CONTEXT_LIFETIME_MS};
use crate::security::metrics::{MetricEvent, SecurityMetrics, metric_views, outcome};
use crate::state::schema::obj_map;
use crate::state::{state_model, StateData};
use crate::text::{concat_str, str_eq};

verus! {

/// The token HS256 signing gives for claims under a secret, or the error
/// text of a failure.
pub uninterp spec fn jwt_token_of(claims: JsonModel, secret: Seq<u8>) -> Result<Seq<char>, Seq<char>>;

/// The time in milliseconds of a number of seconds since the Unix epoch,
/// where it is a representable date.
pub uninterp spec fn datetime_millis(secs: i64) -> Option<i64>;

/// `jsonwebtoken::encode` with the default header (HS256) of the
/// serde_json value of `claims`, under `EncodingKey::from_secret`; the
/// token, or the error's text. The contract names the result.
#[verifier::external_body]
fn jwt_encode(claims: &JsonValue, secret: &[u8]) -> (r: Result<String, String>)
    ensures
        match r {
            Ok(t) => jwt_token_of(claims@, secret@) == Ok::<Seq<char>, Seq<char>>(t@),
            Err(e) => jwt_token_of(claims@, secret@) == Err::<Seq<char>, Seq<char>>(e@),
        },
{
    match jsonwebtoken::encode(&Header::default(), &serde_value(claims), &EncodingKey::from_secret(secret)) {
        Ok(t) => Ok(t),
        Err(e) => Err(e.to_string()),
    }
}

/// `jsonwebtoken::decode` of `token` under `DecodingKey::from_secret`,
/// validating HS256 with `issuer` and `audience` and the expiry against the
/// clock (60 s leeway); the claims, none where a number in them is not a
/// 64-bit integer. On failure, whether the signature had expired and the
/// error's text. Nothing is promised: the expiry check reads the clock.
#[verifier::external_body]
fn jwt_decode(token: &str, secret: &[u8], issuer: &str, audience: &str) -> Result<Option<JsonValue>, (bool, String)> {
    let mut validation = Validation::new(Algorithm::HS256);
    validation.set_issuer(&[issuer]);
    validation.set_audience(&[audience]);
    match jsonwebtoken::decode::<serde_json::Value>(token, &DecodingKey::from_secret(secret), &validation) {
        Ok(data) => Ok(from_serde_value(&data.claims)),
        Err(e) => Err((matches!(e.kind(), ErrorKind::ExpiredSignature), e.to_string())),
    }
}

/// `DateTime::from_timestamp(secs, 0)` of chrono, by its
/// `timestamp_millis`: the same instant in milliseconds, where it is a
/// representable date.
#[verifier::external_body]
fn millis_of_secs(secs: i64) -> (r: Option<i64>)
    ensures
        r == datetime_millis(secs),
        r matches Some(ms) ==> ms == secs * 1000,
{
    match chrono::DateTime::from_timestamp(secs, 0) {
        Some(d) => Some(d.timestamp_millis()),
        None => None,
    }
}

/// The claims of a token.
#[derive(Debug)]
pub struct Claims {
    /// Subject (user ID)
    pub sub: String,
    /// Issuer
    pub iss: String,
    /// Audience
    pub aud: String,
    /// Expiration time (seconds since the Unix epoch)
    pub exp: i64,
    /// Issue time (seconds since the Unix epoch)
    pub iat: i64,
    /// Unique token id
    pub jti: String,
    /// User roles
    pub roles: Vec<String>,
    /// Custom metadata
    pub metadata: StateData,
    /// `access` or `refresh`
    pub token_type: String,
}

/// Field `k` of an object.
pub open spec fn json_field(m: JsonModel, k: Seq<char>) -> Option<JsonModel> {
    match m {
        JsonModel::Object(o) => if obj_map(o).contains_key(k) {
            Some(obj_map(o)[k])
        } else {
            None
        },
        _ => None,
    }
}

/// A string field.
pub open spec fn str_field(m: JsonModel, k: Seq<char>) -> Option<Seq<char>> {
    match json_field(m, k) {
        Some(JsonModel::Str(s)) => Some(s),
        _ => None,
    }
}

/// An integer field.
pub open spec fn int_field(m: JsonModel, k: Seq<char>) -> Option<int> {
    match json_field(m, k) {
        Some(JsonModel::Number(n)) => Some(n),
        _ => None,
    }
}

/// Whether every element is a string.
pub open spec fn all_strings(a: Seq<JsonModel>) -> bool {
    forall|i: int| 0 <= i < a.len() ==> (#[trigger] a[i]) is Str
}

/// A field that is a list of strings.
pub open spec fn strings_field(m: JsonModel, k: Seq<char>) -> Option<Seq<Seq<char>>> {
    match json_field(m, k) {
        Some(JsonModel::Array(a)) => if all_strings(a) {
            Some(Seq::new(a.len(), |i: int| a[i]->Str_0))
        } else {
            None
        },
        _ => None,
    }
}

/// A field that is an object, by its values.
pub open spec fn object_field_map(m: JsonModel, k: Seq<char>) -> Option<Map<Seq<char>, JsonModel>> {
    match json_field(m, k) {
        Some(JsonModel::Object(o)) => Some(obj_map(o)),
        _ => None,
    }
}

/// Whether `m` holds claims: the string, integer, list and object fields
/// that claims have, and a token type that is a string where present.
pub open spec fn claims_readable(m: JsonModel) -> bool {
    &&& str_field(m, "sub"@) is Some
    &&& str_field(m, "iss"@) is Some
    &&& str_field(m, "aud"@) is Some
    &&& int_field(m, "exp"@) is Some
    &&& i64::MIN <= int_field(m, "exp"@)->0 <= i64::MAX
    &&& int_field(m, "iat"@) is Some
    &&& i64::MIN <= int_field(m, "iat"@)->0 <= i64::MAX
    &&& str_field(m, "jti"@) is Some
    &&& strings_field(m, "roles"@) is Some
    &&& object_field_map(m, "metadata"@) is Some
    &&& (json_field(m, "token_type"@) is None || str_field(m, "token_type"@) is Some)
}

/// Whether `c` are the claims that `m` holds; a missing token type is empty.
pub open spec fn claims_read(m: JsonModel, c: Claims) -> bool {
    &&& str_field(m, "sub"@) == Some(c.sub@)
    &&& str_field(m, "iss"@) == Some(c.iss@)
    &&& str_field(m, "aud"@) == Some(c.aud@)
    &&& int_field(m, "exp"@) == Some(c.exp as int)
    &&& int_field(m, "iat"@) == Some(c.iat as int)
    &&& str_field(m, "jti"@) == Some(c.jti@)
    &&& strings_field(m, "roles"@) == Some(strings_view(c.roles@))
    &&& object_field_map(m, "metadata"@) == Some(state_model(c.metadata))
    &&& c.token_type@ == match str_field(m, "token_type"@) {
        Some(t) => t,
        None => Seq::<char>::empty(),
    }
}

fn get_string(entries: &Vec<(String, JsonValue)>, key: &str) -> (r: Option<String>)
    ensures
        r matches Some(s) ==> str_field(JsonValue::Object(*entries)@, key@) == Some(s@),
        r is None ==> str_field(JsonValue::Object(*entries)@, key@) is None,
{
    match crate::engine::state_inspector::object_field(entries, key) {
        Some(JsonValue::String(s)) => Some(s.clone()),
        _ => None,
    }
}

fn get_int(entries: &Vec<(String, JsonValue)>, key: &str) -> (r: Option<i64>)
    ensures
        r matches Some(n) ==> int_field(JsonValue::Object(*entries)@, key@) == Some(n as int),
        r is None ==> int_field(JsonValue::Object(*entries)@, key@) is None,
{
    match crate::engine::state_inspector::object_field(entries, key) {
        Some(JsonValue::Number(n)) => Some(*n),
        _ => None,
    }
}

#[verifier::loop_isolation(false)]
fn get_strings(entries: &Vec<(String, JsonValue)>, key: &str) -> (r: Option<Vec<String>>)
    ensures
        r matches Some(v) ==> strings_field(JsonValue::Object(*entries)@, key@) == Some(strings_view(v@)),
        r is None ==> strings_field(JsonValue::Object(*entries)@, key@) is None,
{
    match crate::engine::state_inspector::object_field(entries, key) {
        Some(JsonValue::Array(a)) => {
            let ghost am = JsonValue::Array(*a)@->Array_0;
            let mut out: Vec<String> = Vec::new();
            let mut i: usize = 0;
            while i < a.len()
                invariant
                    i <= a@.len(),
                    am == JsonValue::Array(*a)@->Array_0,
                    am.len() == a@.len(),
                    out@.len() == i,
                    forall|j: int| 0 <= j < i ==> (#[trigger] am[j]) is Str && am[j]->Str_0 == out@[j]@,
                decreases a@.len() - i,
            {
                assert(am[i as int] == a@[i as int]@);
                match &a[i] {
                    JsonValue::String(s) => {
                        out.push(s.clone());
                    },
                    _ => {
                        assert(!all_strings(am));
                        return None;
                    },
                }
                i = i + 1;
            }
            assert(strings_view(out@) =~= Seq::new(am.len(), |j: int| am[j]->Str_0));
            Some(out)
        },
        _ => None,
    }
}

fn get_object(entries: &Vec<(String, JsonValue)>, key: &str) -> (r: Option<StateData>)
    ensures
        r matches Some(m) ==> object_field_map(JsonValue::Object(*entries)@, key@) == Some(state_model(m)),
        r is None ==> object_field_map(JsonValue::Object(*entries)@, key@) is None,
{
    match crate::engine::state_inspector::object_field(entries, key) {
        Some(JsonValue::Object(o)) => Some(crate::state::state_of_object(o)),
        _ => None,
    }
}

impl Claims {
    /// The claims that `v` holds, where it holds claims.
    pub fn from_json(v: &JsonValue) -> (r: Option<Claims>)
        ensures
            r is Some <==> claims_readable(v@),
            r matches Some(c) ==> claims_read(v@, c),
    {
        let entries = match v {
            JsonValue::Object(o) => o,
            _ => {
                return None;
            },
        };
        let sub = match get_string(entries, "sub") { Some(s) => s, None => { return None; } };
        let iss = match get_string(entries, "iss") { Some(s) => s, None => { return None; } };
        let aud = match get_string(entries, "aud") { Some(s) => s, None => { return None; } };
        let exp = match get_int(entries, "exp") { Some(n) => n, None => { return None; } };
        let iat = match get_int(entries, "iat") { Some(n) => n, None => { return None; } };
        let jti = match get_string(entries, "jti") { Some(s) => s, None => { return None; } };
        let roles = match get_strings(entries, "roles") { Some(r) => r, None => { return None; } };
        let metadata = match get_object(entries, "metadata") { Some(m) => m, None => { return None; } };
        let token_type = match crate::engine::state_inspector::object_field(entries, "token_type") {
            None => String::new(),
            Some(JsonValue::String(t)) => t.clone(),
            Some(_) => {
                return None;
            },
        };
        Some(Claims { sub, iss, aud, exp, iat, jti, roles, metadata, token_type })
    }

    /// The claims as a JSON object.
    pub fn to_json(&self) -> (v: JsonValue)
        ensures
            claims_readable(v@),
            claims_read(v@, *self),
            str_field(v@, "token_type"@) == Some(self.token_type@),
    {
        let mut roles: Vec<JsonValue> = Vec::new();
        let mut i: usize = 0;
        while i < self.roles.len()
            invariant
                i <= self.roles@.len(),
                roles@.len() == i,
                forall|j: int| 0 <= j < i ==> (#[trigger] roles@[j])@ == JsonModel::Str(self.roles@[j]@),
            decreases self.roles@.len() - i,
        {
            roles.push(JsonValue::String(self.roles[i].clone()));
            i = i + 1;
        }
        let mut obj: StateData = StrMap::new();
        obj.insert(own("sub"), JsonValue::String(self.sub.clone()));
        obj.insert(own("iss"), JsonValue::String(self.iss.clone()));
        obj.insert(own("aud"), JsonValue::String(self.aud.clone()));
        obj.insert(own("exp"), JsonValue::Number(self.exp));
        obj.insert(own("iat"), JsonValue::Number(self.iat));
        obj.insert(own("jti"), JsonValue::String(self.jti.clone()));
        let ghost rv = JsonValue::Array(roles)@;
        obj.insert(own("roles"), JsonValue::Array(roles));
        let meta = crate::state::state_object(&self.metadata);
        obj.insert(own("metadata"), meta);
        obj.insert(own("token_type"), JsonValue::String(self.token_type.clone()));
        self.metadata.assert_unique();
        obj.assert_unique();
        let v = crate::state::state_object(&obj);
        proof {
            reveal_strlit("sub");
            reveal_strlit("iss");
            reveal_strlit("aud");
            reveal_strlit("exp");
            reveal_strlit("iat");
            reveal_strlit("jti");
            reveal_strlit("roles");
            reveal_strlit("metadata");
            reveal_strlit("token_type");
            crate::state::advanced_channels::lemma_state_object_map(obj);
            crate::state::advanced_channels::lemma_state_object_map(self.metadata);
            let sm = state_model(obj);
            assert(obj_map(v@->Object_0) == sm);
            assert("sub"@[0] != "iss"@[0]);
            assert("sub"@ != "iss"@);
            assert("sub"@[0] != "aud"@[0]);
            assert("sub"@ != "aud"@);
            assert("sub"@[0] != "exp"@[0]);
            assert("sub"@ != "exp"@);
            assert("sub"@[0] != "iat"@[0]);
            assert("sub"@ != "iat"@);
            assert("sub"@[0] != "jti"@[0]);
            assert("sub"@ != "jti"@);
            assert("sub"@.len() != "roles"@.len());
            assert("sub"@ != "roles"@);
            assert("sub"@.len() != "metadata"@.len());
            assert("sub"@ != "metadata"@);
            assert("sub"@.len() != "token_type"@.len());
            assert("sub"@ != "token_type"@);
            assert("iss"@[0] != "aud"@[0]);
            assert("iss"@ != "aud"@);
            assert("iss"@[0] != "exp"@[0]);
            assert("iss"@ != "exp"@);
            assert("iss"@[1] != "iat"@[1]);
            assert("iss"@ != "iat"@);
            assert("iss"@[0] != "jti"@[0]);
            assert("iss"@ != "jti"@);
            assert("iss"@.len() != "roles"@.len());
            assert("iss"@ != "roles"@);
            assert("iss"@.len() != "metadata"@.len());
            assert("iss"@ != "metadata"@);
            assert("iss"@.len() != "token_type"@.len());
            assert("iss"@ != "token_type"@);
            assert("aud"@[0] != "exp"@[0]);
            assert("aud"@ != "exp"@);
            assert("aud"@[0] != "iat"@[0]);
            assert("aud"@ != "iat"@);
            assert("aud"@[0] != "jti"@[0]);
            assert("aud"@ != "jti"@);
            assert("aud"@.len() != "roles"@.len());
            assert("aud"@ != "roles"@);
            assert("aud"@.len() != "metadata"@.len());
            assert("aud"@ != "metadata"@);
            assert("aud"@.len() != "token_type"@.len());
            assert("aud"@ != "token_type"@);
            assert("exp"@[0] != "iat"@[0]);
            assert("exp"@ != "iat"@);
            assert("exp"@[0] != "jti"@[0]);
            assert("exp"@ != "jti"@);
            assert("exp"@.len() != "roles"@.len());
            assert("exp"@ != "roles"@);
            assert("exp"@.len() != "metadata"@.len());
            assert("exp"@ != "metadata"@);
            assert("exp"@.len() != "token_type"@.len());
            assert("exp"@ != "token_type"@);
            assert("iat"@[0] != "jti"@[0]);
            assert("iat"@ != "jti"@);
            assert("iat"@.len() != "roles"@.len());
            assert("iat"@ != "roles"@);
            assert("iat"@.len() != "metadata"@.len());
            assert("iat"@ != "metadata"@);
            assert("iat"@.len() != "token_type"@.len());
            assert("iat"@ != "token_type"@);
            assert("jti"@.len() != "roles"@.len());
            assert("jti"@ != "roles"@);
            assert("jti"@.len() != "metadata"@.len());
            assert("jti"@ != "metadata"@);
            assert("jti"@.len() != "token_type"@.len());
            assert("jti"@ != "token_type"@);
            assert("roles"@.len() != "metadata"@.len());
            assert("roles"@ != "metadata"@);
            assert("roles"@.len() != "token_type"@.len());
            assert("roles"@ != "token_type"@);
            assert("metadata"@.len() != "token_type"@.len());
            assert("metadata"@ != "token_type"@);
            assert(sm["sub"@] == JsonModel::Str(self.sub@));
            assert(sm["iss"@] == JsonModel::Str(self.iss@));
            assert(sm["aud"@] == JsonModel::Str(self.aud@));
            assert(sm["exp"@] == JsonModel::Number(self.exp as int));
            assert(sm["iat"@] == JsonModel::Number(self.iat as int));
            assert(sm["jti"@] == JsonModel::Str(self.jti@));
            assert(sm["roles"@] == rv);
            assert(sm["token_type"@] == JsonModel::Str(self.token_type@));
            assert(rv->Array_0 =~= Seq::new(self.roles@.len(), |j: int| JsonModel::Str(self.roles@[j]@)));
            assert(Seq::new(rv->Array_0.len(), |j: int| rv->Array_0[j]->Str_0) =~= strings_view(self.roles@));
            assert(all_strings(rv->Array_0));
        }
        v
    }
}

fn own(s: &str) -> (r: String)
    ensures
        r@ == s@,
{
    let mut r = String::new();
    crate::text::push_str(&mut r, s);
    r
}

/// The default lifetime of refresh tokens: 30 days, in seconds.
pub const REFRESH_LIFETIME_SECS: i64 = 2_592_000;

/// The permissions a context gets from its roles: all for `admin`; running
/// graphs and reading state for `developer` or `user`; none otherwise.
pub open spec fn role_permissions(roles: Seq<Seq<char>>) -> Seq<Permission> {
    if roles.contains("admin"@) {
        seq![
            Permission::ExecuteGraph,
            Permission::CreateGraph,
            Permission::ModifyGraph,
            Permission::DeleteGraph,
            Permission::ReadState,
            Permission::WriteState,
            Permission::ManageCheckpoints,
            Permission::ViewAuditLogs,
        ]
    } else if roles.contains("developer"@) || roles.contains("user"@) {
        seq![Permission::ExecuteGraph, Permission::ReadState]
    } else {
        Seq::empty()
    }
}

/// Whether `v` holds the claims of a token of `token_type` for `user_id`
/// with `roles` and `metadata`, issued at `now` for `lifetime` seconds by
/// `issuer` for `audience`.
pub open spec fn issued_claims(
    v: JsonModel,
    user_id: Seq<char>,
    roles: Seq<Seq<char>>,
    metadata: Map<Seq<char>, JsonModel>,
    issuer: Seq<char>,
    audience: Seq<char>,
    now: i64,
    lifetime: i64,
    token_type: Seq<char>,
) -> bool {
    &&& claims_readable(v)
    &&& str_field(v, "sub"@) == Some(user_id)
    &&& str_field(v, "iss"@) == Some(issuer)
    &&& str_field(v, "aud"@) == Some(audience)
    &&& int_field(v, "exp"@) == Some(now + lifetime)
    &&& int_field(v, "iat"@) == Some(now as int)
    &&& strings_field(v, "roles"@) == Some(roles)
    &&& object_field_map(v, "metadata"@) == Some(metadata)
    &&& str_field(v, "token_type"@) == Some(token_type)
}

/// What a decoding gives: the claims, an expired token, or an invalid one.
pub open spec fn decoded_outcome(decoded: Result<Option<JsonValue>, (bool, String)>, r: AuthResult<Claims>) -> bool {
    match decoded {
        Err((true, _)) => r is Err && r->Err_0 is TokenExpired,
        Err((false, msg)) => r is Err && r->Err_0 is InvalidToken && r->Err_0->InvalidToken_0@ == msg@,
        Ok(None) => r is Err && r->Err_0 is InvalidToken,
        Ok(Some(v)) => if claims_readable(v@) {
            r is Ok && claims_read(v@, r->Ok_0)
        } else {
            r is Err && r->Err_0 is InvalidToken
        },
    }
}

/// What signing the claims `v` with `secret` gives back: the token, or the
/// signing error.
pub open spec fn signed_result(v: JsonModel, secret: Seq<u8>, r: AuthResult<String>) -> bool {
    match r {
        Ok(t) => jwt_token_of(v, secret) == Ok::<Seq<char>, Seq<char>>(t@),
        Err(e) => e is TokenGenerationFailed && jwt_token_of(v, secret) == Err::<Seq<char>, Seq<char>>(
            e->TokenGenerationFailed_0@,
        ),
    }
}

/// What an authenticator signs tokens with: its secret, issuer and
/// audience, and the access and refresh lifetimes.
pub open spec fn signing(a: JwtAuthenticator) -> (Seq<u8>, Seq<char>, Seq<char>, i64, i64) {
    (a.secret@, a.issuer@, a.audience@, a.access_token_expiration, a.refresh_token_expiration)
}

/// `r` is what issuing a token of `token_type` for `user_id` at `now`,
/// lasting `lifetime` seconds, under the secret, issuer and audience of `a`
/// gives: a signing of such claims, or an error where the expiry is not a
/// 64-bit time.
pub open spec fn token_issued_with(
    k: (Seq<u8>, Seq<char>, Seq<char>, i64, i64),
    user_id: Seq<char>,
    roles: Seq<Seq<char>>,
    metadata: Map<Seq<char>, JsonModel>,
    now: i64,
    lifetime: i64,
    token_type: Seq<char>,
    r: AuthResult<String>,
) -> bool {
    if i64::MIN <= now + lifetime <= i64::MAX {
        exists|v: JsonModel|
            #[trigger] issued_claims(v, user_id, roles, metadata, k.1, k.2, now, lifetime, token_type)
                && signed_result(v, k.0, r)
    } else {
        r is Err && r->Err_0 is TokenGenerationFailed
    }
}

/// The same, under the keys of `a`.
pub open spec fn token_issued(
    a: JwtAuthenticator,
    user_id: Seq<char>,
    roles: Seq<Seq<char>>,
    metadata: Map<Seq<char>, JsonModel>,
    now: i64,
    lifetime: i64,
    token_type: Seq<char>,
    r: AuthResult<String>,
) -> bool {
    token_issued_with(signing(a), user_id, roles, metadata, now, lifetime, token_type, r)
}

/// `r` is what issuing an access token at `n1` and then a refresh token at
/// `n2` gives: both tokens as a bearer pair, or the first error.
pub open spec fn pair_issued_with(
    k: (Seq<u8>, Seq<char>, Seq<char>, i64, i64),
    user_id: Seq<char>,
    roles: Seq<Seq<char>>,
    metadata: Map<Seq<char>, JsonModel>,
    n1: i64,
    n2: i64,
    r: AuthResult<TokenPair>,
) -> bool {
    match r {
        Ok(p) => {
            &&& token_issued_with(k, user_id, roles, metadata, n1, k.3, "access"@, Ok(p.access_token))
            &&& token_issued_with(k, user_id, roles, metadata, n2, k.4, "refresh"@, Ok(p.refresh_token))
            &&& p.expires_in == k.3
            &&& p.token_type@ == "Bearer"@
        },
        Err(e) => token_issued_with(k, user_id, roles, metadata, n1, k.3, "access"@, Err(e)) || (
        (exists|t: String|
            #[trigger] token_issued_with(k, user_id, roles, metadata, n1, k.3, "access"@, Ok(t)))
            && token_issued_with(k, user_id, roles, metadata, n2, k.4, "refresh"@, Err(e))),
    }
}

/// The same, under the keys of `a`.
pub open spec fn pair_issued(
    a: JwtAuthenticator,
    user_id: Seq<char>,
    roles: Seq<Seq<char>>,
    metadata: Map<Seq<char>, JsonModel>,
    n1: i64,
    n2: i64,
    r: AuthResult<TokenPair>,
) -> bool {
    pair_issued_with(signing(a), user_id, roles, metadata, n1, n2, r)
}

/// `c` is the context that `a` makes of `claims` at `now` milliseconds.
pub open spec fn context_of(a: JwtAuthenticator, claims: Claims, now: i64, c: AuthContext) -> bool {
    &&& c.user_id@ == claims.sub@
    &&& strings_view(c.roles@) == strings_view(claims.roles@)
    &&& c.expires_at == match datetime_millis(claims.exp) {
        Some(ms) => ms as int,
        None => now + a.access_token_expiration * 1000,
    }
    &&& c.issued_at == match datetime_millis(claims.iat) {
        Some(ms) => ms,
        None => now,
    }
    &&& c.metadata.map() == claims.metadata.map()
    &&& c.permissions@ == role_permissions(strings_view(claims.roles@))
}

/// `r` is the context of `claims` at some moment, or the error for an
/// access lifetime out of range.
pub open spec fn context_result(a: JwtAuthenticator, claims: Claims, r: AuthResult<AuthContext>) -> bool {
    if a.access_token_expiration < 0 || a.access_token_expiration > 1_000_000_000_000 {
        r is Err && r->Err_0 is InvalidToken && r->Err_0->InvalidToken_0@ == "Access token lifetime out of range"@
    } else {
        r is Ok && exists|now: i64| 0 <= now && #[trigger] context_of(a, claims, now, r->Ok_0)
    }
}

/// `r` is what `a` answers to a token whose decoding gave `dr`: the
/// decoding error, the refusal of a token other than an access one where
/// only those are taken, or the context of the claims.
pub open spec fn token_checked(a: JwtAuthenticator, dr: AuthResult<Claims>, r: AuthResult<AuthContext>, access_only: bool) -> bool {
    &&& exists|d: Result<Option<JsonValue>, (bool, String)>| #[trigger] decoded_outcome(d, dr)
    &&& match dr {
        Err(e) => r == Err::<AuthContext, AuthError>(e),
        Ok(c) => if access_only && c.token_type@ != "access"@ {
            r is Err && r->Err_0 is InvalidToken && r->Err_0->InvalidToken_0@ == "Expected access token"@
        } else {
            context_result(a, c, r)
        },
    }
}

/// `r` is what `a` answers to a refresh token whose decoding gave `dr`:
/// the decoding error, the error for a record that would end past 64-bit
/// time, or what rotating it gives.
pub open spec fn refresh_answer(a: JwtAuthenticator, dr: AuthResult<Claims>, r: AuthResult<TokenPair>) -> bool {
    match dr {
        Err(e) => r == Err::<TokenPair, AuthError>(e),
        Ok(c) => (a.refresh_token_expiration < 0 && r is Err && r->Err_0 is TokenGenerationFailed) || (
        a.refresh_token_expiration >= 0 && exists|now: i64|
            0 <= now && #[trigger] refreshed_at(a, c, now, r)),
    }
}

/// `r` is what rotating `claims` at `now` answers, or the error for a
/// record that would end past 64-bit time.
pub open spec fn refreshed_at(a: JwtAuthenticator, claims: Claims, now: i64, r: AuthResult<TokenPair>) -> bool {
    if now > i64::MAX - a.refresh_token_expiration {
        r is Err && r->Err_0 is TokenGenerationFailed
    } else {
        rotated(a, claims, r)
    }
}

/// `r` is what rotating the refresh token `claims` at `now` answers, where
/// its record would end at a 64-bit time: a refusal of another kind of
/// token or of a revoked one, else a new pair for the same subject.
pub open spec fn rotated(a: JwtAuthenticator, claims: Claims, r: AuthResult<TokenPair>) -> bool {
    if claims.token_type@ != "refresh"@ {
        r is Err && r->Err_0 is InvalidToken && r->Err_0->InvalidToken_0@ == "Expected refresh token"@
    } else if a.revoked_tokens.map().contains_key(claims.jti@) {
        r is Err && r->Err_0 is InvalidToken && r->Err_0->InvalidToken_0@ == "Refresh token has been revoked"@
    } else {
        exists|n1: i64, n2: i64|
            0 <= n1 && 0 <= n2 && #[trigger] pair_issued(
                a,
                claims.sub@,
                strings_view(claims.roles@),
                state_model(claims.metadata),
                n1,
                n2,
                r,
            )
    }
}

/// Authenticates signed tokens. Token times are seconds since the Unix
/// epoch.
pub struct JwtAuthenticator {
    /// The signing secret
    pub secret: Vec<u8>,
    /// Token issuer
    pub issuer: String,
    /// Token audience
    pub audience: String,
    /// Access token lifetime, in seconds
    pub access_token_expiration: i64,
    /// Refresh token lifetime, in seconds
    pub refresh_token_expiration: i64,
    /// Revoked token ids
    pub revoked_tokens: StrMap<()>,
    /// Rotated refresh token ids, with when their record may go
    pub rotation_tracker: StrMap<i64>,
    /// Metric events recorded and not yet handed to the metrics registry
    pub metric_events: Vec<MetricEvent>,
}

fn copy_bytes(b: &[u8]) -> (r: Vec<u8>)
    ensures
        r@ == b@,
{
    let mut r: Vec<u8> = Vec::new();
    let mut i: usize = 0;
    while i < b.len()
        invariant
            i <= b@.len(),
            r@ == b@.take(i as int),
        decreases b@.len() - i,
    {
        r.push(b[i]);
        i = i + 1;
        assert(r@ =~= b@.take(i as int));
    }
    assert(b@.take(i as int) =~= b@);
    r
}

/// The claims of `decoded`, or the error for it.
pub fn claims_from_decoded(decoded: Result<Option<JsonValue>, (bool, String)>) -> (r: AuthResult<Claims>)
    ensures
        decoded_outcome(decoded, r),
{
    match decoded {
        Err((expired, msg)) => {
            if expired {
                Err(AuthError::TokenExpired)
            } else {
                Err(AuthError::InvalidToken(msg))
            }
        },
        Ok(None) => Err(AuthError::InvalidToken(own("Claims hold a number that is not a 64-bit integer"))),
        Ok(Some(v)) => match Claims::from_json(&v) {
            Some(c) => Ok(c),
            None => Err(AuthError::InvalidToken(own("Claims are not well formed"))),
        },
    }
}

/// The permissions of a context with `roles`.
pub fn permissions_for(roles: &Vec<String>) -> (p: Vec<Permission>)
    ensures
        p@ == role_permissions(strings_view(roles@)),
{
    let ghost rv = strings_view(roles@);
    let c = AuthContext { user_id: String::new(), roles: crate::text::copy_strings(roles), permissions: Vec::new(), metadata: StrMap::new(), expires_at: 0, issued_at: 0 };
    let is_admin = c.has_role("admin");
    let is_dev = c.has_role("developer");
    let is_user = c.has_role("user");
    proof {
        assert(strings_view(c.roles@) == rv);
        assert(is_admin == rv.contains("admin"@)) by {
            if is_admin {
                let i = choose|i: int| 0 <= i < c.roles@.len() && #[trigger] c.roles@[i]@ == "admin"@;
                assert(rv[i] == c.roles@[i]@);
            }
            if rv.contains("admin"@) {
                let i = choose|i: int| 0 <= i < rv.len() && rv[i] == "admin"@;
                assert(c.roles@[i]@ == rv[i]);
            }
        }
        assert(is_dev == rv.contains("developer"@)) by {
            if is_dev {
                let i = choose|i: int| 0 <= i < c.roles@.len() && #[trigger] c.roles@[i]@ == "developer"@;
                assert(rv[i] == c.roles@[i]@);
            }
            if rv.contains("developer"@) {
                let i = choose|i: int| 0 <= i < rv.len() && rv[i] == "developer"@;
                assert(c.roles@[i]@ == rv[i]);
            }
        }
        assert(is_user == rv.contains("user"@)) by {
            if is_user {
                let i = choose|i: int| 0 <= i < c.roles@.len() && #[trigger] c.roles@[i]@ == "user"@;
                assert(rv[i] == c.roles@[i]@);
            }
            if rv.contains("user"@) {
                let i = choose|i: int| 0 <= i < rv.len() && rv[i] == "user"@;
                assert(c.roles@[i]@ == rv[i]);
            }
        }
    }
    let mut p: Vec<Permission> = Vec::new();
    if is_admin {
        p.push(Permission::ExecuteGraph);
        p.push(Permission::CreateGraph);
        p.push(Permission::ModifyGraph);
        p.push(Permission::DeleteGraph);
        p.push(Permission::ReadState);
        p.push(Permission::WriteState);
        p.push(Permission::ManageCheckpoints);
        p.push(Permission::ViewAuditLogs);
    } else if is_dev || is_user {
        p.push(Permission::ExecuteGraph);
        p.push(Permission::ReadState);
    }
    assert(p@ =~= role_permissions(rv));
    p
}

impl JwtAuthenticator {
    /// An authenticator signing with `secret` for `issuer` and `audience`,
    /// whose access tokens last `access_token_expiration` seconds and
    /// refresh tokens 30 days.
    pub fn new(secret: &[u8], issuer: String, audience: String, access_token_expiration: i64) -> (a: JwtAuthenticator)
        ensures
            a.secret@ == secret@,
            a.issuer == issuer,
            a.audience == audience,
            a.access_token_expiration == access_token_expiration,
            a.refresh_token_expiration == REFRESH_LIFETIME_SECS,
            a.revoked_tokens.map().len() == 0,
            a.rotation_tracker.map().len() == 0,
            a.metric_events@.len() == 0,
    {
        let a = JwtAuthenticator {
            secret: copy_bytes(secret),
            issuer,
            audience,
            access_token_expiration,
            refresh_token_expiration: REFRESH_LIFETIME_SECS,
            revoked_tokens: StrMap::new(),
            rotation_tracker: StrMap::new(),
            metric_events: Vec::new(),
        };
        assert(a.revoked_tokens.map() =~= Map::empty());
        assert(a.rotation_tracker.map() =~= Map::empty());
        a
    }

    /// A token of `token_type` for `user_id`, issued at `now` with id `jti`,
    /// lasting `lifetime` seconds; the signing error where signing fails.
    pub fn token_at(
        &self,
        user_id: &str,
        roles: Vec<String>,
        metadata: StateData,
        now: i64,
        lifetime: i64,
        jti: String,
        token_type: &str,
    ) -> (r: AuthResult<String>)
        requires
            i64::MIN <= now + lifetime <= i64::MAX,
        ensures
            token_issued(*self, user_id@, strings_view(roles@), state_model(metadata), now, lifetime, token_type@, r),
    {
        let claims = Claims {
            sub: user_id.to_owned(),
            iss: self.issuer.clone(),
            aud: self.audience.clone(),
            exp: now + lifetime,
            iat: now,
            jti,
            roles,
            metadata,
            token_type: token_type.to_owned(),
        };
        let v = claims.to_json();
        assert(issued_claims(v@, user_id@, strings_view(roles@), state_model(metadata), self.issuer@, self.audience@, now, lifetime, token_type@));
        let r = match jwt_encode(&v, self.secret.as_slice()) {
            Ok(t) => Ok(t),
            Err(e) => Err(AuthError::TokenGenerationFailed(e)),
        };
        assert(signed_result(v@, signing(*self).0, r));
        assert(issued_claims(v@, user_id@, strings_view(roles@), state_model(metadata), signing(*self).1, signing(*self).2, now, lifetime, token_type@));
        r
    }

    /// An access token for `user_id`, issued now with a fresh id.
    pub fn generate_token(&self, user_id: &str, roles: Vec<String>, metadata: StateData) -> (r: AuthResult<String>)
        ensures
            exists|now: i64|
                0 <= now && #[trigger] token_issued(
                    *self,
                    user_id@,
                    strings_view(roles@),
                    state_model(metadata),
                    now,
                    self.access_token_expiration,
                    "access"@,
                    r,
                ),
    {
        let now = crate::clock::current_timestamp() as i64;
        if now > i64::MAX - self.access_token_expiration.max(0) || now < i64::MIN - self.access_token_expiration.min(0) {
            let r = Err(AuthError::TokenGenerationFailed(own("Token expiry out of range")));
            assert(token_issued(*self, user_id@, strings_view(roles@), state_model(metadata), now, self.access_token_expiration, "access"@, r));
            return r;
        }
        let r = self.token_at(user_id, roles, metadata, now, self.access_token_expiration, crate::engine::tracing::new_uuid_string(), "access");
        r
    }

    /// A refresh token for `user_id`, issued now with a fresh id.
    fn generate_refresh_token(&self, user_id: &str, roles: Vec<String>, metadata: StateData) -> (r: AuthResult<String>)
        ensures
            exists|now: i64|
                0 <= now && #[trigger] token_issued(
                    *self,
                    user_id@,
                    strings_view(roles@),
                    state_model(metadata),
                    now,
                    self.refresh_token_expiration,
                    "refresh"@,
                    r,
                ),
    {
        let now = crate::clock::current_timestamp() as i64;
        if now > i64::MAX - self.refresh_token_expiration.max(0) || now < i64::MIN - self.refresh_token_expiration.min(0) {
            let r = Err(AuthError::TokenGenerationFailed(own("Token expiry out of range")));
            assert(token_issued(*self, user_id@, strings_view(roles@), state_model(metadata), now, self.refresh_token_expiration, "refresh"@, r));
            return r;
        }
        let r = self.token_at(user_id, roles, metadata, now, self.refresh_token_expiration, crate::engine::tracing::new_uuid_string(), "refresh");
        r
    }

    /// An access token and a refresh token for `user_id`, issued now.
    pub fn generate_token_pair(&self, user_id: &str, roles: Vec<String>, metadata: StateData) -> (r: AuthResult<TokenPair>)
        ensures
            r matches Ok(p) ==> p.expires_in == self.access_token_expiration && p.token_type@ == "Bearer"@,
            exists|n1: i64, n2: i64|
                0 <= n1 && 0 <= n2 && #[trigger] pair_issued(
                    *self,
                    user_id@,
                    strings_view(roles@),
                    state_model(metadata),
                    n1,
                    n2,
                    r,
                ),
    {
        let ghost u = user_id@;
        let ghost ro = strings_view(roles@);
        let ghost me = state_model(metadata);
        let ra = self.generate_token(user_id, crate::text::copy_strings(&roles), crate::state::clone_state(&metadata));
        let ghost n1 = choose|now: i64| 0 <= now && #[trigger] token_issued(*self, u, ro, me, now, self.access_token_expiration, "access"@, ra);
        let access = match ra {
            Ok(t) => t,
            Err(e) => {
                let r = Err(e);
                assert(pair_issued(*self, u, ro, me, n1, 0, r));
                return r;
            },
        };
        let rr = self.generate_refresh_token(user_id, roles, metadata);
        let ghost n2 = choose|now: i64| 0 <= now && #[trigger] token_issued(*self, u, ro, me, now, self.refresh_token_expiration, "refresh"@, rr);
        let refresh = match rr {
            Ok(t) => t,
            Err(e) => {
                let r = Err(e);
                assert(token_issued(*self, u, ro, me, n1, self.access_token_expiration, "access"@, Ok::<String, AuthError>(access)));
                assert(pair_issued(*self, u, ro, me, n1, n2, r));
                return r;
            },
        };
        let r = Ok(TokenPair::new(access, refresh, self.access_token_expiration));
        assert(pair_issued(*self, u, ro, me, n1, n2, r));
        r
    }

    /// Decodes and validates `token` against the clock.
    pub fn decode_token(&self, token: &str) -> (r: AuthResult<Claims>)
        ensures
            exists|d: Result<Option<JsonValue>, (bool, String)>| #[trigger] decoded_outcome(d, r),
    {
        let d = jwt_decode(token, self.secret.as_slice(), self.issuer.as_str(), self.audience.as_str());
        let ghost gd = d;
        let r = claims_from_decoded(d);
        assert(decoded_outcome(gd, r));
        r
    }

    /// The context of `claims`, at `now` milliseconds: the subject and
    /// roles, the token's expiry and issue times where they are dates (else
    /// now plus the access lifetime, and now), the metadata, and the
    /// permissions of the roles.
    pub fn claims_to_auth_context(&self, claims: Claims, now: i64) -> (c: AuthContext)
        requires
            0 <= now <= crate::security::auth::LATEST_ISSUE_MS,
            0 <= self.access_token_expiration <= 1_000_000_000_000,
            now + self.access_token_expiration * 1000 <= i64::MAX,
        ensures
            c.user_id@ == claims.sub@,
            strings_view(c.roles@) == strings_view(claims.roles@),
            c.expires_at == match datetime_millis(claims.exp) {
                Some(ms) => ms as int,
                None => now + self.access_token_expiration * 1000,
            },
            c.issued_at == match datetime_millis(claims.iat) {
                Some(ms) => ms,
                None => now,
            },
            c.metadata.map() == claims.metadata.map(),
            c.permissions@ == role_permissions(strings_view(claims.roles@)),
    {
        let permissions = permissions_for(&claims.roles);
        let mut c = AuthContext::new_at(claims.sub, claims.roles, now);
        c.expires_at = match millis_of_secs(claims.exp) {
            Some(ms) => ms,
            None => now + self.access_token_expiration * 1000,
        };
        c.issued_at = match millis_of_secs(claims.iat) {
            Some(ms) => ms,
            None => now,
        };
        c.metadata = claims.metadata;
        c.permissions = permissions;
        c
    }

    /// Forgets the rotated tokens whose record has run out at `now`, in the
    /// tracker and among the revoked.
    pub fn cleanup_expired_tokens(&mut self, now: i64)
        ensures
            final(self).rotation_tracker.map() == old(self).rotation_tracker.map().restrict(
                old(self).rotation_tracker.map().dom().filter(|k: Seq<char>| old(self).rotation_tracker.map()[k] >= now),
            ),
            final(self).revoked_tokens.map().dom() == old(self).revoked_tokens.map().dom().filter(
                |k: Seq<char>| !(old(self).rotation_tracker.map().contains_key(k) && old(self).rotation_tracker.map()[k] < now),
            ),
            final(self).metric_events == old(self).metric_events,
            final(self).secret == old(self).secret,
            final(self).issuer == old(self).issuer,
            final(self).audience == old(self).audience,
            final(self).access_token_expiration == old(self).access_token_expiration,
            final(self).refresh_token_expiration == old(self).refresh_token_expiration,
    {
        let ghost tracker = self.rotation_tracker.map();
        let ghost revoked = self.revoked_tokens.map();
        let mut to_remove: Vec<String> = Vec::new();
        let mut i: usize = 0;
        let ghost es = self.rotation_tracker.spec_entries();
        self.rotation_tracker.assert_unique();
        while i < self.rotation_tracker.len()
            invariant
                i <= es.len(),
                es == self.rotation_tracker.spec_entries(),
                tracker == self.rotation_tracker.map(),
                crate::keyed_map::keys_unique(es),
                forall|j: int| 0 <= j < to_remove@.len() ==> tracker.contains_key(#[trigger] to_remove@[j]@) && tracker[to_remove@[j]@] < now,
                self.metric_events == old(self).metric_events,
                forall|k: int| 0 <= k < i && es[k].1 < now ==> exists|j: int| 0 <= j < to_remove@.len() && #[trigger] to_remove@[j]@ == es[k].0,
            decreases es.len() - i,
        {
            proof {
                crate::keyed_map::lemma_entries_map_at(es, i as int);
            }
            let ghost before = to_remove@;
            if *self.rotation_tracker.value_at(i) < now {
                to_remove.push(self.rotation_tracker.key_at(i).clone());
                assert(to_remove@[to_remove@.len() - 1]@ == es[i as int].0);
            }
            assert forall|k: int| 0 <= k < i + 1 && es[k].1 < now implies exists|j: int| 0 <= j < to_remove@.len() && #[trigger] to_remove@[j]@ == es[k].0 by {
                if k < i {
                    let j = choose|j: int| 0 <= j < before.len() && #[trigger] before[j]@ == es[k].0;
                    assert(to_remove@[j] == before[j]);
                } else {
                    assert(to_remove@[to_remove@.len() - 1]@ == es[i as int].0);
                }
            }
            i = i + 1;
        }
        let mut j: usize = 0;
        while j < to_remove.len()
            invariant
                j <= to_remove@.len(),
                forall|k: int| 0 <= k < to_remove@.len() ==> tracker.contains_key(#[trigger] to_remove@[k]@) && tracker[to_remove@[k]@] < now,
                self.rotation_tracker.map() == tracker.remove_keys(Set::new(|s: Seq<char>| exists|k: int| 0 <= k < j && #[trigger] to_remove@[k]@ == s)),
                self.revoked_tokens.map() == revoked.remove_keys(Set::new(|s: Seq<char>| exists|k: int| 0 <= k < j && #[trigger] to_remove@[k]@ == s)),
                self.metric_events == old(self).metric_events,
                self.secret == old(self).secret,
                self.issuer == old(self).issuer,
                self.audience == old(self).audience,
                self.access_token_expiration == old(self).access_token_expiration,
                self.refresh_token_expiration == old(self).refresh_token_expiration,
            decreases to_remove@.len() - j,
        {
            let ghost t0 = self.rotation_tracker.map();
            let ghost r0 = self.revoked_tokens.map();
            self.rotation_tracker.remove(to_remove[j].as_str());
            self.revoked_tokens.remove(to_remove[j].as_str());
            proof {
                let s0 = Set::new(|s: Seq<char>| exists|k: int| 0 <= k < j && #[trigger] to_remove@[k]@ == s);
                let s1 = Set::new(|s: Seq<char>| exists|k: int| 0 <= k < j + 1 && #[trigger] to_remove@[k]@ == s);
                assert(s1 =~= s0.insert(to_remove@[j as int]@));
                assert(self.rotation_tracker.map() =~= tracker.remove_keys(s1));
                assert(self.revoked_tokens.map() =~= revoked.remove_keys(s1));
            }
            j = j + 1;
        }
        proof {
            let s = Set::new(|s: Seq<char>| exists|k: int| 0 <= k < to_remove@.len() && #[trigger] to_remove@[k]@ == s);
            assert forall|key: Seq<char>| tracker.contains_key(key) && tracker[key] < now implies s.contains(key) by {
                let k = crate::keyed_map::key_index(es, key);
                crate::keyed_map::lemma_entries_map_at(es, k);
            }
            assert(self.rotation_tracker.map() =~= tracker.restrict(tracker.dom().filter(|k: Seq<char>| tracker[k] >= now)));
            assert(self.revoked_tokens.map().dom() =~= revoked.dom().filter(
                |k: Seq<char>| !(tracker.contains_key(k) && tracker[k] < now),
            ));
        }
    }

    /// Revokes the token with id `jti`.
    pub fn revoke_token(&mut self, jti: String)
        ensures
            final(self).revoked_tokens.map().dom() == old(self).revoked_tokens.map().dom().insert(jti@),
            final(self).rotation_tracker == old(self).rotation_tracker,
            final(self).metric_events == old(self).metric_events,
            final(self).secret == old(self).secret,
            final(self).issuer == old(self).issuer,
            final(self).audience == old(self).audience,
            final(self).access_token_expiration == old(self).access_token_expiration,
            final(self).refresh_token_expiration == old(self).refresh_token_expiration,
    {
        self.revoked_tokens.insert(jti, ());
        assert(self.revoked_tokens.map().dom() =~= old(self).revoked_tokens.map().dom().insert(jti@));
    }

    /// Whether the token with id `jti` is revoked.
    pub fn is_token_revoked(&self, jti: &str) -> (b: bool)
        ensures
            b == self.revoked_tokens.map().contains_key(jti@),
    {
        self.revoked_tokens.contains_key(jti)
    }

    /// Rotates a decoded refresh token at `now` seconds: a token that is not
    /// a refresh token, or whose id is revoked, is refused; otherwise its id
    /// is revoked (so it cannot be used again), tracked until `now` plus
    /// the refresh lifetime, expired records are cleaned up, and a new
    /// token pair is issued for the same user.
    pub fn rotate(&mut self, claims: Claims, now: i64) -> (r: AuthResult<TokenPair>)
        requires
            0 <= old(self).refresh_token_expiration,
            now + old(self).refresh_token_expiration <= i64::MAX,
        ensures
            claims.token_type@ != "refresh"@ ==> r is Err && r->Err_0 is InvalidToken
                && r->Err_0->InvalidToken_0@ == "Expected refresh token"@
                && final(self).revoked_tokens == old(self).revoked_tokens
                && metric_views(final(self).metric_events@) == metric_views(old(self).metric_events@).push(
                    ("langgraph_token_refresh_total"@, seq![outcome(false)]),
                ),
            claims.token_type@ == "refresh"@ && old(self).revoked_tokens.map().contains_key(claims.jti@) ==> r is Err
                && r->Err_0 is InvalidToken && r->Err_0->InvalidToken_0@ == "Refresh token has been revoked"@
                && final(self).revoked_tokens == old(self).revoked_tokens
                && metric_views(final(self).metric_events@) == metric_views(old(self).metric_events@) + seq![
                    ("langgraph_security_events_total"@, seq!["token_reuse_attack"@, "high"@]),
                    ("langgraph_token_refresh_total"@, seq![outcome(false)]),
                ],
            claims.token_type@ == "refresh"@ && !old(self).revoked_tokens.map().contains_key(claims.jti@) ==> {
                &&& final(self).revoked_tokens.map().contains_key(claims.jti@)
                &&& final(self).rotation_tracker.map().contains_key(claims.jti@)
                &&& final(self).rotation_tracker.map()[claims.jti@] == now + old(self).refresh_token_expiration
                &&& r matches Ok(p) ==> p.expires_in == old(self).access_token_expiration
            },
            rotated(*old(self), claims, r),
    {
        let expiry = now + self.refresh_token_expiration;
        if !str_eq(claims.token_type.as_str(), "refresh") {
            self.metric_events.push(SecurityMetrics::record_token_refresh(false));
            return Err(AuthError::InvalidToken(own("Expected refresh token")));
        }
        if self.revoked_tokens.contains_key(claims.jti.as_str()) {
            let ghost before = metric_views(self.metric_events@);
            self.metric_events.push(SecurityMetrics::record_security_event("token_reuse_attack", "high"));
            self.metric_events.push(SecurityMetrics::record_token_refresh(false));
            assert(metric_views(self.metric_events@) =~= before + seq![
                ("langgraph_security_events_total"@, seq!["token_reuse_attack"@, "high"@]),
                ("langgraph_token_refresh_total"@, seq![outcome(false)]),
            ]);
            return Err(AuthError::InvalidToken(own("Refresh token has been revoked")));
        }
        self.revoke_token(claims.jti.clone());
        self.metric_events.push(SecurityMetrics::record_token_revocation("rotation"));
        self.rotation_tracker.insert(claims.jti.clone(), expiry);
        let ghost tracker = self.rotation_tracker.map();
        let ghost revoked = self.revoked_tokens.map();
        assert(tracker[claims.jti@] == expiry && revoked.contains_key(claims.jti@));
        self.cleanup_expired_tokens(now);
        assert(self.revoked_tokens.map().dom().contains(claims.jti@));
        assert(self.rotation_tracker.map().dom().contains(claims.jti@));
        let ghost u = claims.sub@;
        let ghost ro = strings_view(claims.roles@);
        let ghost me = state_model(claims.metadata);
        let gp = self.generate_token_pair(claims.sub.as_str(), claims.roles, claims.metadata);
        let ghost (n1, n2) = choose|n1: i64, n2: i64| 0 <= n1 && 0 <= n2 && #[trigger] pair_issued(*self, u, ro, me, n1, n2, gp);
        proof {
            assert(signing(*self) == signing(*old(self)));
            assert(pair_issued(*old(self), u, ro, me, n1, n2, gp));
        }
        let pair = match gp {
            Ok(p) => p,
            Err(e) => {
                return Err(e);
            },
        };
        self.metric_events.push(SecurityMetrics::record_token_refresh(true));
        self.metric_events.push(SecurityMetrics::record_token_operation("refresh", true));
        Ok(pair)
    }
}

impl Authenticator for JwtAuthenticator {
    /// Authenticates a JWT access token, validated against the clock.
    fn authenticate(&mut self, credentials: &Credentials) -> (r: AuthResult<AuthContext>)
        ensures
            !(*credentials is JwtToken) ==> r is Err && r->Err_0 is InvalidCredentials,
            *credentials is JwtToken ==> exists|dr: AuthResult<Claims>| #[trigger] token_checked(*old(self), dr, r, true),
            *final(self) == *old(self),
    {
        let token = match credentials {
            Credentials::JwtToken(t) => t,
            _ => {
                return Err(AuthError::InvalidCredentials);
            },
        };
        let dr = self.decode_token(token.as_str());
        let ghost gdr = dr;
        let claims = match dr {
            Ok(c) => c,
            Err(e) => {
                let r = Err(e);
                assert(token_checked(*self, gdr, r, true));
                return r;
            },
        };
        if !str_eq(claims.token_type.as_str(), "access") {
            let r = Err(AuthError::InvalidToken(own("Expected access token")));
            assert(token_checked(*self, gdr, r, true));
            return r;
        }
        let r = self.context_now(claims);
        assert(token_checked(*self, gdr, r, true));
        r
    }

    /// Validates an access or a refresh token.
    fn validate_token(&mut self, token: &str) -> (r: AuthResult<AuthContext>)
        ensures
            exists|dr: AuthResult<Claims>| #[trigger] token_checked(*old(self), dr, r, false),
            *final(self) == *old(self),
    {
        let dr = self.decode_token(token);
        let ghost gdr = dr;
        let claims = match dr {
            Ok(c) => c,
            Err(e) => {
                let r = Err(e);
                assert(token_checked(*self, gdr, r, false));
                return r;
            },
        };
        let r = self.context_now(claims);
        assert(token_checked(*self, gdr, r, false));
        r
    }

    /// Exchanges a refresh token, once, for a new token pair.
    fn refresh_token(&mut self, refresh_token: &str) -> (r: AuthResult<TokenPair>)
        ensures
            exists|dr: AuthResult<Claims>|
                (exists|d: Result<Option<JsonValue>, (bool, String)>| #[trigger] decoded_outcome(d, dr))
                && #[trigger] refresh_answer(*old(self), dr, r),
    {
        let dr = self.decode_token(refresh_token);
        let ghost gdr = dr;
        let ghost a = *self;
        let claims = match dr {
            Ok(c) => c,
            Err(e) => {
                self.metric_events.push(SecurityMetrics::record_token_refresh(false));
                let r = Err(e);
                assert(refresh_answer(a, gdr, r));
                return r;
            },
        };
        let now = crate::clock::current_timestamp() as i64;
        if self.refresh_token_expiration < 0 || now > i64::MAX - self.refresh_token_expiration {
            let r = Err(AuthError::TokenGenerationFailed(own("Token expiry out of range")));
            proof {
                if a.refresh_token_expiration >= 0 {
                    assert(refreshed_at(a, gdr->Ok_0, now, r));
                }
            }
            assert(refresh_answer(a, gdr, r));
            return r;
        }
        let r = self.rotate(claims, now);
        assert(refreshed_at(a, gdr->Ok_0, now, r));
        assert(refresh_answer(a, gdr, r));
        r
    }
}

impl JwtAuthenticator {
    /// The context of `claims` at the clock's time; an error where the
    /// access lifetime is out of range.
    fn context_now(&self, claims: Claims) -> (r: AuthResult<AuthContext>)
        ensures
            context_result(*self, claims, r),
    {
        let now = crate::clock::now_millis();
        if self.access_token_expiration < 0 || self.access_token_expiration > 1_000_000_000_000 {
            return Err(AuthError::InvalidToken(own("Access token lifetime out of range")));
        }
        let ghost gc = claims;
        let c = self.claims_to_auth_context(claims, now);
        let r = Ok(c);
        assert(context_of(*self, gc, now, r->Ok_0));
        r
    }
}

} // verus!
