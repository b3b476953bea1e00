use vstd::prelude::*;

verus! {

/// The claims a token carries.
#[derive(Debug)]
pub struct Claims {
    /// The subject (user id).
    pub sub: String,
    /// The role: admin, operator or viewer.
    pub role: String,
    /// Expiry time, in seconds since the Unix epoch.
    pub exp: i64,
    /// Issue time, in seconds since the Unix epoch.
    pub iat: i64,
}

/// A login form.
#[derive(Debug)]
pub struct LoginRequest {
    pub username: String,
    pub password: String,
}

/// A login's answer: the token and how long it lasts, in seconds.
#[derive(Debug)]
pub struct LoginResponse {
    pub token: String,
    pub expires_in: i64,
}

/// A request to blacklist an IP address.
#[derive(Debug)]
pub struct BlacklistRequest {
    pub ip: String,
    pub reason: String,
}

/// A request to set the base fee.
#[derive(Debug)]
pub struct UpdateFeeRequest {
    pub base_fee: u64,
}

/// How long a login's token lasts, in seconds: a day.
pub const LOGIN_EXPIRES_IN: i64 = 86400;

/// Signs and checks admin tokens with a secret key.
pub struct AdminAuth {
    secret_key: String,
    token_validity_hours: i64,
}

/// Whether claims grant `required`: their role is it, or admin (which has every role).
pub open spec fn grants(role: Seq<char>, required: Seq<char>) -> bool {
    role == required || role == "admin"@
}

impl AdminAuth {
    pub closed spec fn secret(&self) -> Seq<char> {
        self.secret_key@
    }

    pub closed spec fn validity_hours(&self) -> i64 {
        self.token_validity_hours
    }

    /// Tokens signed with `secret_key`, valid for a day.
    pub fn new(secret_key: String) -> (a: Self)
        ensures
            a.secret() == secret_key@,
            a.validity_hours() == 24,
    {
        AdminAuth { secret_key, token_validity_hours: 24 }
    }

    /// The key tokens are signed with.
    pub fn secret_key(&self) -> (s: &String)
        ensures
            s@ == self.secret(),
    {
        &self.secret_key
    }

    /// How many hours a token is valid.
    pub fn token_validity_hours(&self) -> (h: i64)
        ensures
            h == self.validity_hours(),
    {
        self.token_validity_hours
    }

    /// The claims of a token for `user_id` in `role` issued at `now` (seconds since the
    /// epoch): it expires after the validity hours.
    pub fn claims_at(&self, user_id: &str, role: &str, now: i64) -> (c: Claims)
        requires
            0 <= self.validity_hours() <= 1_000_000,
            now + self.validity_hours() * 3600 <= i64::MAX,
        ensures
            c.sub@ == user_id@,
            c.role@ == role@,
            c.iat == now,
            c.exp == now + self.validity_hours() * 3600,
    {
        Claims {
            sub: user_id.to_owned(),
            role: role.to_owned(),
            exp: now + self.token_validity_hours * 3600,
            iat: now,
        }
    }

    /// Whether verified claims grant `required_role` (see `grants`); no claims grant nothing.
    /// The claims are those a token was decoded into with this key, if it checked out.
    pub fn has_role(&self, verified: &Option<Claims>, required_role: &str) -> (b: bool)
        ensures
            b == (verified matches Some(c) && grants(c.role@, required_role@)),
    {
        match verified {
            Some(c) => {
                let required = required_role.to_owned();
                let admin = "admin".to_owned();
                c.role == required || c.role == admin
            },
            None => false,
        }
    }
}

impl Default for AdminAuth {
    /// The development key, to be changed in production.
    fn default() -> (a: Self)
        ensures
            a.secret() == "change-this-secret-in-production"@,
            a.validity_hours() == 24,
    {
        Self::new("change-this-secret-in-production".to_owned())
    }
}

/// Whether a login is accepted: the demo account admin/admin.
pub fn valid_login(request: &LoginRequest) -> (b: bool)
    ensures
        b == (request.username@ == "admin"@ && request.password@ == "admin"@),
{
    let admin = "admin".to_owned();
    request.username == admin && request.password == admin
}

/// What an admin endpoint does with a request.
#[derive(Debug, Clone, Copy, PartialEq, Eq, Structural)]
pub enum AccessDecision {
    /// No token came with the request.
    Unauthorized,
    /// The token does not grant the admin role.
    Forbidden,
    /// Go ahead.
    Allowed,
}

/// The scheme an `Authorization` header names a token with.
pub open spec fn bearer_prefix() -> Seq<char> {
    "Bearer "@
}

/// The token of an `Authorization` header: what follows `Bearer `, when the header starts
/// with it.
pub fn bearer_token(header: &str) -> (r: Option<String>)
    ensures
        match r {
            Some(t) => header@.len() >= 7 && header@.subrange(0, 7) == bearer_prefix() && t@
                == header@.subrange(7, header@.len() as int),
            None => !(header@.len() >= 7 && header@.subrange(0, 7) == bearer_prefix()),
        },
{
    let prefix = "Bearer ";
    proof {
        reveal_strlit("Bearer ");
    }
    let n = header.unicode_len();
    if n < 7 {
        return None;
    }
    let mut i: usize = 0;
    while i < 7
        invariant
            n == header@.len(),
            n >= 7,
            prefix@ == bearer_prefix(),
            prefix@.len() == 7,
            0 <= i <= 7,
            forall|j: int| 0 <= j < i ==> header@[j] == prefix@[j],
        decreases 7 - i,
    {
        if header.get_char(i) != prefix.get_char(i) {
            assert(header@.subrange(0, 7)[i as int] != bearer_prefix()[i as int]);
            return None;
        }
        i = i + 1;
    }
    assert(header@.subrange(0, 7) =~= bearer_prefix());
    Some(header.substring_char(7, n).to_string())
}

impl AdminAuth {
    /// The decision of an admin-only endpoint: without a token the request is unauthorized;
    /// with one, it goes ahead when the token's verified claims grant the admin role and is
    /// forbidden otherwise. `verified` is what the token was decoded into with this key.
    pub fn admin_access(&self, token: &Option<String>, verified: &Option<Claims>) -> (d: AccessDecision)
        ensures
            token is None ==> d == AccessDecision::Unauthorized,
            token is Some ==> (d == AccessDecision::Allowed <==> (verified matches Some(c) && grants(c.role@, "admin"@))),
            token is Some ==> d != AccessDecision::Unauthorized,
    {
        match token {
            None => AccessDecision::Unauthorized,
            Some(_) => {
                if self.has_role(verified, "admin") {
                    AccessDecision::Allowed
                } else {
                    AccessDecision::Forbidden
                }
            },
        }
    }
}

/// Roles: the admin role grants every role, and any other role grants exactly itself, so
/// only an admin gets into the admin endpoints.
pub proof fn lemma_role_grants(role: Seq<char>, required: Seq<char>)
    ensures
        role == "admin"@ ==> grants(role, required),
        role != "admin"@ ==> (grants(role, required) <==> role == required),
        grants(role, "admin"@) <==> role == "admin"@,
{
}

/// The header `Bearer <t>` carries the token `t`: what a header made of the scheme and a
/// token gives back is that token.
pub proof fn lemma_bearer_round_trip(t: Seq<char>)
    ensures
        ({
            let h = bearer_prefix() + t;
            &&& h.len() >= 7
            &&& h.subrange(0, 7) == bearer_prefix()
            &&& h.subrange(7, h.len() as int) == t
        }),
{
    reveal_strlit("Bearer ");
    let h = bearer_prefix() + t;
    assert(h.subrange(0, 7) =~= bearer_prefix());
    assert(h.subrange(7, h.len() as int) =~= t);
}

} // verus!
