//! Sign-in decisions: the outcome of a login form and of a service login, the session
//! cookie, and when failed logins or request floods switch on Cloudflare's
//! Under Attack Mode.
use vstd::prelude::*;
use crate::text;

verus! {

/// The body of a service login request.
#[derive(Debug)]
pub struct ServiceLoginBody {
    pub username: Option<String>,
}

/// The account a service login signs in as: the trimmed requested name, or `root`
/// when none or a blank one is given.
pub open spec fn spec_service_login_username(u: Option<Seq<char>>) -> Seq<char> {
    match u {
        Some(x) => if text::trim(x).len() > 0 {
            text::trim(x)
        } else {
            "root"@
        },
        None => "root"@,
    }
}

/// The account a service login signs in as.
pub fn service_login_username(body: &ServiceLoginBody) -> (r: String)
    ensures
        r@ == spec_service_login_username(text::opt_string_view(body.username)),
{
    match &body.username {
        Some(u) => {
            let t = text::trimmed_string(u.as_str());
            if t.as_str().unicode_len() > 0 {
                t
            } else {
                String::from_str("root")
            }
        },
        None => String::from_str("root"),
    }
}

/// The role permission a service account needs.
pub fn service_api_permission() -> (r: &'static str)
    ensures
        r@ == "admin.access"@,
{
    "admin.access"
}

/// How a service login ends.
#[derive(Debug, Clone, Copy, PartialEq, Eq, Structural)]
pub enum ServiceLoginOutcome {
    /// The API key is missing or wrong.
    InvalidApiKey,
    /// No account has the requested name or uid.
    UserNotFound,
    /// The account's role lacks API access.
    NoApiAccess,
    /// A session is issued.
    Granted,
}

/// The outcome of a service login: the API key is checked first, then the account,
/// then its role.
pub open spec fn spec_service_login_outcome(authorized: bool, user_found: bool, has_api_access: bool) -> ServiceLoginOutcome {
    if !authorized {
        ServiceLoginOutcome::InvalidApiKey
    } else if !user_found {
        ServiceLoginOutcome::UserNotFound
    } else if !has_api_access {
        ServiceLoginOutcome::NoApiAccess
    } else {
        ServiceLoginOutcome::Granted
    }
}

/// The outcome of a service login.
pub fn service_login_outcome(authorized: bool, user_found: bool, has_api_access: bool) -> (r: ServiceLoginOutcome)
    ensures
        r == spec_service_login_outcome(authorized, user_found, has_api_access),
{
    if !authorized {
        ServiceLoginOutcome::InvalidApiKey
    } else if !user_found {
        ServiceLoginOutcome::UserNotFound
    } else if !has_api_access {
        ServiceLoginOutcome::NoApiAccess
    } else {
        ServiceLoginOutcome::Granted
    }
}

impl ServiceLoginOutcome {
    /// The HTTP status of the reply.
    pub fn status_code(&self) -> (r: u16)
        ensures
            r == (match *self {
                ServiceLoginOutcome::InvalidApiKey => 401u16,
                ServiceLoginOutcome::UserNotFound => 404u16,
                ServiceLoginOutcome::NoApiAccess => 403u16,
                ServiceLoginOutcome::Granted => 200u16,
            }),
    {
        match self {
            ServiceLoginOutcome::InvalidApiKey => 401,
            ServiceLoginOutcome::UserNotFound => 404,
            ServiceLoginOutcome::NoApiAccess => 403,
            ServiceLoginOutcome::Granted => 200,
        }
    }

    /// The error reported to the client, none when a session is issued.
    pub fn error_message(&self) -> (r: Option<&'static str>)
        ensures
            match *self {
                ServiceLoginOutcome::InvalidApiKey => r matches Some(m) && m@ == "Invalid API key"@,
                ServiceLoginOutcome::UserNotFound => r matches Some(m) && m@ == "User not found"@,
                ServiceLoginOutcome::NoApiAccess => r matches Some(m) && m@ == "User has no API access"@,
                ServiceLoginOutcome::Granted => r is None,
            },
    {
        match self {
            ServiceLoginOutcome::InvalidApiKey => Some("Invalid API key"),
            ServiceLoginOutcome::UserNotFound => Some("User not found"),
            ServiceLoginOutcome::NoApiAccess => Some("User has no API access"),
            ServiceLoginOutcome::Granted => None,
        }
    }

    /// The audit record written, as (action, details), if any.
    pub fn audit_entry(&self) -> (r: Option<(&'static str, &'static str)>)
        ensures
            match *self {
                ServiceLoginOutcome::InvalidApiKey => r matches Some(e) && e.0@ == "auth.service_login_denied"@ && e.1@ == "invalid_api_key"@,
                ServiceLoginOutcome::Granted => r matches Some(e) && e.0@ == "auth.service_login"@ && e.1@ == "third_party_api"@,
                _ => r is None,
            },
    {
        match self {
            ServiceLoginOutcome::InvalidApiKey => Some(("auth.service_login_denied", "invalid_api_key")),
            ServiceLoginOutcome::Granted => Some(("auth.service_login", "third_party_api")),
            _ => None,
        }
    }
}

/// How a login form ends.
#[derive(Debug, Clone, Copy, PartialEq, Eq, Structural)]
pub enum LoginOutcome {
    /// Too many recent failures from the address.
    Locked,
    /// The password matched: a session is issued.
    Success,
    /// The account is unknown or the password wrong.
    Failed,
}

/// The outcome of a login form: a locked-out address is refused before anything else.
pub fn login_outcome(locked: bool, password_ok: bool) -> (r: LoginOutcome)
    ensures
        r == (if locked {
            LoginOutcome::Locked
        } else if password_ok {
            LoginOutcome::Success
        } else {
            LoginOutcome::Failed
        }),
{
    if locked {
        LoginOutcome::Locked
    } else if password_ok {
        LoginOutcome::Success
    } else {
        LoginOutcome::Failed
    }
}

impl LoginOutcome {
    /// The audit action recorded.
    pub fn audit_action(&self) -> (r: &'static str)
        ensures
            r@ == (match *self {
                LoginOutcome::Locked => "auth.login_locked"@,
                LoginOutcome::Success => "auth.login"@,
                LoginOutcome::Failed => "auth.login_failed"@,
            }),
    {
        match self {
            LoginOutcome::Locked => "auth.login_locked",
            LoginOutcome::Success => "auth.login",
            LoginOutcome::Failed => "auth.login_failed",
        }
    }

    /// The error shown on the login page, none on success.
    pub fn error_message(&self) -> (r: Option<&'static str>)
        ensures
            match *self {
                LoginOutcome::Locked => r matches Some(m) && m@ == "Too many login attempts. Please try again later."@,
                LoginOutcome::Success => r is None,
                LoginOutcome::Failed => r matches Some(m) && m@ == "Invalid username or password."@,
            },
    {
        match self {
            LoginOutcome::Locked => Some("Too many login attempts. Please try again later."),
            LoginOutcome::Success => None,
            LoginOutcome::Failed => Some("Invalid username or password."),
        }
    }

    /// The HTTP status of the login page: 429 when locked out, else 200.
    pub fn status_code(&self) -> (r: u16)
        ensures
            r == (if *self == LoginOutcome::Locked { 429u16 } else { 200u16 }),
    {
        match self {
            LoginOutcome::Locked => 429,
            _ => 200,
        }
    }
}

/// The name stored in the session of a successful login: the account's username when
/// it was found, else the trimmed name typed in the form.
pub fn login_session_username(found_username: Option<String>, form_username: &str) -> (r: String)
    ensures
        r@ == (match found_username {
            Some(u) => u@,
            None => text::trim(form_username@),
        }),
{
    match found_username {
        Some(u) => u,
        None => text::trimmed_string(form_username),
    }
}

/// The attributes of the session cookie.
pub struct SessionCookiePolicy {
    pub http_only: bool,
    pub secure: bool,
    /// `SameSite=Strict`.
    pub same_site_strict: bool,
    pub path: &'static str,
    pub max_age_days: i64,
}

/// The session cookie is HTTP-only, secure, same-site strict, for the whole site, and
/// lasts seven days.
pub fn session_cookie_policy() -> (r: SessionCookiePolicy)
    ensures
        r.http_only && r.secure && r.same_site_strict,
        r.path@ == "/"@,
        r.max_age_days == 7,
{
    SessionCookiePolicy { http_only: true, secure: true, same_site_strict: true, path: "/", max_age_days: 7 }
}

// ───────────────────────── Under Attack Mode ─────────────────────────

/// A numeric setting as `parse().unwrap_or(default)` reads it, for a type whose
/// largest value is `max`.
pub open spec fn spec_setting_or(setting: Seq<char>, default: nat, max: nat) -> nat {
    match text::parse_unsigned(setting, max) {
        Some(v) => v,
        None => default,
    }
}

/// A numeric setting, or `default` when it does not parse.
pub fn setting_or(setting: &str, default: u64, max: u64) -> (r: u64)
    requires
        default <= max,
    ensures
        r == spec_setting_or(setting@, default as nat, max as nat),
        r <= max,
{
    let v = text::chars_of(setting);
    match text::parse_unsigned_chars(&v, max) {
        Some(x) => x,
        None => default,
    }
}

/// A numeric setting stored in decimal form reads back as the number stored, when it
/// fits the type.
pub proof fn lemma_setting_reads_back(n: nat, default: nat, max: nat)
    requires
        n <= max,
    ensures
        spec_setting_or(text::decimal(n), default, max) == n,
{
    text::lemma_parse_decimal(n, max);
}

/// The failed-login record of one address: its count of failures and the seconds since
/// the last one.
pub struct LoginAttempts {
    pub failures: u64,
    pub seconds_since_last: u64,
}

/// The addresses with a failure within the window.
pub open spec fn recent_failing(attempts: Seq<LoginAttempts>, window_secs: u64) -> nat
    decreases attempts.len(),
{
    if attempts.len() == 0 {
        0
    } else {
        recent_failing(attempts.drop_last(), window_secs) + if attempts.last().failures >= 1
            && attempts.last().seconds_since_last <= window_secs {
            1nat
        } else {
            0nat
        }
    }
}

/// Whether failed logins switch on Under Attack Mode, and how many addresses failed:
/// the feature must be enabled with an API token and a zone, the number of addresses
/// with a failure within the window must reach the threshold setting (5 when it does not
/// parse), and the mode must not already have been switched on automatically.
pub open spec fn spec_login_uam_trigger(
    enabled: bool,
    token: Seq<char>,
    zone_id: Seq<char>,
    threshold_setting: Seq<char>,
    attempts: Seq<LoginAttempts>,
    window_secs: u64,
    already_triggered: bool,
) -> Option<nat> {
    if !enabled || token.len() == 0 || zone_id.len() == 0 {
        None
    } else if recent_failing(attempts, window_secs) < spec_setting_or(threshold_setting, 5, usize::MAX as nat) {
        None
    } else if already_triggered {
        None
    } else {
        Some(recent_failing(attempts, window_secs))
    }
}

/// Whether failed logins switch on Under Attack Mode; the number of failing addresses
/// when they do.
pub fn login_uam_trigger(
    enabled: bool,
    token: &str,
    zone_id: &str,
    threshold_setting: &str,
    attempts: &Vec<LoginAttempts>,
    window_secs: u64,
    already_triggered: bool,
) -> (r: Option<usize>)
    ensures
        match spec_login_uam_trigger(enabled, token@, zone_id@, threshold_setting@, attempts@, window_secs, already_triggered) {
            Some(n) => r == Some(n as usize),
            None => r is None,
        },
{
    if !enabled || token.unicode_len() == 0 || zone_id.unicode_len() == 0 {
        return None;
    }
    let threshold = setting_or(threshold_setting, 5, usize::MAX as u64);
    let mut count: usize = 0;
    let mut i: usize = 0;
    assert(attempts@.subrange(0, 0) =~= Seq::<LoginAttempts>::empty());
    while i < attempts.len()
        invariant
            i <= attempts@.len(),
            count == recent_failing(attempts@.subrange(0, i as int), window_secs),
            count <= i,
        decreases attempts@.len() - i,
    {
        proof {
            assert(attempts@.subrange(0, i + 1).drop_last() =~= attempts@.subrange(0, i as int));
            assert(attempts@.subrange(0, i + 1).last() == attempts@[i as int]);
        }
        if attempts[i].failures >= 1 && attempts[i].seconds_since_last <= window_secs {
            count = count + 1;
        }
        i = i + 1;
    }
    assert(attempts@.subrange(0, attempts@.len() as int) =~= attempts@);
    if (count as u64) < threshold {
        return None;
    }
    if already_triggered {
        return None;
    }
    Some(count)
}

/// The audit details of an automatic switch after failed logins.
pub fn login_uam_audit_detail(distinct_ips: usize) -> (r: String)
    ensures
        r@ == text::decimal(distinct_ips as nat) + " distinct IPs"@,
{
    let mut r = text::u64_to_string(distinct_ips as u64);
    r.append(" distinct IPs");
    r
}

/// The flood limits: requests per minute that make an address count as flooding
/// (200 when the setting does not parse as a `u32`) and the number of flooding
/// addresses that triggers the mode (2 when it does not parse).
pub fn l7_limits(threshold_setting: &str, min_ips_setting: &str) -> (r: (u32, usize))
    ensures
        r.0 as nat == spec_setting_or(threshold_setting@, 200, u32::MAX as nat),
        r.1 as nat == spec_setting_or(min_ips_setting@, 2, usize::MAX as nat),
{
    let t = setting_or(threshold_setting, 200, u32::MAX as u64);
    let m = setting_or(min_ips_setting, 2, usize::MAX as u64);
    (t as u32, m as usize)
}

/// Whether a request flood switches on Under Attack Mode: both the mode and flood
/// protection must be enabled with an API token and a zone, at least `min_ips`
/// addresses must be flooding, and the mode must not already have been switched on
/// automatically.
pub fn l7_uam_trigger(
    uam_enabled: bool,
    l7_enabled: bool,
    token: &str,
    zone_id: &str,
    attacking: usize,
    min_ips: usize,
    already_triggered: bool,
) -> (r: bool)
    ensures
        r == (uam_enabled && l7_enabled && token@.len() > 0 && zone_id@.len() > 0 && attacking >= min_ips
            && !already_triggered),
{
    uam_enabled && l7_enabled && token.unicode_len() > 0 && zone_id.unicode_len() > 0 && attacking
        >= min_ips && !already_triggered
}

/// The audit details of an automatic switch after a flood.
pub fn l7_uam_audit_detail(attacking: usize, threshold: u32) -> (r: String)
    ensures
        r@ == text::decimal(attacking as nat) + " IPs flooding >"@ + text::decimal(threshold as nat) + "/min"@,
{
    let mut r = text::u64_to_string(attacking as u64);
    r.append(" IPs flooding >");
    text::push_decimal(&mut r, threshold as u64);
    r.append("/min");
    r
}

} // verus!
