//! The provider boundary: the error taxonomy shared by every completion
//! backend, the classification of HTTP failures into it, and the generic
//! retry policy with bounded exponential backoff.

use vstd::prelude::*;
use crate::dec::{all_digits, dec_value, parse_u64};
use crate::strutil::chars_of;

verus! {

/// Token accounting reported by a provider for one completion.
#[derive(Clone, Copy, Debug, PartialEq, Eq, Structural)]
pub struct Usage {
    pub input_tokens: u64,
    pub output_tokens: u64,
    pub total_tokens: u64,
}

impl Default for Usage {
    /// No tokens counted yet.
    fn default() -> (u: Usage)
        ensures
            u.input_tokens == 0,
            u.output_tokens == 0,
            u.total_tokens == 0,
    {
        Usage { input_tokens: 0, output_tokens: 0, total_tokens: 0 }
    }
}

impl Usage {
    /// Field-wise sum, saturating at the counter limits.
    pub fn saturating_add(self, other: Usage) -> (u: Usage)
        ensures
            u.input_tokens == self.input_tokens.saturating_add(other.input_tokens),
            u.output_tokens == self.output_tokens.saturating_add(other.output_tokens),
            u.total_tokens == self.total_tokens.saturating_add(other.total_tokens),
    {
        Usage {
            input_tokens: self.input_tokens.saturating_add(other.input_tokens),
            output_tokens: self.output_tokens.saturating_add(other.output_tokens),
            total_tokens: self.total_tokens.saturating_add(other.total_tokens),
        }
    }
}

/// Why a provider call failed.
///
/// `RateLimited` and `ServerError` are the transient kinds a retry policy may
/// try again; `Authentication` and `RequestFailed` are not retried;
/// `ContextLengthExceeded` ends the whole reply invocation.
#[derive(Clone, Debug, PartialEq, Eq)]
pub enum ProviderError {
    ContextLengthExceeded(String),
    RateLimited(String),
    ServerError(String),
    Authentication(String),
    RequestFailed(String),
    ExecutionError(String),
}

/// Which error kinds a retry policy may try again.
pub open spec fn spec_is_retryable(e: &ProviderError) -> bool {
    e is RateLimited || e is ServerError
}

impl ProviderError {
    /// May a retry policy try this failure again?
    pub fn is_retryable(&self) -> (r: bool)
        ensures
            r == spec_is_retryable(self),
    {
        match self {
            ProviderError::RateLimited(_) => true,
            ProviderError::ServerError(_) => true,
            _ => false,
        }
    }

    /// The reason carried with the failure, whatever its kind.
    pub fn reason(&self) -> (r: &String)
        ensures
            r@ == spec_reason(self),
    {
        match self {
            ProviderError::ContextLengthExceeded(m) => m,
            ProviderError::RateLimited(m) => m,
            ProviderError::ServerError(m) => m,
            ProviderError::Authentication(m) => m,
            ProviderError::RequestFailed(m) => m,
            ProviderError::ExecutionError(m) => m,
        }
    }
}

/// The reason character sequence carried by a provider error.
pub open spec fn spec_reason(e: &ProviderError) -> Seq<char> {
    match e {
        ProviderError::ContextLengthExceeded(m) => m@,
        ProviderError::RateLimited(m) => m@,
        ProviderError::ServerError(m) => m@,
        ProviderError::Authentication(m) => m@,
        ProviderError::RequestFailed(m) => m@,
        ProviderError::ExecutionError(m) => m@,
    }
}

/// ASCII lower casing of one character.
pub open spec fn to_lower_char(c: char) -> char {
    if 'A' <= c && c <= 'Z' {
        ((c as u8) + 32) as char
    } else {
        c
    }
}

/// ASCII lower casing of a character sequence.
pub open spec fn to_lower(s: Seq<char>) -> Seq<char> {
    s.map_values(|c: char| to_lower_char(c))
}

/// Does `hay` contain `needle` as a contiguous run?
pub open spec fn contains_seq(hay: Seq<char>, needle: Seq<char>) -> bool {
    exists|k: int|
        0 <= k && k + needle.len() <= hay.len() && #[trigger] hay.subrange(k, k + needle.len())
            == needle
}

fn lower_chars(s: &Vec<char>) -> (r: Vec<char>)
    ensures
        r@ == to_lower(s@),
{
    let mut r: Vec<char> = Vec::new();
    let mut i: usize = 0;
    while i < s.len()
        invariant
            i <= s@.len(),
            r@ =~= to_lower(s@.take(i as int)),
        decreases s@.len() - i,
    {
        let c = s[i];
        let u = c as u32;
        let lc: char = if 65 <= u && u <= 90 {
            ((u as u8) + 32) as char
        } else {
            c
        };
        r.push(lc);
        proof {
            assert(to_lower(s@.take(i as int + 1)) =~= to_lower(s@.take(i as int)).push(
                to_lower_char(s@[i as int]),
            ));
        }
        i += 1;
    }
    proof {
        assert(s@.take(s@.len() as int) =~= s@);
    }
    r
}

fn contains(hay: &Vec<char>, needle: &Vec<char>) -> (r: bool)
    ensures
        r == contains_seq(hay@, needle@),
{
    if needle.len() > hay.len() {
        proof {
            assert(!contains_seq(hay@, needle@));
        }
        return false;
    }
    let mut k: usize = 0;
    while k <= hay.len() - needle.len()
        invariant
            needle@.len() <= hay@.len(),
            k <= hay@.len() - needle@.len() + 1,
            forall|k0: int|
                0 <= k0 < k ==> #[trigger] hay@.subrange(k0, k0 + needle@.len() as int)
                    != needle@,
        decreases hay@.len() - needle@.len() - k + 1,
    {
        let mut j: usize = 0;
        while j < needle.len() && hay[k + j] == needle[j]
            invariant
                j <= needle@.len(),
                needle@.len() <= hay@.len(),
                hay@.len() <= usize::MAX,
                k <= hay@.len() - needle@.len(),
                forall|j0: int| 0 <= j0 < j ==> hay@[k + j0] == needle@[j0],
            decreases needle@.len() - j,
        {
            j += 1;
        }
        if j == needle.len() {
            proof {
                assert(hay@.subrange(k as int, k as int + needle@.len() as int) =~= needle@);
            }
            return true;
        }
        proof {
            assert(hay@[k as int + j as int] != needle@[j as int]);
            assert(hay@.subrange(k as int, k as int + needle@.len() as int) != needle@) by {
                assert(hay@.subrange(k as int, k as int + needle@.len() as int)[j as int]
                    == hay@[k as int + j as int]);
            }
        }
        k += 1;
    }
    proof {
        assert(!contains_seq(hay@, needle@));
    }
    false
}

/// Does an HTTP 400 body message mark the request as over the context window?
pub open spec fn marks_context_exceeded(msg: Seq<char>) -> bool {
    contains_seq(to_lower(msg), "too long"@) || contains_seq(to_lower(msg), "too many"@)
}

/// Does a response body mark the request as over the context window?
pub open spec fn cle_body(body: &Option<String>) -> bool {
    body matches Some(b) && marks_context_exceeded(b@)
}

/// The text carried by a response body, empty when there is none.
pub open spec fn spec_body_text(body: &Option<String>) -> Seq<char> {
    match body {
        Some(b) => b@,
        None => Seq::<char>::empty(),
    }
}

/// Classify a failed HTTP completion call into the provider error taxonomy.
///
/// A bad request whose body message says the prompt was too long or had too
/// many tokens is a context-length overflow; authentication and permission
/// failures are fatal; too-many-requests is rate limiting; a server-side
/// status is transient.
pub fn classify_http_status(status: u16, body_message: Option<String>) -> (e: ProviderError)
    requires
        status != 200,
    ensures
        match e {
            ProviderError::ContextLengthExceeded(m) => {
                &&& status == 400
                &&& cle_body(&body_message)
                &&& m@ == spec_body_text(&body_message)
            },
            ProviderError::Authentication(m) => (status == 401 || status == 403) && m@
                == spec_body_text(&body_message),
            ProviderError::RateLimited(m) => status == 429 && m@ == spec_body_text(&body_message),
            ProviderError::ServerError(m) => 500 <= status < 600 && m@ == spec_body_text(
                &body_message,
            ),
            ProviderError::RequestFailed(m) => (status == 400 ==> !cle_body(&body_message)) && m@
                == spec_body_text(&body_message),
            ProviderError::ExecutionError(m) => false,
        },
        (status == 400 && cle_body(&body_message)) ==> e is ContextLengthExceeded,
        (status == 401 || status == 403) ==> e is Authentication,
        status == 429 ==> e is RateLimited,
        (500 <= status < 600) ==> e is ServerError,
{
    if status == 400 {
        match body_message {
            Some(b) => {
                let lowered = lower_chars(&chars_of(b.as_str()));
                let long_marker = chars_of("too long");
                let many_marker = chars_of("too many");
                if contains(&lowered, &long_marker) || contains(&lowered, &many_marker) {
                    ProviderError::ContextLengthExceeded(b)
                } else {
                    ProviderError::RequestFailed(b)
                }
            },
            None => ProviderError::RequestFailed(String::new()),
        }
    } else if status == 401 || status == 403 {
        match body_message {
            Some(b) => ProviderError::Authentication(b),
            None => ProviderError::Authentication(String::new()),
        }
    } else if status == 429 {
        match body_message {
            Some(b) => ProviderError::RateLimited(b),
            None => ProviderError::RateLimited(String::new()),
        }
    } else if 500 <= status && status < 600 {
        match body_message {
            Some(b) => ProviderError::ServerError(b),
            None => ProviderError::ServerError(String::new()),
        }
    } else {
        match body_message {
            Some(b) => ProviderError::RequestFailed(b),
            None => ProviderError::RequestFailed(String::new()),
        }
    }
}

/// How many times to retry a transient failure, and how long to wait.
#[derive(Clone, Copy, Debug, PartialEq, Eq, Structural)]
pub struct RetryConfig {
    pub max_retries: u64,
    pub initial_interval_ms: u64,
    pub backoff_multiplier: u64,
    pub max_interval_ms: u64,
}

pub const DEFAULT_MAX_RETRIES: u64 = 3;

pub const DEFAULT_INITIAL_RETRY_INTERVAL_MS: u64 = 1000;

pub const DEFAULT_BACKOFF_MULTIPLIER: u64 = 2;

pub const DEFAULT_MAX_RETRY_INTERVAL_MS: u64 = 32000;

impl Default for RetryConfig {
    /// The policy used when no configuration names one.
    fn default() -> (c: RetryConfig)
        ensures
            c.max_retries == DEFAULT_MAX_RETRIES,
            c.initial_interval_ms == DEFAULT_INITIAL_RETRY_INTERVAL_MS,
            c.backoff_multiplier == DEFAULT_BACKOFF_MULTIPLIER,
            c.max_interval_ms == DEFAULT_MAX_RETRY_INTERVAL_MS,
    {
        RetryConfig {
            max_retries: DEFAULT_MAX_RETRIES,
            initial_interval_ms: DEFAULT_INITIAL_RETRY_INTERVAL_MS,
            backoff_multiplier: DEFAULT_BACKOFF_MULTIPLIER,
            max_interval_ms: DEFAULT_MAX_RETRY_INTERVAL_MS,
        }
    }
}

/// The wait before retry number `attempt`: the initial interval grown by the
/// multiplier once per earlier attempt, never above the maximum interval.
pub open spec fn spec_backoff_ms(c: RetryConfig, attempt: nat) -> int
    decreases attempt,
{
    if attempt == 0 {
        if c.initial_interval_ms >= c.max_interval_ms {
            c.max_interval_ms as int
        } else {
            c.initial_interval_ms as int
        }
    } else {
        let p = spec_backoff_ms(c, (attempt - 1) as nat);
        if p * c.backoff_multiplier >= c.max_interval_ms {
            c.max_interval_ms as int
        } else {
            p * c.backoff_multiplier
        }
    }
}

/// The backoff wait in milliseconds before retry number `attempt`.
pub fn backoff_ms(c: &RetryConfig, attempt: u64) -> (ms: u64)
    ensures
        ms == spec_backoff_ms(*c, attempt as nat),
{
    let mut ms: u64 = if c.initial_interval_ms >= c.max_interval_ms {
        c.max_interval_ms
    } else {
        c.initial_interval_ms
    };
    let mut k: u64 = 0;
    while k < attempt
        invariant
            k <= attempt,
            ms == spec_backoff_ms(*c, k as nat),
        decreases attempt - k,
    {
        ms = match ms.checked_mul(c.backoff_multiplier) {
            Some(grown) => {
                if grown >= c.max_interval_ms {
                    c.max_interval_ms
                } else {
                    grown
                }
            },
            None => c.max_interval_ms,
        };
        k += 1;
    }
    ms
}

/// Should a failure seen after `attempts_made` provider calls be retried
/// under this policy?
pub fn should_retry(c: &RetryConfig, e: &ProviderError, attempts_made: u64) -> (r: bool)
    ensures
        r == (spec_is_retryable(e) && attempts_made < c.max_retries),
{
    e.is_retryable() && attempts_made < c.max_retries
}

/// The value a configuration parameter names, or the default when the
/// parameter is absent or unreadable as a decimal number.
pub open spec fn spec_param_u64(p: Option<Seq<char>>, default: u64) -> int {
    match p {
        Some(s) => {
            if s.len() >= 1 && all_digits(s) && dec_value(s) <= u64::MAX {
                dec_value(s)
            } else {
                default as int
            }
        },
        None => default as int,
    }
}

fn param_u64(p: &Option<String>, default: u64) -> (v: u64)
    ensures
        v == spec_param_u64(
            match p {
                Some(s) => Some(s@),
                None => None,
            },
            default,
        ),
{
    match p {
        Some(s) => {
            let digits = chars_of(s.as_str());
            match parse_u64(&digits) {
                Some(v) => v,
                None => default,
            }
        },
        None => default,
    }
}

/// Read a retry policy from optional configuration parameters, filling the
/// defaults for whatever is absent or unreadable.
pub fn load_retry_config(
    max_retries: Option<String>,
    initial_interval_ms: Option<String>,
    backoff_multiplier: Option<String>,
    max_interval_ms: Option<String>,
) -> (c: RetryConfig)
    ensures
        c.max_retries == spec_param_u64(
            match max_retries {
                Some(s) => Some(s@),
                None => None,
            },
            DEFAULT_MAX_RETRIES,
        ),
        c.initial_interval_ms == spec_param_u64(
            match initial_interval_ms {
                Some(s) => Some(s@),
                None => None,
            },
            DEFAULT_INITIAL_RETRY_INTERVAL_MS,
        ),
        c.backoff_multiplier == spec_param_u64(
            match backoff_multiplier {
                Some(s) => Some(s@),
                None => None,
            },
            DEFAULT_BACKOFF_MULTIPLIER,
        ),
        c.max_interval_ms == spec_param_u64(
            match max_interval_ms {
                Some(s) => Some(s@),
                None => None,
            },
            DEFAULT_MAX_RETRY_INTERVAL_MS,
        ),
{
    RetryConfig {
        max_retries: param_u64(&max_retries, DEFAULT_MAX_RETRIES),
        initial_interval_ms: param_u64(&initial_interval_ms, DEFAULT_INITIAL_RETRY_INTERVAL_MS),
        backoff_multiplier: param_u64(&backoff_multiplier, DEFAULT_BACKOFF_MULTIPLIER),
        max_interval_ms: param_u64(&max_interval_ms, DEFAULT_MAX_RETRY_INTERVAL_MS),
    }
}

/// How a Databricks-style backend authenticates: a ready personal access
/// token, or an OAuth client configuration whose token the runtime fetches.
#[derive(Clone, Debug, PartialEq, Eq)]
pub enum DatabricksAuth {
    Token(String),
    OAuth { host: String, client_id: String, redirect_url: String, scopes: Vec<String> },
}

impl DatabricksAuth {
    /// An OAuth configuration for `host` with the stock client id, redirect
    /// url and scopes.
    pub fn oauth(host: String) -> (a: DatabricksAuth)
        ensures
            a matches DatabricksAuth::OAuth {
                host: h,
                client_id: c,
                redirect_url: r,
                scopes: s,
            } && h@ == host@ && c@ == "databricks-cli"@ && r@ == "http://localhost:8020"@
                && s@.len() == 2 && s@[0]@ == "all-apis"@ && s@[1]@ == "offline_access"@,
    {
        let mut scopes: Vec<String> = Vec::new();
        scopes.push(String::from_str("all-apis"));
        scopes.push(String::from_str("offline_access"));
        DatabricksAuth::OAuth {
            host,
            client_id: String::from_str("databricks-cli"),
            redirect_url: String::from_str("http://localhost:8020"),
            scopes,
        }
    }

    /// A ready personal access token.
    pub fn token(token: String) -> (a: DatabricksAuth)
        ensures
            a matches DatabricksAuth::Token(t) && t@ == token@,
    {
        DatabricksAuth::Token(token)
    }

    /// The authorization header value when a token is already at hand; an
    /// OAuth configuration yields nothing until the runtime's flow has run.
    pub fn ready_auth_header(&self) -> (r: Option<String>)
        ensures
            match self {
                DatabricksAuth::Token(t) => r matches Some(h) && h@ == "Bearer "@ + t@,
                DatabricksAuth::OAuth { .. } => r is None,
            },
    {
        match self {
            DatabricksAuth::Token(t) => Some(bearer_header(t.as_str())),
            DatabricksAuth::OAuth { .. } => None,
        }
    }
}

/// The bearer authorization header for a token.
pub fn bearer_header(token: &str) -> (h: String)
    ensures
        h@ == "Bearer "@ + token@,
{
    let mut h = String::from_str("Bearer ");
    h.append(token);
    h
}

} // verus!
