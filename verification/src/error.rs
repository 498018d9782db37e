//! Typed application error with stable codes for API and frontend consumers.
use crate::text::string_of;
use vstd::prelude::*;

verus! {

/// Application error: every variant carries a stable machine-readable code.
#[derive(Debug)]
pub enum NetRailError {
    InvalidQuery { code: &'static str, message: String },
    InvalidOpenUrl { code: &'static str, message: String },
    InvalidConfig { code: &'static str, message: String },
    InvalidBackendUrl { code: &'static str, message: String },
    MissingField { code: &'static str, field: String },
    NotFound { code: &'static str, entity: String },
    BackendHttp { code: &'static str, backend: String, status: u16 },
    BackendFailure { code: &'static str, backend: String, message: String },
    FanoutFailure { code: &'static str, message: String },
    Database { code: &'static str, message: String },
    Network { code: &'static str, message: String },
    Parse { code: &'static str, message: String },
    Encryption { code: &'static str, message: String },
    Internal { code: &'static str, message: String },
    Unauthorized { code: &'static str, message: String },
    Readonly { code: &'static str, message: String },
    Conflict { code: &'static str, message: String },
    RateLimited { code: &'static str, message: String },
}

pub type NetRailResult<T> = Result<T, NetRailError>;

/// `e` is an `InvalidOpenUrl` error with the given code and message.
pub open spec fn is_open_url_error(e: NetRailError, r: (Seq<char>, Seq<char>)) -> bool {
    e matches NetRailError::InvalidOpenUrl { code, message } && code@ == r.0 && message@ == r.1
}

/// `e` is an `InvalidBackendUrl` error with the given code and message.
pub open spec fn is_backend_url_error(e: NetRailError, r: (Seq<char>, Seq<char>)) -> bool {
    e matches NetRailError::InvalidBackendUrl { code, message } && code@ == r.0 && message@ == r.1
}

/// `e` is an `InvalidConfig` error with the given code and message.
pub open spec fn is_config_error(e: NetRailError, r: (Seq<char>, Seq<char>)) -> bool {
    e matches NetRailError::InvalidConfig { code, message } && code@ == r.0 && message@ == r.1
}

pub fn open_url_error(code: &'static str, message: &str) -> (e: NetRailError)
    ensures
        is_open_url_error(e, (code@, message@)),
{
    NetRailError::InvalidOpenUrl { code, message: String::from_str(message) }
}

pub fn backend_url_error(code: &'static str, message: &str) -> (e: NetRailError)
    ensures
        is_backend_url_error(e, (code@, message@)),
{
    NetRailError::InvalidBackendUrl { code, message: String::from_str(message) }
}

pub fn config_error(code: &'static str, message: &str) -> (e: NetRailError)
    ensures
        is_config_error(e, (code@, message@)),
{
    NetRailError::InvalidConfig { code, message: String::from_str(message) }
}

/// Decimal digits of `n`, most significant first.
pub open spec fn decimal(n: nat) -> Seq<char>
    decreases n,
{
    if n < 10 {
        seq![digit_char(n)]
    } else {
        decimal(n / 10).push(digit_char(n % 10))
    }
}

pub open spec fn digit_char(d: nat) -> char {
    ((d + 48) as u32) as char
}

impl NetRailError {
    /// The stable code of the error.
    pub open spec fn code_view(&self) -> Seq<char> {
        match self {
            NetRailError::InvalidQuery { code, .. } => code@,
            NetRailError::InvalidOpenUrl { code, .. } => code@,
            NetRailError::InvalidConfig { code, .. } => code@,
            NetRailError::InvalidBackendUrl { code, .. } => code@,
            NetRailError::MissingField { code, .. } => code@,
            NetRailError::NotFound { code, .. } => code@,
            NetRailError::BackendHttp { code, .. } => code@,
            NetRailError::BackendFailure { code, .. } => code@,
            NetRailError::FanoutFailure { code, .. } => code@,
            NetRailError::Database { code, .. } => code@,
            NetRailError::Network { code, .. } => code@,
            NetRailError::Parse { code, .. } => code@,
            NetRailError::Encryption { code, .. } => code@,
            NetRailError::Internal { code, .. } => code@,
            NetRailError::Unauthorized { code, .. } => code@,
            NetRailError::Readonly { code, .. } => code@,
            NetRailError::Conflict { code, .. } => code@,
            NetRailError::RateLimited { code, .. } => code@,
        }
    }

    /// The HTTP status the error maps to.
    pub open spec fn status_view(&self) -> u16 {
        match self {
            NetRailError::InvalidQuery { .. } | NetRailError::InvalidOpenUrl { .. }
            | NetRailError::InvalidConfig { .. } | NetRailError::InvalidBackendUrl { .. }
            | NetRailError::MissingField { .. } => 400,
            NetRailError::Unauthorized { .. } => 401,
            NetRailError::Readonly { .. } => 403,
            NetRailError::NotFound { .. } => 404,
            NetRailError::Conflict { .. } => 409,
            NetRailError::RateLimited { .. } => 429,
            NetRailError::BackendHttp { .. } | NetRailError::BackendFailure { .. }
            | NetRailError::FanoutFailure { .. } => 502,
            NetRailError::Database { .. } | NetRailError::Network { .. }
            | NetRailError::Parse { .. } | NetRailError::Encryption { .. }
            | NetRailError::Internal { .. } => 500,
        }
    }

    /// The human-readable detail of the error.
    pub open spec fn detail_view(&self) -> Seq<char> {
        match self {
            NetRailError::InvalidQuery { message, .. } => "Invalid query: "@ + message@,
            NetRailError::InvalidOpenUrl { message, .. } => "Invalid open URL: "@ + message@,
            NetRailError::InvalidConfig { message, .. } => "Invalid configuration: "@ + message@,
            NetRailError::InvalidBackendUrl { message, .. } => "Invalid backend URL: "@
                + message@,
            NetRailError::MissingField { field, .. } => "Missing required field: "@ + field@,
            NetRailError::NotFound { entity, .. } => entity@ + " not found"@,
            NetRailError::BackendHttp { backend, status, .. } => backend@ + ": HTTP "@ + decimal(
                *status as nat,
            ),
            NetRailError::BackendFailure { backend, message, .. } => backend@ + ": "@ + message@,
            NetRailError::FanoutFailure { message, .. } => "Fanout failed: "@ + message@,
            NetRailError::Database { message, .. } => "Database error: "@ + message@,
            NetRailError::Network { message, .. } => "Network error: "@ + message@,
            NetRailError::Parse { message, .. } => "Parse error: "@ + message@,
            NetRailError::Encryption { message, .. } => "Encryption error: "@ + message@,
            NetRailError::Internal { message, .. } => "Internal error: "@ + message@,
            NetRailError::Unauthorized { message, .. } => "Unauthorized: "@ + message@,
            NetRailError::Readonly { message, .. } => "Read-only: "@ + message@,
            NetRailError::Conflict { message, .. } => "Conflict: "@ + message@,
            NetRailError::RateLimited { message, .. } => "Rate limited: "@ + message@,
        }
    }

    /// The stable machine-readable code.
    pub fn error_code(&self) -> (r: &'static str)
        ensures
            r@ == self.code_view(),
    {
        match self {
            NetRailError::InvalidQuery { code, .. } => code,
            NetRailError::InvalidOpenUrl { code, .. } => code,
            NetRailError::InvalidConfig { code, .. } => code,
            NetRailError::InvalidBackendUrl { code, .. } => code,
            NetRailError::MissingField { code, .. } => code,
            NetRailError::NotFound { code, .. } => code,
            NetRailError::BackendHttp { code, .. } => code,
            NetRailError::BackendFailure { code, .. } => code,
            NetRailError::FanoutFailure { code, .. } => code,
            NetRailError::Database { code, .. } => code,
            NetRailError::Network { code, .. } => code,
            NetRailError::Parse { code, .. } => code,
            NetRailError::Encryption { code, .. } => code,
            NetRailError::Internal { code, .. } => code,
            NetRailError::Unauthorized { code, .. } => code,
            NetRailError::Readonly { code, .. } => code,
            NetRailError::Conflict { code, .. } => code,
            NetRailError::RateLimited { code, .. } => code,
        }
    }

    /// The HTTP status code as a number (400, 404, 502, ...).
    pub fn status_code(&self) -> (r: u16)
        ensures
            r == self.status_view(),
    {
        match self {
            NetRailError::InvalidQuery { .. } | NetRailError::InvalidOpenUrl { .. }
            | NetRailError::InvalidConfig { .. } | NetRailError::InvalidBackendUrl { .. }
            | NetRailError::MissingField { .. } => 400,
            NetRailError::Unauthorized { .. } => 401,
            NetRailError::Readonly { .. } => 403,
            NetRailError::NotFound { .. } => 404,
            NetRailError::Conflict { .. } => 409,
            NetRailError::RateLimited { .. } => 429,
            NetRailError::BackendHttp { .. } | NetRailError::BackendFailure { .. }
            | NetRailError::FanoutFailure { .. } => 502,
            NetRailError::Database { .. } | NetRailError::Network { .. }
            | NetRailError::Parse { .. } | NetRailError::Encryption { .. }
            | NetRailError::Internal { .. } => 500,
        }
    }

    /// The human-readable detail (the error's message with its prefix).
    pub fn detail_message(&self) -> (r: String)
        ensures
            r@ == self.detail_view(),
    {
        match self {
            NetRailError::InvalidQuery { message, .. } => concat("Invalid query: ", message),
            NetRailError::InvalidOpenUrl { message, .. } => concat("Invalid open URL: ", message),
            NetRailError::InvalidConfig { message, .. } => concat(
                "Invalid configuration: ",
                message,
            ),
            NetRailError::InvalidBackendUrl { message, .. } => concat(
                "Invalid backend URL: ",
                message,
            ),
            NetRailError::MissingField { field, .. } => concat("Missing required field: ", field),
            NetRailError::NotFound { entity, .. } => {
                let mut s = String::from_str(entity.as_str());
                s.append(" not found");
                s
            },
            NetRailError::BackendHttp { backend, status, .. } => {
                let mut s = String::from_str(backend.as_str());
                s.append(": HTTP ");
                let d = decimal_exec(*status as u64);
                let ds = string_of(d.as_slice());
                s.append(ds.as_str());
                s
            },
            NetRailError::BackendFailure { backend, message, .. } => {
                let mut s = String::from_str(backend.as_str());
                s.append(": ");
                s.append(message.as_str());
                s
            },
            NetRailError::FanoutFailure { message, .. } => concat("Fanout failed: ", message),
            NetRailError::Database { message, .. } => concat("Database error: ", message),
            NetRailError::Network { message, .. } => concat("Network error: ", message),
            NetRailError::Parse { message, .. } => concat("Parse error: ", message),
            NetRailError::Encryption { message, .. } => concat("Encryption error: ", message),
            NetRailError::Internal { message, .. } => concat("Internal error: ", message),
            NetRailError::Unauthorized { message, .. } => concat("Unauthorized: ", message),
            NetRailError::Readonly { message, .. } => concat("Read-only: ", message),
            NetRailError::Conflict { message, .. } => concat("Conflict: ", message),
            NetRailError::RateLimited { message, .. } => concat("Rate limited: ", message),
        }
    }
}

fn concat(prefix: &str, rest: &String) -> (r: String)
    ensures
        r@ == prefix@ + rest@,
{
    let mut s = String::from_str(prefix);
    s.append(rest.as_str());
    s
}

/// Decimal digits of `n` (`u64::to_string`).
pub fn decimal_exec(n: u64) -> (r: Vec<char>)
    ensures
        r@ == decimal(n as nat),
    decreases n,
{
    let d: u64 = n % 10;
    let c: char = ((d as u8) + 48) as char;
    assert(c == digit_char(d as nat));
    if n < 10 {
        let mut v: Vec<char> = Vec::new();
        v.push(c);
        v
    } else {
        let mut v = decimal_exec(n / 10);
        v.push(c);
        v
    }
}

/// A body that is not valid JSON (`JSON_PARSE_ERROR`), with the parser's message.
pub fn json_parse_error(message: String) -> (e: NetRailError)
    ensures
        e matches NetRailError::Parse { code, message: m } && code@ == "JSON_PARSE_ERROR"@ && m@
            == message@,
{
    NetRailError::Parse { code: "JSON_PARSE_ERROR", message }
}

/// A database failure (`DB_ERROR`), with the driver's message.
pub fn database_error(message: String) -> (e: NetRailError)
    ensures
        e matches NetRailError::Database { code, message: m } && code@ == "DB_ERROR"@ && m@
            == message@,
{
    NetRailError::Database { code: "DB_ERROR", message }
}

/// A URL that does not parse (`URL_PARSE_ERROR`), with the parser's message.
pub fn url_parse_error(message: String) -> (e: NetRailError)
    ensures
        e matches NetRailError::InvalidBackendUrl { code, message: m } && code@
            == "URL_PARSE_ERROR"@ && m@ == message@,
{
    NetRailError::InvalidBackendUrl { code: "URL_PARSE_ERROR", message }
}

/// A failed HTTP request: a timeout, a failed connection, or another error
/// with the client's message.
pub fn network_error(is_timeout: bool, is_connect: bool, message: String) -> (e: NetRailError)
    ensures
        e matches NetRailError::Network { code, message: m } && (if is_timeout {
            code@ == "NETWORK_TIMEOUT"@ && m@ == "Request timed out"@
        } else if is_connect {
            code@ == "NETWORK_CONNECT"@ && m@ == "Connection failed"@
        } else {
            code@ == "NETWORK_ERROR"@ && m@ == message@
        }),
{
    if is_timeout {
        NetRailError::Network {
            code: "NETWORK_TIMEOUT",
            message: String::from_str("Request timed out"),
        }
    } else if is_connect {
        NetRailError::Network {
            code: "NETWORK_CONNECT",
            message: String::from_str("Connection failed"),
        }
    } else {
        NetRailError::Network { code: "NETWORK_ERROR", message }
    }
}

} // verus!
