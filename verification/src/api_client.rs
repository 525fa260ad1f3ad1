//! The REST client's own decisions: which URL and `Authorization` header a
//! request carries, when a request is refused before it is sent, how a
//! response status is classified, and what a successful login changes.
//! Sending requests and decoding JSON bodies happen outside the library.

use vstd::prelude::*;

use crate::text::{dec_digits, opt_text, push_dec, push_str};

verus! {

/// Configuration for connecting to the API server.
#[derive(Debug, Clone)]
pub struct ApiClientConfig {
    /// Base URL of the API server (e.g., "http://localhost:8080").
    pub base_url: String,
}

impl Default for ApiClientConfig {
    /// An empty base URL: requests go to the same origin.
    fn default() -> (r: Self)
        ensures
            r.base_url@ == Seq::<char>::empty(),
    {
        ApiClientConfig { base_url: String::new() }
    }
}

/// HTTP client for the BMS REST API.
#[derive(Debug, Clone)]
pub struct ApiClient {
    pub config: ApiClientConfig,
    /// JWT token for authenticated requests.
    token: Option<String>,
}

/// Request body of a login.
#[derive(Debug, Clone)]
pub struct LoginRequest {
    pub username: String,
    pub password: String,
}

/// A user profile as the API returns it.
#[derive(Debug, Clone)]
pub struct ApiUser {
    pub id: String,
    pub username: String,
    pub display_name: String,
    pub role: String,
}

/// Response body of a successful login.
#[derive(Debug, Clone)]
pub struct LoginResponse {
    pub token: String,
    pub user: ApiUser,
}

/// An active alarm as the API returns it.
#[derive(Debug, Clone)]
pub struct ApiAlarm {
    pub id: String,
    pub device_id: String,
    pub point_id: String,
    pub severity: String,
    pub message: String,
    pub timestamp_ms: i64,
    pub acknowledged: bool,
}

/// Errors from API calls.
#[derive(Debug, Clone)]
pub enum ApiError {
    /// HTTP request failed.
    Network(String),
    /// Server returned an error status.
    Server { status: u16, message: String },
    /// Failed to parse response.
    Parse(String),
    /// Not authenticated.
    Unauthorized,
}

/// HTTP method of a request.
#[derive(Debug, Clone, Copy, PartialEq, Eq, Structural)]
pub enum HttpMethod {
    Get,
    Post,
}

/// What goes on the wire for a request: method, full URL and the optional
/// `Authorization` header value.
#[derive(Debug, Clone)]
pub struct PreparedRequest {
    pub method: HttpMethod,
    pub url: String,
    pub authorization: Option<String>,
}

/// The display text of an API error.
pub open spec fn api_error_text(e: ApiError) -> Seq<char> {
    match e {
        ApiError::Network(m) => "Network error: "@ + m@,
        ApiError::Server { status, message } => "Server error "@ + dec_digits(status as nat) + ": "@ + message@,
        ApiError::Parse(m) => "Parse error: "@ + m@,
        ApiError::Unauthorized => "Unauthorized"@,
    }
}

impl ApiError {
    /// The error's display text.
    pub fn to_display_string(&self) -> (r: String)
        ensures
            r@ == api_error_text(*self),
    {
        match self {
            ApiError::Network(m) => {
                let mut s = String::from_str("Network error: ");
                push_str(&mut s, m.as_str());
                s
            },
            ApiError::Server { status, message } => {
                let mut s = String::from_str("Server error ");
                push_dec(&mut s, *status as u64);
                push_str(&mut s, ": ");
                push_str(&mut s, message.as_str());
                s
            },
            ApiError::Parse(m) => {
                let mut s = String::from_str("Parse error: ");
                push_str(&mut s, m.as_str());
                s
            },
            ApiError::Unauthorized => String::from_str("Unauthorized"),
        }
    }
}

/// Full URL of an API path: `{base_url}/api{path}`.
pub open spec fn api_url(base: Seq<char>, path: Seq<char>) -> Seq<char> {
    base + "/api"@ + path
}

/// `Authorization` value for a token: `Bearer {token}`.
pub open spec fn bearer(token: Seq<char>) -> Seq<char> {
    "Bearer "@ + token
}

impl ApiClient {
    /// The token in plain text, if one is set.
    pub closed spec fn spec_token(&self) -> Option<Seq<char>> {
        opt_text(self.token)
    }

    /// The configuration.
    pub closed spec fn spec_config(&self) -> ApiClientConfig {
        self.config
    }

    pub fn new(config: ApiClientConfig) -> (r: Self)
        ensures
            r.spec_config() == config,
            r.spec_token() == None::<Seq<char>>,
    {
        Self { config, token: None }
    }

    pub fn set_token(&mut self, token: String)
        ensures
            final(self).spec_config() == old(self).spec_config(),
            final(self).spec_token() == Some(token@),
    {
        self.token = Some(token);
    }

    pub fn clear_token(&mut self)
        ensures
            final(self).spec_config() == old(self).spec_config(),
            final(self).spec_token() == None::<Seq<char>>,
    {
        self.token = None;
    }

    /// Full URL of an API path.
    pub fn url(&self, path: &str) -> (r: String)
        ensures
            r@ == api_url(self.spec_config().base_url@, path@),
    {
        let mut s = self.config.base_url.clone();
        push_str(&mut s, "/api");
        push_str(&mut s, path);
        s
    }

    /// `Authorization` header value, if a token is set.
    pub fn auth_header(&self) -> (r: Option<String>)
        ensures
            opt_text(r) == match self.spec_token() {
                Some(t) => Some(bearer(t)),
                None => None::<Seq<char>>,
            },
    {
        match &self.token {
            Some(t) => {
                let mut s = String::from_str("Bearer ");
                push_str(&mut s, t.as_str());
                Some(s)
            },
            None => None,
        }
    }

    /// An authenticated GET: refused with `Unauthorized` before anything is
    /// sent when no token is set.
    pub fn prepare_get(&self, path: &str) -> (r: Result<PreparedRequest, ApiError>)
        ensures
            self.spec_token() is None ==> r matches Err(ApiError::Unauthorized),
            self.spec_token() matches Some(t) ==> (r matches Ok(req) && req.method == HttpMethod::Get
                && req.url@ == api_url(self.spec_config().base_url@, path@)
                && opt_text(req.authorization) == Some(bearer(t))),
    {
        let url = self.url(path);
        match self.auth_header() {
            Some(auth) => Ok(PreparedRequest { method: HttpMethod::Get, url, authorization: Some(auth) }),
            None => Err(ApiError::Unauthorized),
        }
    }

    /// An unauthenticated GET.
    pub fn prepare_get_no_auth(&self, path: &str) -> (r: PreparedRequest)
        ensures
            r.method == HttpMethod::Get,
            r.url@ == api_url(self.spec_config().base_url@, path@),
            r.authorization is None,
    {
        PreparedRequest { method: HttpMethod::Get, url: self.url(path), authorization: None }
    }

    /// A POST, with the `Authorization` header when a token is set.
    pub fn prepare_post(&self, path: &str) -> (r: PreparedRequest)
        ensures
            r.method == HttpMethod::Post,
            r.url@ == api_url(self.spec_config().base_url@, path@),
            opt_text(r.authorization) == match self.spec_token() {
                Some(t) => Some(bearer(t)),
                None => None::<Seq<char>>,
            },
    {
        PreparedRequest { method: HttpMethod::Post, url: self.url(path), authorization: self.auth_header() }
    }

    /// The login request: POST to `/auth/login` with the credentials.
    pub fn login_request(&self, username: &str, password: &str) -> (r: (PreparedRequest, LoginRequest))
        ensures
            r.0.method == HttpMethod::Post,
            r.0.url@ == api_url(self.spec_config().base_url@, "/auth/login"@),
            r.1.username@ == username@,
            r.1.password@ == password@,
    {
        let req = self.prepare_post("/auth/login");
        (req, LoginRequest { username: String::from_str(username), password: String::from_str(password) })
    }

    /// Records a successful login: the returned token replaces the current
    /// one and the user is handed back.
    pub fn finish_login(&mut self, resp: LoginResponse) -> (r: ApiUser)
        ensures
            final(self).spec_config() == old(self).spec_config(),
            final(self).spec_token() == Some(resp.token@),
            r == resp.user,
    {
        self.token = Some(resp.token);
        resp.user
    }

    /// Current user profile: authenticated GET `/auth/me`.
    pub fn me_request(&self) -> (r: Result<PreparedRequest, ApiError>)
        ensures
            self.spec_token() is None ==> r matches Err(ApiError::Unauthorized),
            self.spec_token() matches Some(t) ==> (r matches Ok(req) && req.method == HttpMethod::Get
                && req.url@ == api_url(self.spec_config().base_url@, "/auth/me"@)
                && opt_text(req.authorization) == Some(bearer(t))),
    {
        self.prepare_get("/auth/me")
    }

    /// All points: authenticated GET `/points`.
    pub fn list_points_request(&self) -> (r: Result<PreparedRequest, ApiError>)
        ensures
            self.spec_token() is None ==> r matches Err(ApiError::Unauthorized),
            self.spec_token() matches Some(t) ==> (r matches Ok(req) && req.method == HttpMethod::Get
                && req.url@ == api_url(self.spec_config().base_url@, "/points"@)
                && opt_text(req.authorization) == Some(bearer(t))),
    {
        self.prepare_get("/points")
    }

    /// Active alarms: authenticated GET `/alarms/active`.
    pub fn active_alarms_request(&self) -> (r: Result<PreparedRequest, ApiError>)
        ensures
            self.spec_token() is None ==> r matches Err(ApiError::Unauthorized),
            self.spec_token() matches Some(t) ==> (r matches Ok(req) && req.method == HttpMethod::Get
                && req.url@ == api_url(self.spec_config().base_url@, "/alarms/active"@)
                && opt_text(req.authorization) == Some(bearer(t))),
    {
        self.prepare_get("/alarms/active")
    }

    /// Health check: unauthenticated GET `/health`.
    pub fn health_request(&self) -> (r: PreparedRequest)
        ensures
            r.method == HttpMethod::Get,
            r.url@ == api_url(self.spec_config().base_url@, "/health"@),
            r.authorization is None,
    {
        self.prepare_get_no_auth("/health")
    }

    /// Point write: POST `/points/{device_id}/{point_id}/write`.
    pub fn write_point_request(&self, device_id: &str, point_id: &str) -> (r: PreparedRequest)
        ensures
            r.method == HttpMethod::Post,
            r.url@ == api_url(self.spec_config().base_url@, "/points/"@ + device_id@ + "/"@ + point_id@ + "/write"@),
            opt_text(r.authorization) == match self.spec_token() {
                Some(t) => Some(bearer(t)),
                None => None::<Seq<char>>,
            },
    {
        let mut path = String::from_str("/points/");
        push_str(&mut path, device_id);
        push_str(&mut path, "/");
        push_str(&mut path, point_id);
        push_str(&mut path, "/write");
        self.prepare_post(path.as_str())
    }

    /// Alarm acknowledgement: POST `/alarms/{alarm_id}/ack`.
    pub fn acknowledge_alarm_request(&self, alarm_id: &str) -> (r: PreparedRequest)
        ensures
            r.method == HttpMethod::Post,
            r.url@ == api_url(self.spec_config().base_url@, "/alarms/"@ + alarm_id@ + "/ack"@),
            opt_text(r.authorization) == match self.spec_token() {
                Some(t) => Some(bearer(t)),
                None => None::<Seq<char>>,
            },
    {
        let mut path = String::from_str("/alarms/");
        push_str(&mut path, alarm_id);
        push_str(&mut path, "/ack");
        self.prepare_post(path.as_str())
    }
}

/// Classifies a response by its status: 401 is `Unauthorized`, another
/// status outside 200..=299 is a server error carrying the body text, and a
/// success hands the body text on for decoding.
pub fn check_response(status: u16, body: String) -> (r: Result<String, ApiError>)
    ensures
        status == 401 ==> r matches Err(ApiError::Unauthorized),
        status != 401 && !(200 <= status <= 299) ==> (r matches Err(ApiError::Server { status: s, message: m })
            && s == status && m@ == body@),
        200 <= status <= 299 ==> (r matches Ok(b) && b@ == body@),
{
    if status == 401 {
        return Err(ApiError::Unauthorized);
    }
    if !(200 <= status && status <= 299) {
        return Err(ApiError::Server { status, message: body });
    }
    Ok(body)
}

} // verus!
