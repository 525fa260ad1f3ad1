use bms_store_gui::api_client::{
    check_response, ApiClient, ApiClientConfig, ApiError, ApiUser, HttpMethod, LoginResponse,
};

fn client() -> ApiClient {
    ApiClient::new(ApiClientConfig { base_url: "http://localhost:8080".to_string() })
}

#[test]
fn default_config_is_same_origin() {
    let c = ApiClientConfig::default();
    assert_eq!(c.base_url, "");
    let api = ApiClient::new(c);
    assert_eq!(api.url("/health"), "/api/health");
}

#[test]
fn url_joins_base_api_and_path() {
    assert_eq!(client().url("/points"), "http://localhost:8080/api/points");
}

#[test]
fn auth_header_follows_token() {
    let mut c = client();
    assert_eq!(c.auth_header(), None);
    c.set_token("abc".to_string());
    assert_eq!(c.auth_header(), Some("Bearer abc".to_string()));
    c.clear_token();
    assert_eq!(c.auth_header(), None);
}

#[test]
fn authenticated_get_is_refused_without_token() {
    let c = client();
    assert!(matches!(c.prepare_get("/auth/me"), Err(ApiError::Unauthorized)));
    assert!(matches!(c.me_request(), Err(ApiError::Unauthorized)));
}

#[test]
fn authenticated_get_carries_bearer_token() {
    let mut c = client();
    c.set_token("t0k".to_string());
    let req = c.active_alarms_request().unwrap();
    assert_eq!(req.method, HttpMethod::Get);
    assert_eq!(req.url, "http://localhost:8080/api/alarms/active");
    assert_eq!(req.authorization, Some("Bearer t0k".to_string()));
}

#[test]
fn health_needs_no_token() {
    let c = client();
    let req = c.health_request();
    assert_eq!(req.url, "http://localhost:8080/api/health");
    assert_eq!(req.authorization, None);
}

#[test]
fn post_paths_embed_ids() {
    let c = client();
    let w = c.write_point_request("dev-1", "ai-3");
    assert_eq!(w.method, HttpMethod::Post);
    assert_eq!(w.url, "http://localhost:8080/api/points/dev-1/ai-3/write");
    assert_eq!(w.authorization, None);
    let a = c.acknowledge_alarm_request("42");
    assert_eq!(a.url, "http://localhost:8080/api/alarms/42/ack");
}

#[test]
fn login_stores_token_and_returns_user() {
    let mut c = client();
    let (req, body) = c.login_request("admin", "pw");
    assert_eq!(req.url, "http://localhost:8080/api/auth/login");
    assert_eq!(body.username, "admin");
    assert_eq!(body.password, "pw");
    let user = c.finish_login(LoginResponse {
        token: "jwt".to_string(),
        user: ApiUser {
            id: "u1".to_string(),
            username: "admin".to_string(),
            display_name: "Admin".to_string(),
            role: "admin".to_string(),
        },
    });
    assert_eq!(user.username, "admin");
    assert_eq!(c.auth_header(), Some("Bearer jwt".to_string()));
}

#[test]
fn response_status_classification() {
    assert!(matches!(check_response(401, "x".to_string()), Err(ApiError::Unauthorized)));
    match check_response(500, "boom".to_string()) {
        Err(ApiError::Server { status, message }) => {
            assert_eq!(status, 500);
            assert_eq!(message, "boom");
        }
        _ => panic!("expected a server error"),
    }
    assert_eq!(check_response(204, "{}".to_string()).unwrap(), "{}");
    assert!(matches!(check_response(302, String::new()), Err(ApiError::Server { status: 302, .. })));
}

#[test]
fn api_error_display_text() {
    assert_eq!(ApiError::Network("down".to_string()).to_display_string(), "Network error: down");
    assert_eq!(
        ApiError::Server { status: 503, message: "busy".to_string() }.to_display_string(),
        "Server error 503: busy"
    );
    assert_eq!(ApiError::Parse("eof".to_string()).to_display_string(), "Parse error: eof");
    assert_eq!(ApiError::Unauthorized.to_display_string(), "Unauthorized");
}
