use archive_core::payloads::{DisposalRegisterPayload, DrawerAssignmentPayload, ReorganizationRequestPayload, TokenPayload};
use archive_core::sessions::{ApiResponse, LoginRateLimiter, SessionStore, UserProfile};
use archive_core::store::ArchiveError;

fn profile() -> UserProfile {
    UserProfile { id: 1, name: "Administrador".to_string(), login: "admin".to_string(), role: "admin".to_string() }
}

#[test]
fn session_lifecycle() {
    let mut store = SessionStore::new();
    let s = store.create(profile());
    assert_eq!(s.token.len(), 36);
    assert_eq!(store.get(&s.token).unwrap().profile.login, "admin");
    assert_eq!(store.require(&s.token).unwrap().token, s.token);
    store.revoke(&s.token);
    assert!(store.get(&s.token).is_none());
    assert_eq!(store.require(&s.token).err(), Some("Sessão inválida. Faça login novamente."));
}

#[test]
fn tokens_differ() {
    let mut store = SessionStore::new();
    let a = store.create(profile());
    let b = store.create(profile());
    assert_ne!(a.token, b.token);
    assert!(store.get(&a.token).is_some() && store.get(&b.token).is_some());
}

#[test]
fn limiter_refuses_sixth_attempt_in_a_minute() {
    let mut lim = LoginRateLimiter::new();
    for k in 0..5 {
        assert!(lim.check_at("ana", 1_000 + k).is_ok());
    }
    assert_eq!(
        lim.check_at("ana", 2_000).err().as_deref(),
        Some("Muitas tentativas de login. Tente novamente em 1 minuto.")
    );
    assert!(lim.check_at("bia", 2_000).is_ok());
    assert!(lim.check_at("ana", 62_001).is_ok());
}

#[test]
fn limiter_with_clock() {
    let mut lim = LoginRateLimiter::new();
    for _ in 0..5 {
        assert!(lim.check("carla").is_ok());
    }
    assert!(lim.check("carla").is_err());
}

#[test]
fn api_response_shapes() {
    let ok = ApiResponse::success(7);
    assert!(ok.success);
    assert_eq!(ok.data, Some(7));
    assert!(ok.error.is_none());
    let err: ApiResponse<i32> = ApiResponse::error("falhou");
    assert!(!err.success);
    assert!(err.data.is_none());
    assert_eq!(err.error.as_deref(), Some("falhou"));
}

#[test]
fn payload_validation() {
    assert!(TokenPayload { token: "x".to_string() }.validate().is_ok());
    assert_eq!(TokenPayload { token: String::new() }.validate(), Err(ArchiveError::InvalidInput));
    let a = |position: i64| DrawerAssignmentPayload { token: "t".to_string(), employee_id: 1, drawer_id: 1, position };
    assert!(a(1).validate().is_ok());
    assert!(a(500).validate().is_ok());
    assert!(a(0).validate().is_err());
    assert!(a(501).validate().is_err());
    let r = |t: Option<i64>, m: Option<i64>| ReorganizationRequestPayload { token: "t".to_string(), critical_threshold: t, max_moves: m };
    assert!(r(None, None).validate().is_ok());
    assert!(r(Some(50), Some(50)).validate().is_ok());
    assert!(r(Some(49), None).validate().is_err());
    assert!(r(None, Some(0)).validate().is_err());
    let d = |ids: Vec<i64>, term: Option<&str>| DisposalRegisterPayload { token: "t".to_string(), item_ids: ids, term_number: term.map(|s| s.to_string()) };
    assert!(d(vec![1], None).validate().is_ok());
    assert!(d(vec![], None).validate().is_err());
    assert!(d(vec![1], Some(&"x".repeat(101))).validate().is_err());
    assert!(d(vec![1], Some(&"ç".repeat(100))).validate().is_ok());
}

#[test]
fn error_messages() {
    assert_eq!(ArchiveError::Unauthorized.message(), "Sessão inválida. Faça login novamente.");
    assert_eq!(ArchiveError::NotFound.message(), "Registro não encontrado");
}
