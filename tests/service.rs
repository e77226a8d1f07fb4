use quadly::error::AppError;
use quadly::user::{TokenClaims, User, SESSION_SECONDS};

fn user(role: &str) -> User {
    User { id: 1, username: "ana".to_string(), hashed_password: "h".to_string(), role: role.to_string() }
}

#[test]
fn error_responses() {
    let r = AppError::not_found("web").response();
    assert_eq!(r.status, 404);
    assert_eq!(r.error, "not_found");
    assert_eq!(r.message, "Recurso 'web' no encontrado");
    let r = AppError::Unauthorized.response();
    assert_eq!((r.status, r.error.as_str(), r.message.as_str()), (401, "unauthorized", "No autorizado"));
    assert_eq!(AppError::SystemdError("x".to_string()).response().status, 503);
    assert_eq!(AppError::validation_error("Image", "missing").response().status, 422);
    assert_eq!(AppError::bad_request("no").response().status, 400);
    assert_eq!(AppError::Generic("boom".to_string()).response().error, "generic_error");
}

#[test]
fn error_texts() {
    assert_eq!(
        AppError::systemd_action_failed("start", "web.service").message(),
        "Error de systemd: Error ejecutando 'start' en unidad 'web.service'"
    );
    assert_eq!(
        AppError::quadlet_parse_error("web.container", "line 3").message(),
        "Error de parseo: Error parseando quadlet 'web.container': line 3"
    );
    assert_eq!(AppError::validation_error("Image", "missing").message(), "Error de validación: Campo 'Image': missing");
    assert_eq!(AppError::Unauthorized.message(), "No autorizado");
}

#[test]
fn admin_role() {
    assert!(user("admin").is_admin());
    assert!(!user("viewer").is_admin());
}

#[test]
fn session_claims() {
    let c = TokenClaims::for_session(&user("viewer"), 1_000);
    assert_eq!(c.sub, "ana");
    assert_eq!(c.role, "viewer");
    assert_eq!(c.iat, 1_000);
    assert_eq!(c.exp, 1_000 + SESSION_SECONDS);
    assert_eq!(SESSION_SECONDS, 3600);
}
