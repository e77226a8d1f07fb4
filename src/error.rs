//! The errors the service reports to its clients, and how each is presented.
use vstd::prelude::*;

verus! {

/// The body sent to a client for an error.
#[derive(Debug, Clone)]
pub struct ErrorResponse {
    pub error: String,
    pub message: String,
    pub status: u16,
}

/// An error of the service, by cause.
#[derive(Debug, Clone)]
pub enum AppError {
    SystemdError(String),
    StorageError(String),
    ParseError(String),
    NotFound(String),
    BadRequest(String),
    InternalServerError(String),
    Unauthorized,
    ValidationError(String),
    /// An error from elsewhere, carried as its text.
    Generic(String),
}

/// The HTTP status code of an error.
pub open spec fn status_of(e: AppError) -> u16 {
    match e {
        AppError::SystemdError(_) => 503,
        AppError::StorageError(_) => 500,
        AppError::ParseError(_) => 400,
        AppError::NotFound(_) => 404,
        AppError::BadRequest(_) => 400,
        AppError::InternalServerError(_) => 500,
        AppError::Unauthorized => 401,
        AppError::ValidationError(_) => 422,
        AppError::Generic(_) => 500,
    }
}

/// The machine-readable tag of an error.
pub open spec fn tag_of(e: AppError) -> Seq<char> {
    match e {
        AppError::SystemdError(_) => "systemd_error"@,
        AppError::StorageError(_) => "storage_error"@,
        AppError::ParseError(_) => "parse_error"@,
        AppError::NotFound(_) => "not_found"@,
        AppError::BadRequest(_) => "bad_request"@,
        AppError::InternalServerError(_) => "internal_server_error"@,
        AppError::Unauthorized => "unauthorized"@,
        AppError::ValidationError(_) => "validation_error"@,
        AppError::Generic(_) => "generic_error"@,
    }
}

/// The detail carried by an error.
pub open spec fn detail_of(e: AppError) -> Seq<char> {
    match e {
        AppError::SystemdError(m) => m@,
        AppError::StorageError(m) => m@,
        AppError::ParseError(m) => m@,
        AppError::NotFound(m) => m@,
        AppError::BadRequest(m) => m@,
        AppError::InternalServerError(m) => m@,
        AppError::Unauthorized => "No autorizado"@,
        AppError::ValidationError(m) => m@,
        AppError::Generic(m) => m@,
    }
}

/// The human-readable text of an error: its cause, then its detail.
pub open spec fn text_of(e: AppError) -> Seq<char> {
    match e {
        AppError::SystemdError(m) => "Error de systemd: "@ + m@,
        AppError::StorageError(m) => "Error de almacenamiento: "@ + m@,
        AppError::ParseError(m) => "Error de parseo: "@ + m@,
        AppError::NotFound(m) => "No encontrado: "@ + m@,
        AppError::BadRequest(m) => "Solicitud incorrecta: "@ + m@,
        AppError::InternalServerError(m) => "Error interno: "@ + m@,
        AppError::Unauthorized => "No autorizado"@,
        AppError::ValidationError(m) => "Error de validación: "@ + m@,
        AppError::Generic(m) => m@,
    }
}

fn prefixed(prefix: &str, text: &String) -> (r: String)
    ensures
        r@ == prefix@ + text@,
{
    let mut r = prefix.to_owned();
    r.append(text.as_str());
    r
}

impl AppError {
    pub fn not_found(resource: &str) -> (r: AppError)
        ensures
            r matches AppError::NotFound(m) && m@ == "Recurso '"@ + resource@ + "' no encontrado"@,
    {
        let mut m = "Recurso '".to_owned();
        m.append(resource);
        m.append("' no encontrado");
        AppError::NotFound(m)
    }

    pub fn bad_request(msg: &str) -> (r: AppError)
        ensures
            r matches AppError::BadRequest(m) && m@ == msg@,
    {
        AppError::BadRequest(msg.to_owned())
    }

    pub fn validation_error(field: &str, reason: &str) -> (r: AppError)
        ensures
            r matches AppError::ValidationError(m) && m@ == "Campo '"@ + field@ + "': "@ + reason@,
    {
        let mut m = "Campo '".to_owned();
        m.append(field);
        m.append("': ");
        m.append(reason);
        AppError::ValidationError(m)
    }

    pub fn systemd_action_failed(action: &str, unit: &str) -> (r: AppError)
        ensures
            r matches AppError::SystemdError(m) && m@ == "Error ejecutando '"@ + action@
                + "' en unidad '"@ + unit@ + "'"@,
    {
        let mut m = "Error ejecutando '".to_owned();
        m.append(action);
        m.append("' en unidad '");
        m.append(unit);
        m.append("'");
        AppError::SystemdError(m)
    }

    pub fn quadlet_parse_error(filename: &str, details: &str) -> (r: AppError)
        ensures
            r matches AppError::ParseError(m) && m@ == "Error parseando quadlet '"@ + filename@
                + "': "@ + details@,
    {
        let mut m = "Error parseando quadlet '".to_owned();
        m.append(filename);
        m.append("': ");
        m.append(details);
        AppError::ParseError(m)
    }

    /// The human-readable text of this error.
    pub fn message(&self) -> (r: String)
        ensures
            r@ == text_of(*self),
    {
        match self {
            AppError::SystemdError(m) => prefixed("Error de systemd: ", m),
            AppError::StorageError(m) => prefixed("Error de almacenamiento: ", m),
            AppError::ParseError(m) => prefixed("Error de parseo: ", m),
            AppError::NotFound(m) => prefixed("No encontrado: ", m),
            AppError::BadRequest(m) => prefixed("Solicitud incorrecta: ", m),
            AppError::InternalServerError(m) => prefixed("Error interno: ", m),
            AppError::Unauthorized => "No autorizado".to_owned(),
            AppError::ValidationError(m) => prefixed("Error de validación: ", m),
            AppError::Generic(m) => m.clone(),
        }
    }

    /// The body to send for this error: its tag, its detail and its status code.
    pub fn response(&self) -> (r: ErrorResponse)
        ensures
            r.status == status_of(*self),
            r.error@ == tag_of(*self),
            r.message@ == detail_of(*self),
    {
        let (status, tag, message): (u16, &str, String) = match self {
            AppError::SystemdError(m) => (503, "systemd_error", m.clone()),
            AppError::StorageError(m) => (500, "storage_error", m.clone()),
            AppError::ParseError(m) => (400, "parse_error", m.clone()),
            AppError::NotFound(m) => (404, "not_found", m.clone()),
            AppError::BadRequest(m) => (400, "bad_request", m.clone()),
            AppError::InternalServerError(m) => (500, "internal_server_error", m.clone()),
            AppError::Unauthorized => (401, "unauthorized", "No autorizado".to_owned()),
            AppError::ValidationError(m) => (422, "validation_error", m.clone()),
            AppError::Generic(m) => (500, "generic_error", m.clone()),
        };
        ErrorResponse { error: tag.to_owned(), message, status }
    }
}

} // verus!
