use web_server::errors::{client_message, AppError};

#[test]
fn media_inspection_failures_are_bad_gateways_not_server_faults() {
    assert_eq!(AppError::BadGateway("ffprobe returned no audio duration".into()).status_code(), 502);
    assert_eq!(
        AppError::BadRequest("Clip duration must be between 1 and 20 seconds".into()).status_code(),
        400
    );
    assert_eq!(AppError::InternalError.status_code(), 500);
}

#[test]
fn server_faults_do_not_leak_internal_detail_to_clients() {
    assert_eq!(AppError::InternalError.status_code(), 500);
    let leaky = AppError::DbError("RowNotFound".into());
    let message = client_message(500, &leaky);
    assert_eq!(message, "Internal Server Error");
    assert!(!message.contains("RowNotFound"));
    assert!(!message.contains("Database"));
    assert_eq!(client_message(400, &AppError::BadRequest("bad".into())), "Bad Request: bad");
}
