use shortener::middleware::ErrorEnvelope;
use shortener::middleware::JsonErrorMiddleware;

#[test]
fn transform_wraps_the_endpoint_as_given() {
    let wrapped = JsonErrorMiddleware.transform(42u32);
    assert_eq!(wrapped.0, 42u32);
}

#[test]
fn error_envelope_carries_message_marker_and_status() {
    let envelope = ErrorEnvelope::new("no such link".to_string(), 404);
    assert_eq!(envelope.error, "no such link");
    assert!(envelope.is_error);
    assert_eq!(envelope.status_code, 404);
}
