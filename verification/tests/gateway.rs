use hdds_tools::gateway::{read_response_header, request_frame, ApiError, Command, IoFailure};

#[test]
fn request_frames_carry_the_command_byte() {
    assert_eq!(request_frame(Command::GetMesh), [0x01, 0, 0, 0, 0]);
    assert_eq!(request_frame(Command::GetReaders), [0x06, 0, 0, 0, 0]);
    assert_eq!(Command::GetHealth.code(), 0x04);
}

#[test]
fn response_headers() {
    assert_eq!(read_response_header([0, 0x10, 0x01, 0, 0]).unwrap(), 0x0110);
    assert_eq!(read_response_header([0x2a, 0, 0, 0, 0]).unwrap_err(), "Admin API error: status=0x2a");
}

#[test]
fn io_failures_map_to_http_statuses() {
    assert_eq!(ApiError::from_io("x".into(), IoFailure::ConnectionRefused).code, 503);
    assert_eq!(ApiError::from_io("x".into(), IoFailure::TimedOut).code, 504);
    let e = ApiError::from_io("boom".into(), IoFailure::Other);
    assert_eq!(e.code, 500);
    assert_eq!(e.error, "boom");
}
