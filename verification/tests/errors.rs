use tokio_netstring::{DecodeError, EncodeError, ErrorKind};

#[test]
fn decode_errors_are_invalid_data() {
    assert_eq!(DecodeError::MalformedLength.kind(), ErrorKind::InvalidData);
    assert_eq!(DecodeError::FrameTooLarge.kind(), ErrorKind::InvalidData);
    assert_eq!(DecodeError::MalformedLength.message(), "Could not parse length");
    assert_eq!(DecodeError::FrameTooLarge.message(), "frame size too big");
}

#[test]
fn encode_errors_are_invalid_input() {
    assert_eq!(EncodeError::FrameTooLarge.kind(), ErrorKind::InvalidInput);
    assert_eq!(EncodeError::FrameTooLarge.message(), "frame too big");
}
