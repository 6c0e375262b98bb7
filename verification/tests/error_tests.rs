use morpheus_serial::error::MorpheusError;

#[test]
fn error_messages_name_the_failure() {
    assert_eq!(MorpheusError::FailedToEnumerate.to_string(), "Failed to enumerate ports");
    assert_eq!(MorpheusError::PortNotFound.to_string(), "Port not found");
    assert_eq!(MorpheusError::CannotOpenPort.to_string(), "Can't open port");
    assert_eq!(MorpheusError::FailedToRead.to_string(), "Failed to read");
    assert_eq!(MorpheusError::FailedToWrite.to_string(), "Failed to write");
    assert_eq!(MorpheusError::ChannelClosed.to_string(), "Channel closed");
    assert_eq!(MorpheusError::NotImplemented.to_string(), "Not implemented");
}

#[test]
fn errors_compare_by_kind() {
    assert_eq!(MorpheusError::PortNotFound, MorpheusError::PortNotFound);
    assert_ne!(MorpheusError::PortNotFound, MorpheusError::CannotOpenPort);
}
