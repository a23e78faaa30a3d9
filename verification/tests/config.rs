use ultinet::config::{ClientConfig, ConnectionConfig, ServerConfig};
use ultinet::time::Duration;

#[test]
fn defaults() {
    let connection = ConnectionConfig::default();
    assert_eq!(connection.resend_delay, Duration::from_secs(1));
    assert_eq!(connection.max_missed_acks, Some(3));
    assert_eq!(connection.receive_timeout, Some(Duration::from_secs(10)));
    assert_eq!(connection.initial_send_batch_size.get(), 8);
    assert_eq!(connection.background_serialization_threshold, 8);

    let server = ServerConfig::default();
    assert_eq!(server.connection, connection);
    assert_eq!(server.ping_delay, Duration::from_millis(2500));
    assert_eq!(server.max_missed_pongs, Some(3));
    assert_eq!(server.listener_timeout, Some(Duration::from_secs(86400)));

    let client = ClientConfig::default();
    assert_eq!(client.connection, connection);
    assert_eq!(client.timeout, Some(Duration::from_secs(10)));
}
