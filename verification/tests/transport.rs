use kv_store::transport::Exchange;
use kv_store::transport::Network;
use kv_store::transport::NetworkFactory;
use kv_store::transport::Route;
use kv_store::transport::RpcError;
use kv_store::transport::StreamingError;
use kv_store::transport::Transfer;

#[test]
fn client_is_bound_to_its_target() {
    let mut factory = NetworkFactory {};
    let network = factory.new_client(3, "127.0.0.1:21003");
    assert_eq!(network.addr(), "127.0.0.1:21003");
    assert_eq!(network.target(), 3);
}

#[test]
fn each_message_kind_has_its_route() {
    assert_eq!(Route::Vote.path(), "vote");
    assert_eq!(Route::Append.path(), "append");
    assert_eq!(Route::Snapshot.path(), "snapshot");
    let mut factory = NetworkFactory {};
    let network = factory.new_client(1, "node-a:8080");
    assert_eq!(network.url(Route::Vote), "http://node-a:8080/vote");
    assert_eq!(network.url(Route::Append), "http://node-a:8080/append");
    assert_eq!(network.url(Route::Snapshot), "http://node-a:8080/snapshot");
}

#[test]
fn refused_connection_is_unreachable() {
    let exchange = Exchange::SendFailed { connect: true, message: "connection refused".to_string() };
    assert_eq!(
        Network::request(exchange),
        Err(RpcError::Unreachable("connection refused".to_string()))
    );
}

#[test]
fn failure_after_connecting_is_a_network_error() {
    let exchange = Exchange::SendFailed { connect: false, message: "timed out".to_string() };
    assert_eq!(Network::request(exchange), Err(RpcError::Network("timed out".to_string())));
}

#[test]
fn malformed_body_is_a_network_error() {
    let exchange = Exchange::BodyFailed { message: "expected value at line 1".to_string() };
    assert_eq!(
        Network::request(exchange),
        Err(RpcError::Network("expected value at line 1".to_string()))
    );
}

#[test]
fn unreachable_and_network_error_are_told_apart() {
    let refused =
        Network::request(Exchange::SendFailed { connect: true, message: "m".to_string() });
    let garbled = Network::request(Exchange::BodyFailed { message: "m".to_string() });
    assert!(matches!(refused, Err(RpcError::Unreachable(_))));
    assert!(matches!(garbled, Err(RpcError::Network(_))));
    assert_ne!(refused, garbled);
}

#[test]
fn parsed_reply_is_success() {
    assert_eq!(Network::request(Exchange::Replied), Ok(()));
}

#[test]
fn snapshot_transfer_outcomes() {
    assert_eq!(Network::full_snapshot(Transfer::Sent(Exchange::Replied)), Ok(()));
    assert_eq!(
        Network::full_snapshot(Transfer::Cancelled),
        Err(StreamingError::Cancelled)
    );
    assert_eq!(
        Network::full_snapshot(Transfer::ReadFailed { message: "short read".to_string() }),
        Err(StreamingError::IoFailure("short read".to_string()))
    );
    assert_eq!(
        Network::full_snapshot(Transfer::Sent(Exchange::SendFailed {
            connect: true,
            message: "refused".to_string()
        })),
        Err(StreamingError::Unreachable("refused".to_string()))
    );
    assert_eq!(
        Network::full_snapshot(Transfer::Sent(Exchange::SendFailed {
            connect: false,
            message: "reset".to_string()
        })),
        Err(StreamingError::Network("reset".to_string()))
    );
    assert_eq!(
        Network::full_snapshot(Transfer::Sent(Exchange::BodyFailed {
            message: "garbled".to_string()
        })),
        Err(StreamingError::Network("garbled".to_string()))
    );
}

#[test]
fn streaming_error_keeps_the_class_of_the_exchange() {
    assert_eq!(
        StreamingError::from_rpc(RpcError::Unreachable("a".to_string())),
        StreamingError::Unreachable("a".to_string())
    );
    assert_eq!(
        StreamingError::from_rpc(RpcError::Network("b".to_string())),
        StreamingError::Network("b".to_string())
    );
}
