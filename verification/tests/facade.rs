use rosrust::connection::{conn_step, ConnEvent, ConnState};
use rosrust::errors::MasterError;
use rosrust::ros::{master_uri_or_default, publish_step, subscribe_step, PublishStep, Ros, SubscribeStep};

#[test]
fn node_uri_reports_own_address() {
    let ros = Ros::new("/node".to_string(), "host".to_string(), "http://host:123/".to_string());
    assert_eq!(ros.node_uri(), "http://host:123/");
}

#[test]
fn master_uri_default_applies_only_when_unset() {
    assert_eq!(master_uri_or_default(None), "http://localhost:11311/");
    assert_eq!(master_uri_or_default(Some("http://m:1/".to_string())), "http://m:1/");
}

#[test]
fn has_param_follows_directory_status() {
    let ros = Ros::new("/n".to_string(), "h".to_string(), "u".to_string());
    assert_eq!(ros.has_param(1, "ok".to_string(), true), Ok(true));
    assert_eq!(ros.has_param(1, "ok".to_string(), false), Ok(false));
    assert_eq!(
        ros.has_param(0, "no such".to_string(), true),
        Err(MasterError::Failure("no such".to_string()))
    );
}

#[test]
fn get_param_names_follows_directory_status() {
    let ros = Ros::new("/n".to_string(), "h".to_string(), "u".to_string());
    let names = vec!["/a".to_string(), "/b".to_string()];
    assert_eq!(ros.get_param_names(1, "ok".to_string(), names.clone()), Ok(names));
    assert_eq!(
        ros.get_param_names(-1, "down".to_string(), vec![]),
        Err(MasterError::Failure("down".to_string()))
    );
}

#[test]
fn subscribe_step_connects_or_rolls_back() {
    let publishers = vec!["http://p:1/".to_string()];
    match subscribe_step(Ok(publishers.clone())) {
        SubscribeStep::Connect(p) => assert_eq!(p, publishers),
        SubscribeStep::Rollback(_) => panic!("registration succeeded"),
    }
    match subscribe_step(Err(MasterError::Failure("down".to_string()))) {
        SubscribeStep::Connect(_) => panic!("registration failed"),
        SubscribeStep::Rollback(MasterError::Failure(m)) => assert_eq!(m, "down"),
    }
}

#[test]
fn publish_step_keeps_or_retracts() {
    assert!(matches!(publish_step(Ok(())), PublishStep::Keep));
    match publish_step(Err(MasterError::Failure("down".to_string()))) {
        PublishStep::Keep => panic!("registration failed"),
        PublishStep::Retract(MasterError::Failure(m)) => assert_eq!(m, "down"),
    }
}

#[test]
fn connection_walks_the_lifecycle() {
    let s = conn_step(ConnState::Connecting, ConnEvent::Opened);
    assert_eq!(s, ConnState::Negotiating);
    let s = conn_step(s, ConnEvent::HandshakeOk);
    assert_eq!(s, ConnState::Streaming);
    let s = conn_step(s, ConnEvent::Delivered);
    assert_eq!(s, ConnState::Streaming);
}

#[test]
fn handshake_failure_closes_without_streaming() {
    assert_eq!(conn_step(ConnState::Negotiating, ConnEvent::HandshakeFailed), ConnState::Closed);
    assert_eq!(conn_step(ConnState::Connecting, ConnEvent::StreamBroken), ConnState::Closed);
}

#[test]
fn consumer_drop_closes_within_one_step_for_good() {
    let s = conn_step(ConnState::Streaming, ConnEvent::ConsumerGone);
    assert_eq!(s, ConnState::Closed);
    assert_eq!(conn_step(s, ConnEvent::Delivered), ConnState::Closed);
    assert_eq!(conn_step(s, ConnEvent::Opened), ConnState::Closed);
}
