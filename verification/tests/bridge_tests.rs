use std::str::FromStr;

use convex_bridge::bridge::{PollEvent, ResultReceiver};
use convex_bridge::client::{
    accept_subscription, action, mutation, subscribe, subscription_result_key, SubscribeDecision,
    Subscription,
};
use convex_bridge::outcome::{function_result_to_host, FunctionOutcome};
use convex_bridge::value::{HostValue, TypedValue};
use convex_sync_types::UdfPath;

fn dict_pairs(d: HostValue) -> Vec<(HostValue, HostValue)> {
    match d {
        HostValue::Dict(pairs) => pairs,
        _ => panic!("expected a host map"),
    }
}

fn assert_text_pair(pair: &(HostValue, HostValue), key: &str, value: &str) {
    match pair {
        (HostValue::Text(k), HostValue::Text(v)) => {
            assert_eq!(k, key);
            assert_eq!(v, value);
        }
        _ => panic!("expected a string-to-string pair"),
    }
}

#[test]
fn invalid_path_subscribe_yields_invalid_handle() {
    // the protocol library decides path validity; the library's decision
    // must turn a failed parse into an invalid handle and no backend call
    let path_ok = UdfPath::from_str("not a valid path!!").is_ok();
    assert!(!path_ok);
    let args: Vec<(HostValue, HostValue)> = vec![];
    match subscribe(path_ok, &args) {
        SubscribeDecision::Reject(s) => {
            assert!(!s.success);
            assert!(s.subscriber_id.is_none());
        }
        SubscribeDecision::Forward(_) => panic!("an invalid path must not reach the backend"),
    }
}

#[test]
fn valid_subscribe_forwards_typed_args() {
    let path_ok = UdfPath::from_str("messages:list").is_ok();
    assert!(path_ok);
    let args = vec![(
        HostValue::Text("channel".to_string()),
        HostValue::Text("general".to_string()),
    )];
    match subscribe(path_ok, &args) {
        SubscribeDecision::Forward(m) => {
            assert_eq!(m.len(), 1);
            assert_eq!(m[0].0, "channel");
            assert!(matches!(&m[0].1, TypedValue::Text(s) if s == "general"));
        }
        SubscribeDecision::Reject(_) => panic!("a valid call must be forwarded"),
    }
}

#[test]
fn bad_args_subscribe_yields_invalid_handle() {
    let args = vec![(HostValue::Text("k".to_string()), HostValue::Opaque(7))];
    match subscribe(true, &args) {
        SubscribeDecision::Reject(s) => {
            assert!(!s.success);
            assert!(s.subscriber_id.is_none());
        }
        SubscribeDecision::Forward(_) => panic!("undecodable args must not reach the backend"),
    }
}

#[test]
fn mutation_and_action_are_absent_iff_invalid() {
    let good = vec![(HostValue::Text("n".to_string()), HostValue::Int(3))];
    let bad = vec![(HostValue::Int(1), HostValue::Int(3))];
    assert!(mutation(true, &good).is_some());
    assert!(mutation(false, &good).is_none());
    assert!(mutation(true, &bad).is_none());
    assert!(action(true, &good).is_some());
    assert!(action(false, &good).is_none());
    assert!(action(true, &bad).is_none());
}

#[test]
fn invalid_handle_is_never_dereferenced() {
    let invalid = Subscription { success: false, subscriber_id: None };
    assert_eq!(subscription_result_key(&invalid), None);
    let accepted = accept_subscription(42);
    assert!(accepted.success);
    assert_eq!(subscription_result_key(&accepted), Some(42));
}

#[test]
fn no_result_query_converts_to_no_result_map() {
    let d = function_result_to_host(&FunctionOutcome::Absent);
    let pairs = dict_pairs(d);
    assert_eq!(pairs.len(), 1);
    assert_text_pair(&pairs[0], "type", "no_result");
}

#[test]
fn error_result_delivery() {
    let d = function_result_to_host(&FunctionOutcome::ConvexError(
        "X".to_string(),
        TypedValue::Int64(5),
    ));
    let pairs = dict_pairs(d);
    assert_eq!(pairs.len(), 3);
    assert_text_pair(&pairs[0], "type", "convex_error");
    assert_text_pair(&pairs[1], "message", "X");
    match &pairs[2] {
        (HostValue::Text(k), HostValue::Int(5)) => assert_eq!(k, "data"),
        _ => panic!("expected the data field to carry the integer"),
    }
}

#[test]
fn plain_error_message_delivery() {
    let d = function_result_to_host(&FunctionOutcome::ErrorMessage("boom".to_string()));
    let pairs = dict_pairs(d);
    assert_eq!(pairs.len(), 2);
    assert_text_pair(&pairs[0], "type", "error");
    assert_text_pair(&pairs[1], "message", "boom");
}

#[test]
fn value_result_delivery() {
    let d = function_result_to_host(&FunctionOutcome::Value(TypedValue::Boolean(true)));
    let pairs = dict_pairs(d);
    assert_eq!(pairs.len(), 2);
    assert_text_pair(&pairs[0], "type", "value");
    assert!(matches!(pairs[1].1, HostValue::Bool(true)));
}

#[test]
fn pending_result_lifecycle() {
    let mut rr = ResultReceiver::new();
    assert!(rr.success);
    // pending: polls return the empty map, any number of times
    for _ in 0..3 {
        assert!(rr.needs_poll());
        let d = rr.get_result(Some(PollEvent::Empty));
        assert!(dict_pairs(d).is_empty());
    }
    // the producer delivers: exactly this poll returns the value
    assert!(rr.needs_poll());
    let d = rr.get_result(Some(PollEvent::Received(FunctionOutcome::Value(
        TypedValue::Int64(7),
    ))));
    let pairs = dict_pairs(d);
    assert_text_pair(&pairs[0], "type", "value");
    assert!(matches!(pairs[1].1, HostValue::Int(7)));
    // the channel then reports closed: the end is dropped for good
    assert!(rr.needs_poll());
    let d = rr.get_result(Some(PollEvent::Closed));
    assert!(dict_pairs(d).is_empty());
    // and every later poll returns the empty map without a channel poll
    for _ in 0..3 {
        assert!(!rr.needs_poll());
        let d = rr.get_result(None);
        assert!(dict_pairs(d).is_empty());
    }
}

#[test]
fn pending_result_lifecycle_on_a_real_channel() {
    // the same lifecycle, with the events produced by an actual one-shot
    // channel as the adapter would produce them
    let (tx, mut rx) = tokio::sync::oneshot::channel::<i64>();
    let mut rr = ResultReceiver::new();
    let poll = |rx: &mut tokio::sync::oneshot::Receiver<i64>| match rx.try_recv() {
        Ok(n) => PollEvent::Received(FunctionOutcome::Value(TypedValue::Int64(n))),
        Err(tokio::sync::oneshot::error::TryRecvError::Empty) => PollEvent::Empty,
        Err(tokio::sync::oneshot::error::TryRecvError::Closed) => PollEvent::Closed,
    };
    let d = rr.get_result(Some(poll(&mut rx)));
    assert!(dict_pairs(d).is_empty());
    tx.send(9).expect("receiver is alive");
    let d = rr.get_result(Some(poll(&mut rx)));
    let pairs = dict_pairs(d);
    assert_text_pair(&pairs[0], "type", "value");
    assert!(matches!(pairs[1].1, HostValue::Int(9)));
    // a one-shot channel never delivers twice: the next poll observes closed
    let d = rr.get_result(Some(poll(&mut rx)));
    assert!(dict_pairs(d).is_empty());
    assert!(!rr.needs_poll());
}

#[test]
fn pop_next_message_empty_string_when_none() {
    assert_eq!(convex_bridge::pop_next_message(None), "");
    assert_eq!(
        convex_bridge::pop_next_message(Some("{\"type\":\"Ping\"}".to_string())),
        "{\"type\":\"Ping\"}"
    );
}
