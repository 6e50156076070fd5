use skein_rpc::client::{
    fresh_reply_queue_name, new_request, reply_queue_name, reply_queue_options,
    work_queue_options, Client, DeliveryOutcome,
};
use skein_rpc::json::Json;
use skein_rpc::rpc::{Request, Response};

fn s(x: &str) -> String {
    x.to_string()
}

fn client() -> Client {
    Client::new(s("work"), s("replies-1"))
}

#[test]
fn queue_attributes_match_the_topology() {
    let work = work_queue_options();
    assert!(work.durable && !work.exclusive && !work.auto_delete);

    let reply = reply_queue_options();
    assert!(!reply.durable && !reply.exclusive && reply.auto_delete);
}

#[test]
fn reply_queue_name_shape() {
    assert_eq!(reply_queue_name("cli", "u-u-i-d", "host"), "cli-u-u-i-d@host");
}

#[test]
fn fresh_reply_queue_name_carries_the_ident() {
    let name = fresh_reply_queue_name("amqp-client");
    assert!(name.starts_with("amqp-client-"));
    assert!(name.contains('@'));
}

#[test]
fn fresh_request_ids_are_unique() {
    let a = new_request(s("m"), None);
    let b = new_request(s("m"), None);
    assert_eq!(a.id().len(), 36);
    assert_ne!(a.id(), b.id());
}

#[test]
fn submission_publish_carries_the_envelope() {
    let c = client();
    let req = Request::new(s("id-1"), s("echo"), Some(Json::Int(5)));
    let p = c.submission_publish(&req);
    assert_eq!(p.routing_key.as_str(), "work");
    assert_eq!(p.content_type.as_str(), "application/json");
    assert_eq!(p.reply_to.as_deref(), Some("replies-1"));
    assert_eq!(p.correlation_id.as_deref(), Some("id-1"));
    assert_eq!(p.payload, req.encode_bytes());
}

#[test]
fn inject_publish_has_no_reply_to() {
    let mut c = client();
    let req = Request::new(s("id-2"), s("log"), Some(Json::Arr(vec![Json::Int(1)])));
    let p = c.inject_publish(&req);
    assert_eq!(p.reply_to, None);
    assert_eq!(p.routing_key.as_str(), "work");
    assert_eq!(p.correlation_id.as_deref(), Some("id-2"));

    // fire-and-forget allocates no pending entry: a reply for that id
    // would be an orphan
    let stray = Response::new_result(s("id-2"), Json::Null).encode_bytes();
    assert!(matches!(c.on_delivery(&stray), DeliveryOutcome::Orphan));
}

#[test]
fn replies_in_reverse_order_reach_their_callers() {
    let mut c = client();
    let ra = Request::new(s("a"), s("m"), None);
    let rb = Request::new(s("b"), s("m"), None);
    c.on_publish_ok(&ra, 10);
    c.on_publish_ok(&rb, 20);

    let reply_b = Response::new_result(s("b"), Json::Int(2)).encode_bytes();
    match c.on_delivery(&reply_b) {
        DeliveryOutcome::Reply { token, response } => {
            assert_eq!(token, 20);
            assert_eq!(response.id().as_str(), "b");
        },
        _ => panic!("expected a reply for b"),
    }

    let reply_a = Response::new_result(s("a"), Json::Int(1)).encode_bytes();
    match c.on_delivery(&reply_a) {
        DeliveryOutcome::Reply { token, response } => {
            assert_eq!(token, 10);
            assert_eq!(response.id().as_str(), "a");
        },
        _ => panic!("expected a reply for a"),
    }
}

#[test]
fn orphan_replies_leave_other_callers_alone() {
    let mut c = client();
    let ra = Request::new(s("a"), s("m"), None);
    c.on_publish_ok(&ra, 10);

    let orphan = Response::new_result(s("nobody"), Json::Null).encode_bytes();
    assert!(matches!(c.on_delivery(&orphan), DeliveryOutcome::Orphan));

    let reply_a = Response::new_result(s("a"), Json::Null).encode_bytes();
    assert!(matches!(
        c.on_delivery(&reply_a),
        DeliveryOutcome::Reply { token: 10, .. }
    ));
}

#[test]
fn malformed_replies_are_discarded() {
    let mut c = client();
    let ra = Request::new(s("a"), s("m"), None);
    c.on_publish_ok(&ra, 10);

    assert!(matches!(c.on_delivery("not json".as_bytes()), DeliveryOutcome::Malformed));
    assert!(matches!(
        c.on_delivery(&Response::new_result(s("a"), Json::Null).encode_bytes()),
        DeliveryOutcome::Reply { token: 10, .. }
    ));
}

#[test]
fn timed_out_calls_discard_late_replies() {
    let mut c = client();
    let stall = Request::new(s("s1"), s("stall"), None);
    c.on_publish_ok(&stall, 7);

    assert_eq!(c.on_timeout(&s("s1")), Some(7));
    assert_eq!(c.on_timeout(&s("s1")), None);

    // the late reply finds no caller
    let late = Response::new_result(s("s1"), Json::Bool(false)).encode_bytes();
    assert!(matches!(c.on_delivery(&late), DeliveryOutcome::Orphan));

    // the loop is undisturbed for later submissions
    let next = Request::new(s("s2"), s("m"), None);
    c.on_publish_ok(&next, 8);
    let reply = Response::new_result(s("s2"), Json::Int(1)).encode_bytes();
    assert!(matches!(
        c.on_delivery(&reply),
        DeliveryOutcome::Reply { token: 8, .. }
    ));
}

#[test]
fn close_returns_every_pending_ticket() {
    let mut c = client();
    c.on_publish_ok(&Request::new(s("a"), s("m"), None), 1);
    c.on_publish_ok(&Request::new(s("b"), s("m"), None), 2);
    let mut tickets = c.on_close();
    tickets.sort();
    assert_eq!(tickets, vec![1, 2]);

    // nothing stays pending
    let reply = Response::new_result(s("a"), Json::Null).encode_bytes();
    assert!(matches!(c.on_delivery(&reply), DeliveryOutcome::Orphan));
}

#[test]
fn failed_publish_answers_the_caller_directly() {
    let c = client();
    let req = Request::new(s("f"), s("m"), None);
    let r = c.on_publish_failed(&req, "connection reset by broker");
    assert!(r.is_error());
    assert_eq!(r.id().as_str(), "f");
    let text = r.encode();
    assert!(text.contains("-32603"));
    assert!(text.contains("Could not send request: connection reset by broker"));
}
