use skein_rpc::json::Json;
use skein_rpc::rpc::{Request, Response};
use skein_rpc::worker::{
    classify_delivery, handle_delivery, reply_plan, response_for, worker_run, Classified,
    DeliveryMsg, RespondOutcome, WorkerContext, WorkerEvent,
};

fn s(x: &str) -> String {
    x.to_string()
}

fn delivery(body: &str, reply_to: Option<&str>, tag: u64) -> DeliveryMsg {
    DeliveryMsg {
        body: body.as_bytes().to_vec(),
        reply_to: reply_to.map(|q| q.to_string()),
        correlation_id: Some(format!("corr-{}", tag)),
        delivery_tag: tag,
    }
}

#[test]
fn echo_happy_path() {
    let mut ctx = WorkerContext::new();
    let body = "{\"jsonrpc\":\"2.0\",\"id\":\"a\",\"method\":\"echo\",\"params\":[\"hi\"]}";
    let d = delivery(body, Some("replies"), 1);
    let step = handle_delivery(&mut ctx, &d);

    assert_eq!(step.acked_tag, 1);
    let p = step.publish.expect("a reply must be published");
    assert_eq!(p.routing_key.as_str(), "replies");
    assert_eq!(p.content_type.as_str(), "application/json");
    assert_eq!(p.correlation_id.as_deref(), Some("corr-1"));
    assert_eq!(
        String::from_utf8(p.payload).unwrap(),
        "{\"jsonrpc\":\"2.0\",\"id\":\"a\",\"result\":[\"hi\"]}"
    );
    assert_eq!(ctx.handler_count, 1);
}

#[test]
fn unknown_method_is_reported() {
    let mut ctx = WorkerContext::new();
    let body = "{\"jsonrpc\":\"2.0\",\"id\":\"b\",\"method\":\"frobnicate\"}";
    let d = delivery(body, Some("replies"), 2);
    let step = handle_delivery(&mut ctx, &d);

    let p = step.publish.expect("a reply must be published");
    assert_eq!(
        String::from_utf8(p.payload).unwrap(),
        "{\"jsonrpc\":\"2.0\",\"id\":\"b\",\"error\":{\"code\":-32601,\"message\":\"Method not found\"}}"
    );
    assert_eq!(ctx.handler_count, 0);
}

#[test]
fn internal_error_is_redacted() {
    let req = Request::new(s("c"), s("boom"), None);
    let r = response_for(&req, RespondOutcome::Failure);
    assert_eq!(
        r.encode(),
        "{\"jsonrpc\":\"2.0\",\"id\":\"c\",\"error\":{\"code\":-32603,\"message\":\"Internal processing error\"}}"
    );
}

#[test]
fn typed_errors_are_surfaced_verbatim() {
    let req = Request::new(s("t"), s("m"), None);
    let e = skein_rpc::rpc::ErrorResponse::new(-32601, s("Method not found"), None);
    let r = response_for(&req, RespondOutcome::Rpc(e));
    let decoded = Response::decode(&r.encode_bytes()).unwrap();
    assert!(decoded.is_error());
    assert_eq!(decoded.id().as_str(), "t");
}

#[test]
fn parse_error_reply_has_null_id() {
    let mut ctx = WorkerContext::new();
    let d = delivery("not json", Some("R"), 3);
    let step = handle_delivery(&mut ctx, &d);

    assert_eq!(step.acked_tag, 3);
    let p = step.publish.expect("a reply must be published");
    assert_eq!(p.routing_key.as_str(), "R");
    assert_eq!(
        String::from_utf8(p.payload).unwrap(),
        "{\"jsonrpc\":\"2.0\",\"id\":null,\"error\":{\"code\":-32700,\"message\":\"Parse error\"}}"
    );
}

#[test]
fn shape_error_recovers_the_id() {
    // a JSON object, but no method: invalid, yet the id survives
    match classify_delivery("{\"id\":\"kept\"}".as_bytes()) {
        Classified::Invalid(frame) => {
            let text = String::from_utf8(skein_rpc::worker::json_payload(&frame)).unwrap();
            assert_eq!(
                text,
                "{\"jsonrpc\":\"2.0\",\"id\":\"kept\",\"error\":{\"code\":-32600,\"message\":\"Invalid request\"}}"
            );
        },
        Classified::Valid(_) => panic!("an id alone is not a valid request"),
    }
}

#[test]
fn missing_or_empty_reply_to_elides_the_publish() {
    let mut ctx = WorkerContext::new();
    let body = "{\"jsonrpc\":\"2.0\",\"id\":\"a\",\"method\":\"echo\"}";

    let none = handle_delivery(&mut ctx, &delivery(body, None, 4));
    assert!(none.publish.is_none());
    assert_eq!(none.acked_tag, 4);

    let empty = handle_delivery(&mut ctx, &delivery(body, Some(""), 5));
    assert!(empty.publish.is_none());
    assert_eq!(empty.acked_tag, 5);
}

#[test]
fn reply_plan_copies_the_correlation_id() {
    let p = reply_plan(&Some(s("q")), &Some(s("c-9")), vec![1, 2, 3]).unwrap();
    assert_eq!(p.routing_key.as_str(), "q");
    assert_eq!(p.correlation_id.as_deref(), Some("c-9"));
    assert_eq!(p.payload, vec![1, 2, 3]);
    assert_eq!(p.reply_to, None);

    assert!(reply_plan(&None, &Some(s("c")), vec![]).is_none());
    assert!(reply_plan(&Some(s("")), &Some(s("c")), vec![]).is_none());
}

#[test]
fn stall_answers_false() {
    let mut ctx = WorkerContext::new();
    let req = Request::new(s("s"), s("stall"), None);
    // the host does the sleeping; the decision is the value below
    assert_eq!(ctx.respond(&req), Ok(Json::Bool(false)));
    assert_eq!(ctx.handler_count, 0);
}

#[test]
fn echo_without_params_answers_null() {
    let mut ctx = WorkerContext::new();
    let req = Request::new(s("e"), s("echo"), None);
    assert_eq!(ctx.respond(&req), Ok(Json::Null));
    assert_eq!(ctx.handler_count, 1);
}

#[test]
fn termination_stops_the_loop_after_the_ack() {
    let mut ctx = WorkerContext::new();
    let body = "{\"jsonrpc\":\"2.0\",\"id\":\"a\",\"method\":\"echo\"}";
    let events = vec![
        WorkerEvent::Delivery(delivery(body, Some("R"), 1)),
        WorkerEvent::Terminate,
        WorkerEvent::Delivery(delivery(body, Some("R"), 2)),
    ];
    let steps = worker_run(&mut ctx, &events);

    // the in-flight delivery completed and was acked; the later one was
    // never taken
    assert_eq!(steps.len(), 1);
    assert_eq!(steps[0].acked_tag, 1);
    assert_eq!(ctx.handler_count, 1);
}

#[test]
fn handlers_run_one_at_a_time_in_order() {
    let mut ctx = WorkerContext::new();
    let body = "{\"jsonrpc\":\"2.0\",\"id\":\"a\",\"method\":\"echo\"}";
    let events = vec![
        WorkerEvent::Delivery(delivery(body, Some("R"), 1)),
        WorkerEvent::Delivery(delivery(body, None, 2)),
        WorkerEvent::Delivery(delivery(body, Some("R"), 3)),
    ];
    let steps = worker_run(&mut ctx, &events);
    assert_eq!(steps.len(), 3);
    assert_eq!(
        steps.iter().map(|st| st.acked_tag).collect::<Vec<u64>>(),
        vec![1, 2, 3]
    );
    assert_eq!(ctx.handler_count, 3);
}
