//! The worker side: decode a delivery, dispatch it, reply, acknowledge.
//!
//! The consume loop suspends on the broker and runs outside the
//! library; each delivery's fate — the reply envelope, whether a reply
//! is published at all, and the acknowledgement — is decided by the
//! functions here. A handler that suspends (like `stall`, which sleeps)
//! has its waiting done by the host; the decision of what it returns is
//! verified here.

use vstd::prelude::*;
use vstd::string::{StrSliceExecFns, StringExecFns};

use crate::client::Publish;
use crate::encode::jenc;
use crate::json::{jfields_from, JVal, Json};
use crate::parse::parse_json_text;
use crate::rpc::{
    decode_request_bytes, key_code, key_error, key_id, key_jsonrpc, key_message, resp_jval,
    ver_two, ErrView, ErrorResponse, ReqView, Request, RespView, Response, RpcError,
};

verus! {

broadcast use {vstd::seq::group_seq_axioms, vstd::std_specs::vec::group_vec_axioms};

/// One broker delivery, as plain values.
pub struct DeliveryMsg {
    pub body: Vec<u8>,
    pub reply_to: Option<String>,
    pub correlation_id: Option<String>,
    pub delivery_tag: u64,
}

/// What a responder's invocation came to.
pub enum RespondOutcome {
    /// The handler produced a result value.
    Success(Json),
    /// The handler raised a typed error, surfaced verbatim.
    Rpc(ErrorResponse),
    /// The handler failed in an untyped way; the reply carries the
    /// canonical internal-error message, never the host's own words.
    Failure,
}

/// The response a request gets for a given responder outcome.
pub fn response_for(request: &Request, outcome: RespondOutcome) -> (r: Response)
    ensures
        match outcome {
            RespondOutcome::Success(v) => r@ == (RespView::Result {
                id: request@.id,
                result: v.jval(),
            }),
            RespondOutcome::Rpc(e) => r@ == (RespView::Error { id: request@.id, error: e@ }),
            RespondOutcome::Failure => r@ == (RespView::Error {
                id: request@.id,
                error: ErrView {
                    code: -32603,
                    message: "Internal processing error"@,
                    data: None,
                },
            }),
        },
{
    match outcome {
        RespondOutcome::Success(v) => Response::result_for(request, v),
        RespondOutcome::Rpc(e) => Response::new_error(request.id().clone(), e),
        RespondOutcome::Failure => Response::error_for(
            request,
            -32603i32,
            String::from_str("Internal processing error"),
            None,
        ),
    }
}

/// The first string `id` member of an object, if any: what a partial
/// decode can still recover from a malformed request.
pub open spec fn find_id(fields: Seq<(Seq<char>, JVal)>, i: int) -> Option<Seq<char>>
    decreases fields.len() - i,
{
    if !(0 <= i < fields.len()) {
        None
    } else if fields[i].0 == key_id() {
        match fields[i].1 {
            JVal::Str(s) => Some(s),
            _ => None,
        }
    } else {
        find_id(fields, i + 1)
    }
}

/// The id recoverable from malformed request bytes.
pub open spec fn recovered_id(b: Seq<u8>) -> Option<Seq<char>> {
    if vstd::utf8::valid_utf8(b) {
        match parse_json_text(vstd::utf8::decode_utf8(b)) {
            Some(v) => match v {
                JVal::Obj(fields) => find_id(fields, 0),
                _ => None,
            },
            None => None,
        }
    } else {
        None
    }
}

/// The JSON-RPC fault code for a request that did not decode.
pub open spec fn fault_code(e: RpcError) -> int {
    if e == RpcError::ParseError {
        -32700
    } else {
        -32600
    }
}

/// The canonical message for that fault.
pub open spec fn fault_message(e: RpcError) -> Seq<char> {
    if e == RpcError::ParseError {
        "Parse error"@
    } else {
        "Invalid request"@
    }
}

/// The `id` member of an error envelope: the recovered id, or null.
pub open spec fn id_jval(id: Option<Seq<char>>) -> JVal {
    match id {
        Some(s) => JVal::Str(s),
        None => JVal::Null,
    }
}

/// The error envelope for a request that did not decode: its id is the
/// recovered one, or null.
pub open spec fn error_frame_jval(id: Option<Seq<char>>, code: int, message: Seq<char>) -> JVal {
    JVal::Obj(
        seq![
            (key_jsonrpc(), JVal::Str(ver_two())),
            (key_id(), id_jval(id)),
            (
                key_error(),
                JVal::Obj(
                    seq![(key_code(), JVal::Int(code)), (key_message(), JVal::Str(message))],
                ),
            ),
        ],
    )
}

proof fn lemma_error_frame_unfold(id: Option<Seq<char>>, code: int, message: Seq<char>)
    ensures
        error_frame_jval(id, code, message) == JVal::Obj(
            seq![
                (key_jsonrpc(), JVal::Str(ver_two())),
                (key_id(), id_jval(id)),
                (
                    key_error(),
                    JVal::Obj(
                        seq![(key_code(), JVal::Int(code)), (key_message(), JVal::Str(message))],
                    ),
                ),
            ],
        ),
{
}

fn find_id_e(fields: &Vec<(String, Json)>, i: usize, kid: &String) -> (r: Option<String>)
    requires
        i <= fields@.len(),
        kid@ == key_id(),
    ensures
        match r {
            Some(s) => find_id(jfields_from(fields@, 0), i as int) == Some(s@),
            None => find_id(jfields_from(fields@, 0), i as int) is None,
        },
    decreases fields@.len() - i,
{
    proof {
        crate::json::lemma_jfields_from(fields@, 0);
    }
    if i == fields.len() {
        return None;
    }
    if fields[i].0 == *kid {
        match &fields[i].1 {
            Json::Str(s) => Some(s.clone()),
            _ => None,
        }
    } else {
        find_id_e(fields, i + 1, kid)
    }
}

fn recover_id(body: &[u8]) -> (r: Option<String>)
    ensures
        match r {
            Some(s) => recovered_id(body@) == Some(s@),
            None => recovered_id(body@) is None,
        },
{
    match crate::ext::utf8_to_string(body) {
        None => None,
        Some(text) => {
            let chars = crate::parse::str_chars(text.as_str());
            match crate::parse::parse_json_chars(&chars) {
                None => None,
                Some(j) => match j {
                    Json::Obj(fields) => {
                        let kid = String::from_str("id");
                        find_id_e(&fields, 0, &kid)
                    },
                    _ => None,
                },
            }
        },
    }
}

/// The wire bytes of a JSON value.
pub fn json_payload(j: &Json) -> (r: Vec<u8>)
    ensures
        r@ == vstd::utf8::encode_utf8(jenc(j.jval())),
{
    let chars = crate::encode::json_chars(j);
    let text = crate::ext::string_from_chars(&chars);
    text.as_str().as_bytes_vec()
}

/// A decoded delivery, or the error envelope to send back for it.
pub enum Classified {
    Valid(Request),
    Invalid(Json),
}

/// Decodes a delivery body; for a body that is no well-shaped request,
/// builds the error envelope (code -32700 for unparsable bytes, -32600
/// for a wrong shape) around whatever id could be recovered.
#[verifier::rlimit(60)]
pub fn classify_delivery(body: &[u8]) -> (r: Classified)
    ensures
        match decode_request_bytes(body@) {
            Ok(rv) => r matches Classified::Valid(req) && req@ == rv,
            Err(e) => r matches Classified::Invalid(frame) && frame.jval() == error_frame_jval(
                recovered_id(body@),
                fault_code(e),
                fault_message(e),
            ),
        },
{
    match Request::decode(body) {
        Ok(req) => Classified::Valid(req),
        Err(e) => {
            let code: i64 = if e == RpcError::ParseError {
                -32700
            } else {
                -32600
            };
            let message = if e == RpcError::ParseError {
                String::from_str("Parse error")
            } else {
                String::from_str("Invalid request")
            };
            let id_json = match recover_id(body) {
                Some(s) => Json::Str(s),
                None => Json::Null,
            };
            let mut err_fields: Vec<(String, Json)> = Vec::new();
            err_fields.push((String::from_str("code"), Json::Int(code)));
            err_fields.push((String::from_str("message"), Json::Str(message)));
            let ghost gef = err_fields@;
            let err_obj = Json::Obj(err_fields);
            let mut fields: Vec<(String, Json)> = Vec::new();
            fields.push((String::from_str("jsonrpc"), Json::Str(String::from_str("2.0"))));
            fields.push((String::from_str("id"), id_json));
            fields.push((String::from_str("error"), err_obj));
            let ghost gf = fields@;
            let frame = Json::Obj(fields);
            proof {
                crate::json::lemma_jfields_from(gef, 0);
                assert(jfields_from(gef, 0) =~= seq![
                    (key_code(), JVal::Int(fault_code(e))),
                    (key_message(), JVal::Str(fault_message(e))),
                ]);
                crate::json::lemma_jfields_from(gf, 0);
                assert(frame.jval() == JVal::Obj(jfields_from(gf, 0)));
                assert(gf[2].1.jval() == JVal::Obj(jfields_from(gef, 0)));
                assert(gf[0].1.jval() == JVal::Str(ver_two()));
                assert(gf[1].1.jval() == id_jval(recovered_id(body@)));
                assert(jfields_from(gf, 0) =~= seq![
                    (key_jsonrpc(), JVal::Str(ver_two())),
                    (key_id(), id_jval(recovered_id(body@))),
                    (
                        key_error(),
                        JVal::Obj(
                            seq![
                                (key_code(), JVal::Int(fault_code(e))),
                                (key_message(), JVal::Str(fault_message(e))),
                            ],
                        ),
                    ),
                ]);
                lemma_error_frame_unfold(recovered_id(body@), fault_code(e), fault_message(e));
                assert(frame.jval() == error_frame_jval(
                    recovered_id(body@),
                    fault_code(e),
                    fault_message(e),
                ));
            }
            Classified::Invalid(frame)
        },
    }
}

/// True when a delivery asks for no reply.
pub open spec fn no_reply_requested(reply_to: Option<String>) -> bool {
    match reply_to {
        None => true,
        Some(q) => q@.len() == 0,
    }
}

/// The reply publish for a delivery: to the `reply-to` queue when one
/// is named and non-empty, with the correlation id copied; otherwise
/// nothing is published at all.
pub fn reply_plan(reply_to: &Option<String>, correlation_id: &Option<String>, payload: Vec<u8>) -> (r:
    Option<Publish>)
    ensures
        no_reply_requested(*reply_to) <==> r is None,
        match r {
            Some(p) => {
                &&& match reply_to {
                    Some(q) => p.routing_key@ == q@,
                    None => false,
                }
                &&& p.payload@ == payload@
                &&& p.content_type@ == "application/json"@
                &&& p.reply_to is None
                &&& match correlation_id {
                    Some(c) => p.correlation_id matches Some(pc) && pc@ == c@,
                    None => p.correlation_id is None,
                }
            },
            None => true,
        },
{
    match reply_to {
        None => None,
        Some(q) => {
            if q.as_str().is_empty() {
                None
            } else {
                let corr = match correlation_id {
                    Some(c) => Some(c.clone()),
                    None => None,
                };
                Some(
                    Publish {
                        routing_key: q.clone(),
                        payload,
                        content_type: String::from_str("application/json"),
                        reply_to: None,
                        correlation_id: corr,
                    },
                )
            }
        },
    }
}

/// The demonstration responder: `echo` answers its parameters and
/// counts handled calls, `stall` answers `false` after the host's
/// sleep, anything else is "Method not found".
pub struct WorkerContext {
    pub handler_count: usize,
    pub terminated: bool,
}

impl WorkerContext {
    /// A fresh context: nothing handled, not terminated.
    pub fn new() -> (r: WorkerContext)
        ensures
            r.handler_count == 0,
            !r.terminated,
    {
        WorkerContext { handler_count: 0, terminated: false }
    }

    /// The reply value for one request; never touches the termination
    /// flag.
    pub fn respond(&mut self, request: &Request) -> (r: Result<Json, ErrorResponse>)
        requires
            old(self).handler_count < usize::MAX,
        ensures
            final(self).terminated == old(self).terminated,
            if request@.method == "echo"@ {
                &&& final(self).handler_count == old(self).handler_count + 1
                &&& r matches Ok(v) && v.jval() == match request@.params {
                    Some(p) => p,
                    None => JVal::Null,
                }
            } else if request@.method == "stall"@ {
                &&& final(self).handler_count == old(self).handler_count
                &&& r matches Ok(v) && v.jval() == JVal::Bool(false)
            } else {
                &&& final(self).handler_count == old(self).handler_count
                &&& r matches Err(e) && e@ == (ErrView {
                    code: -32601,
                    message: "Method not found"@,
                    data: None,
                })
            },
    {
        let echo = String::from_str("echo");
        let stall = String::from_str("stall");
        if *request.method() == echo {
            self.handler_count = self.handler_count + 1;
            match request.params() {
                Some(p) => Ok(p.dup()),
                None => Ok(Json::Null),
            }
        } else if *request.method() == stall {
            Ok(Json::Bool(false))
        } else {
            Err(ErrorResponse::new(-32601i32, String::from_str("Method not found"), None))
        }
    }

    /// Whether the host has asked this worker to stop.
    pub fn terminated(&self) -> (r: bool)
        ensures
            r == self.terminated,
    {
        self.terminated
    }

    /// The host's termination request.
    pub fn terminate(&mut self)
        ensures
            final(self).terminated,
            final(self).handler_count == old(self).handler_count,
    {
        self.terminated = true;
    }
}

/// The reply the demonstration responder owes a decoded request.
pub open spec fn demo_reply(rv: ReqView) -> RespView {
    if rv.method == "echo"@ {
        RespView::Result {
            id: rv.id,
            result: match rv.params {
                Some(p) => p,
                None => JVal::Null,
            },
        }
    } else if rv.method == "stall"@ {
        RespView::Result { id: rv.id, result: JVal::Bool(false) }
    } else {
        RespView::Error {
            id: rv.id,
            error: ErrView { code: -32601, message: "Method not found"@, data: None },
        }
    }
}

/// The full reply envelope the worker owes a delivery body.
pub open spec fn worker_reply(b: Seq<u8>) -> JVal {
    match decode_request_bytes(b) {
        Ok(rv) => resp_jval(demo_reply(rv)),
        Err(e) => error_frame_jval(recovered_id(b), fault_code(e), fault_message(e)),
    }
}

/// What one delivery comes to: at most one publish, then the ack.
pub struct WorkerStep {
    pub publish: Option<Publish>,
    pub acked_tag: u64,
}

/// One delivery, start to finish: decode, dispatch to the context,
/// publish the reply exactly when `reply-to` names a queue, and
/// acknowledge with the broker's tag.
pub fn handle_delivery(ctx: &mut WorkerContext, d: &DeliveryMsg) -> (step: WorkerStep)
    requires
        old(ctx).handler_count < usize::MAX,
    ensures
        final(ctx).terminated == old(ctx).terminated,
        final(ctx).handler_count == old(ctx).handler_count + (
        match decode_request_bytes(d.body@) {
            Ok(rv) => if rv.method == "echo"@ {
                1int
            } else {
                0int
            },
            Err(_) => 0int,
        }),
        step.acked_tag == d.delivery_tag,
        no_reply_requested(d.reply_to) <==> step.publish is None,
        match step.publish {
            Some(p) => {
                &&& p.payload@ == vstd::utf8::encode_utf8(jenc(worker_reply(d.body@)))
                &&& match d.reply_to {
                    Some(q) => p.routing_key@ == q@,
                    None => false,
                }
                &&& p.reply_to is None
                &&& p.content_type@ == "application/json"@
                &&& match d.correlation_id {
                    Some(c) => p.correlation_id matches Some(pc) && pc@ == c@,
                    None => p.correlation_id is None,
                }
            },
            None => true,
        },
{
    let payload: Vec<u8> = match classify_delivery(d.body.as_slice()) {
        Classified::Valid(request) => {
            let outcome = match ctx.respond(&request) {
                Ok(v) => RespondOutcome::Success(v),
                Err(e) => RespondOutcome::Rpc(e),
            };
            let response = response_for(&request, outcome);
            proof {
                assert(resp_jval(response@) == worker_reply(d.body@));
            }
            response.encode_bytes()
        },
        Classified::Invalid(frame) => json_payload(&frame),
    };
    let publish = reply_plan(&d.reply_to, &d.correlation_id, payload);
    WorkerStep { publish, acked_tag: d.delivery_tag }
}

/// An event the run loop multiplexes: a delivery, or the termination
/// signal.
pub enum WorkerEvent {
    Delivery(DeliveryMsg),
    Terminate,
}

/// The index of the first termination signal at or after `i`, or the
/// end.
pub open spec fn cut_of(events: Seq<WorkerEvent>, i: int) -> int
    decreases events.len() - i,
{
    if !(0 <= i < events.len()) {
        events.len() as int
    } else {
        match events[i] {
            WorkerEvent::Terminate => i,
            _ => cut_of(events, i + 1),
        }
    }
}

proof fn lemma_cut_of(events: Seq<WorkerEvent>, i: int)
    requires
        0 <= i <= events.len(),
    ensures
        i <= cut_of(events, i) <= events.len(),
        forall|k: int| i <= k < cut_of(events, i) ==> !((#[trigger] events[k]) is Terminate),
        cut_of(events, i) < events.len() ==> events[cut_of(events, i)] is Terminate,
    decreases events.len() - i,
{
    if i < events.len() && !(events[i] is Terminate) {
        lemma_cut_of(events, i + 1);
    }
}

/// The run loop over a sequence of events, with the demonstration
/// responder. Handlers run one at a time, in order; every delivery
/// before the termination signal is handled and acknowledged; no
/// delivery at or after the signal is touched.
pub fn worker_run(ctx: &mut WorkerContext, events: &Vec<WorkerEvent>) -> (steps: Vec<WorkerStep>)
    requires
        !old(ctx).terminated,
        old(ctx).handler_count + events@.len() <= usize::MAX,
    ensures
        steps@.len() == cut_of(events@, 0),
        forall|k: int|
            0 <= k < steps@.len() ==> match events@[k] {
                WorkerEvent::Delivery(d) => {
                    &&& (#[trigger] steps@[k]).acked_tag == d.delivery_tag
                    &&& (no_reply_requested(d.reply_to) <==> steps@[k].publish is None)
                    &&& match steps@[k].publish {
                        Some(p) => p.payload@ == vstd::utf8::encode_utf8(
                            jenc(worker_reply(d.body@)),
                        ),
                        None => true,
                    }
                },
                WorkerEvent::Terminate => false,
            },
{
    let ghost cut = cut_of(events@, 0);
    proof {
        lemma_cut_of(events@, 0);
    }
    let mut steps: Vec<WorkerStep> = Vec::new();
    let mut i: usize = 0;
    while i < events.len()
        invariant
            !ctx.terminated,
            ctx.handler_count <= old(ctx).handler_count + i,
            old(ctx).handler_count + events@.len() <= usize::MAX,
            i <= cut <= events@.len(),
            cut == cut_of(events@, 0),
            forall|k: int| 0 <= k < cut ==> !((#[trigger] events@[k]) is Terminate),
            cut < events@.len() ==> events@[cut] is Terminate,
            steps@.len() == i,
            forall|k: int|
                0 <= k < i ==> match events@[k] {
                    WorkerEvent::Delivery(d) => {
                        &&& (#[trigger] steps@[k]).acked_tag == d.delivery_tag
                        &&& (no_reply_requested(d.reply_to) <==> steps@[k].publish is None)
                        &&& match steps@[k].publish {
                            Some(p) => p.payload@ == vstd::utf8::encode_utf8(
                                jenc(worker_reply(d.body@)),
                            ),
                            None => true,
                        }
                    },
                    WorkerEvent::Terminate => false,
                },
        decreases events@.len() - i,
    {
        match &events[i] {
            WorkerEvent::Terminate => {
                proof {
                    assert(i == cut);
                }
                return steps;
            },
            WorkerEvent::Delivery(d) => {
                let step = handle_delivery(ctx, d);
                steps.push(step);
                i = i + 1;
            },
        }
    }
    steps
}

} // verus!
