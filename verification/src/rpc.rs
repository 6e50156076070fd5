//! The JSON-RPC 2.0 envelope: requests, responses, and their wire codec.
//!
//! Encoding always writes `"jsonrpc":"2.0"` first and omits absent
//! members (`params`, an error's `data`). Decoding requires `id` (and
//! `method` on requests) and tolerates any string `jsonrpc` value, or
//! none; a response must carry exactly one of `result` and `error`.

use vstd::prelude::*;
use vstd::string::{StrSliceExecFns, StringExecFns};

use crate::encode::{enc_str, esc_str, jenc};
use crate::json::{jfields_from, jval_wf, JVal, Json};
use crate::parse::parse_json_text;

verus! {

broadcast use vstd::seq::group_seq_axioms;

/// The error kinds this transport distinguishes.
#[derive(Clone, Copy, Debug, PartialEq, Eq, Structural)]
pub enum RpcError {
    /// Bytes that are not UTF-8 or not a JSON object.
    ParseError,
    /// A JSON object that is not a well-shaped request.
    InvalidRequest,
    /// A JSON object that is not a well-shaped response.
    InvalidResponse,
    /// No reply arrived within the caller's deadline.
    Timeout,
    /// The client was shut down while the call was pending.
    ClientClosed,
    /// The broker refused the publish.
    Transport,
}

/// A remote call.
#[derive(Debug, PartialEq, Eq)]
pub struct Request {
    id: String,
    method: String,
    params: Option<Json>,
}

/// The error member of an error response.
#[derive(Debug, PartialEq, Eq)]
pub struct ErrorResponse {
    pub code: i32,
    pub message: String,
    pub data: Option<Json>,
}

/// A reply: a result or an error, each tied to a request id.
#[derive(Debug, PartialEq, Eq)]
pub enum Response {
    Result { id: String, result: Json },
    Error { id: String, error: ErrorResponse },
}

/// Mathematical shape of a request.
pub struct ReqView {
    pub id: Seq<char>,
    pub method: Seq<char>,
    pub params: Option<JVal>,
}

/// Mathematical shape of an error member.
pub struct ErrView {
    pub code: int,
    pub message: Seq<char>,
    pub data: Option<JVal>,
}

/// Mathematical shape of a response.
pub enum RespView {
    Result { id: Seq<char>, result: JVal },
    Error { id: Seq<char>, error: ErrView },
}

impl View for Request {
    type V = ReqView;

    closed spec fn view(&self) -> ReqView {
        ReqView {
            id: self.id@,
            method: self.method@,
            params: match self.params {
                Some(p) => Some(p.jval()),
                None => None,
            },
        }
    }
}

impl View for ErrorResponse {
    type V = ErrView;

    closed spec fn view(&self) -> ErrView {
        ErrView {
            code: self.code as int,
            message: self.message@,
            data: match self.data {
                Some(d) => Some(d.jval()),
                None => None,
            },
        }
    }
}

impl View for Response {
    type V = RespView;

    closed spec fn view(&self) -> RespView {
        match self {
            Response::Result { id, result } => RespView::Result { id: id@, result: result.jval() },
            Response::Error { id, error } => RespView::Error { id: id@, error: error@ },
        }
    }
}

/// A request whose parameters the wire can carry.
pub open spec fn req_wf(r: ReqView) -> bool {
    match r.params {
        Some(p) => jval_wf(p),
        None => true,
    }
}

/// An error member the wire can carry.
pub open spec fn err_wf(e: ErrView) -> bool {
    &&& -2147483648 <= e.code < 2147483648
    &&& match e.data {
        Some(d) => jval_wf(d),
        None => true,
    }
}

/// A response the wire can carry.
pub open spec fn resp_wf(r: RespView) -> bool {
    match r {
        RespView::Result { result, .. } => jval_wf(result),
        RespView::Error { error, .. } => err_wf(error),
    }
}

pub open spec fn key_jsonrpc() -> Seq<char> {
    "jsonrpc"@
}

pub open spec fn key_id() -> Seq<char> {
    "id"@
}

pub open spec fn key_method() -> Seq<char> {
    "method"@
}

pub open spec fn key_params() -> Seq<char> {
    "params"@
}

pub open spec fn key_result() -> Seq<char> {
    "result"@
}

pub open spec fn key_error() -> Seq<char> {
    "error"@
}

pub open spec fn key_code() -> Seq<char> {
    "code"@
}

pub open spec fn key_message() -> Seq<char> {
    "message"@
}

pub open spec fn key_data() -> Seq<char> {
    "data"@
}

pub open spec fn ver_two() -> Seq<char> {
    "2.0"@
}

/// The JSON value a request stands for on the wire.
pub open spec fn req_jval(r: ReqView) -> JVal {
    match r.params {
        Some(p) => JVal::Obj(
            seq![
                (key_jsonrpc(), JVal::Str(ver_two())),
                (key_id(), JVal::Str(r.id)),
                (key_method(), JVal::Str(r.method)),
                (key_params(), p),
            ],
        ),
        None => JVal::Obj(
            seq![
                (key_jsonrpc(), JVal::Str(ver_two())),
                (key_id(), JVal::Str(r.id)),
                (key_method(), JVal::Str(r.method)),
            ],
        ),
    }
}

/// The JSON value of an error member: `data` omitted when absent.
pub open spec fn err_jval(e: ErrView) -> JVal {
    match e.data {
        Some(d) => JVal::Obj(
            seq![
                (key_code(), JVal::Int(e.code)),
                (key_message(), JVal::Str(e.message)),
                (key_data(), d),
            ],
        ),
        None => JVal::Obj(
            seq![(key_code(), JVal::Int(e.code)), (key_message(), JVal::Str(e.message))],
        ),
    }
}

/// The JSON value a response stands for on the wire.
pub open spec fn resp_jval(r: RespView) -> JVal {
    match r {
        RespView::Result { id, result } => JVal::Obj(
            seq![
                (key_jsonrpc(), JVal::Str(ver_two())),
                (key_id(), JVal::Str(id)),
                (key_result(), result),
            ],
        ),
        RespView::Error { id, error } => JVal::Obj(
            seq![
                (key_jsonrpc(), JVal::Str(ver_two())),
                (key_id(), JVal::Str(id)),
                (key_error(), err_jval(error)),
            ],
        ),
    }
}

/// The canonical text of a request.
pub open spec fn enc_request(r: ReqView) -> Seq<char> {
    jenc(req_jval(r))
}

/// The canonical text of a response.
pub open spec fn enc_response(r: RespView) -> Seq<char> {
    jenc(resp_jval(r))
}

/// The canonical text of a bare error member.
pub open spec fn enc_error(e: ErrView) -> Seq<char> {
    jenc(err_jval(e))
}

fn encode_json_string(j: &Json) -> (r: String)
    ensures
        r@ == jenc(j.jval()),
{
    let chars = crate::encode::json_chars(j);
    crate::ext::string_from_chars(&chars)
}

impl Request {
    /// A request with the given id, method, and optional parameters.
    pub fn new(id: String, method: String, params: Option<Json>) -> (r: Request)
        ensures
            r@.id == id@,
            r@.method == method@,
            r@.params == match params {
                Some(p) => Some(p.jval()),
                None => None::<JVal>,
            },
    {
        Request { id, method, params }
    }

    pub fn id(&self) -> (r: &String)
        ensures
            r@ == self@.id,
    {
        &self.id
    }

    pub fn method(&self) -> (r: &String)
        ensures
            r@ == self@.method,
    {
        &self.method
    }

    pub fn params(&self) -> (r: Option<&Json>)
        ensures
            match r {
                Some(p) => self@.params == Some(p.jval()),
                None => self@.params is None,
            },
    {
        self.params.as_ref()
    }

    /// The wire text of this request.
    pub fn encode(&self) -> (r: String)
        ensures
            r@ == enc_request(self@),
    {
        let mut fields: Vec<(String, Json)> = Vec::new();
        fields.push((String::from_str("jsonrpc"), Json::Str(String::from_str("2.0"))));
        fields.push((String::from_str("id"), Json::Str(self.id.clone())));
        fields.push((String::from_str("method"), Json::Str(self.method.clone())));
        match &self.params {
            Some(p) => {
                fields.push((String::from_str("params"), p.dup()));
            },
            None => {},
        }
        let ghost gf = fields@;
        let obj = Json::Obj(fields);
        proof {
            crate::json::lemma_jfields_from(gf, 0);
            match self@.params {
                Some(p) => {
                    assert(jfields_from(gf, 0) =~= seq![
                        (key_jsonrpc(), JVal::Str(ver_two())),
                        (key_id(), JVal::Str(self@.id)),
                        (key_method(), JVal::Str(self@.method)),
                        (key_params(), p),
                    ]);
                },
                None => {
                    assert(jfields_from(gf, 0) =~= seq![
                        (key_jsonrpc(), JVal::Str(ver_two())),
                        (key_id(), JVal::Str(self@.id)),
                        (key_method(), JVal::Str(self@.method)),
                    ]);
                },
            }
        }
        encode_json_string(&obj)
    }

    /// The wire bytes of this request.
    pub fn encode_bytes(&self) -> (r: Vec<u8>)
        ensures
            r@ == vstd::utf8::encode_utf8(enc_request(self@)),
    {
        let text = self.encode();
        text.as_str().as_bytes_vec()
    }
}

impl ErrorResponse {
    /// An error member with the given code, message, and optional data.
    pub fn new(code: i32, message: String, data: Option<Json>) -> (r: ErrorResponse)
        ensures
            r@.code == code as int,
            r@.message == message@,
            r@.data == match data {
                Some(d) => Some(d.jval()),
                None => None::<JVal>,
            },
    {
        ErrorResponse { code, message, data }
    }

    /// The wire text of this bare error member.
    pub fn encode(&self) -> (r: String)
        ensures
            r@ == enc_error(self@),
    {
        let mut fields: Vec<(String, Json)> = Vec::new();
        fields.push((String::from_str("code"), Json::Int(self.code as i64)));
        fields.push((String::from_str("message"), Json::Str(self.message.clone())));
        match &self.data {
            Some(d) => {
                fields.push((String::from_str("data"), d.dup()));
            },
            None => {},
        }
        let ghost gf = fields@;
        let obj = Json::Obj(fields);
        proof {
            crate::json::lemma_jfields_from(gf, 0);
            match self@.data {
                Some(d) => {
                    assert(jfields_from(gf, 0) =~= seq![
                        (key_code(), JVal::Int(self@.code)),
                        (key_message(), JVal::Str(self@.message)),
                        (key_data(), d),
                    ]);
                },
                None => {
                    assert(jfields_from(gf, 0) =~= seq![
                        (key_code(), JVal::Int(self@.code)),
                        (key_message(), JVal::Str(self@.message)),
                    ]);
                },
            }
        }
        encode_json_string(&obj)
    }
}

impl Response {
    /// A successful reply carrying `result`.
    pub fn new_result(id: String, result: Json) -> (r: Response)
        ensures
            r@ == (RespView::Result { id: id@, result: result.jval() }),
    {
        Response::Result { id, result }
    }

    /// A failed reply carrying `error`.
    pub fn new_error(id: String, error: ErrorResponse) -> (r: Response)
        ensures
            r@ == (RespView::Error { id: id@, error: error@ }),
    {
        Response::Error { id, error }
    }

    /// The successful reply to `request`.
    pub fn result_for(request: &Request, result: Json) -> (r: Response)
        ensures
            r@ == (RespView::Result { id: request@.id, result: result.jval() }),
    {
        Response::Result { id: request.id.clone(), result }
    }

    /// The failed reply to `request`, with the given error parts.
    pub fn error_for(request: &Request, code: i32, message: String, data: Option<Json>) -> (r:
        Response)
        ensures
            r@ == (RespView::Error {
                id: request@.id,
                error: ErrView {
                    code: code as int,
                    message: message@,
                    data: match data {
                        Some(d) => Some(d.jval()),
                        None => None::<JVal>,
                    },
                },
            }),
    {
        Response::Error { id: request.id.clone(), error: ErrorResponse::new(code, message, data) }
    }

    pub fn id(&self) -> (r: &String)
        ensures
            r@ == match self@ {
                RespView::Result { id, .. } => id,
                RespView::Error { id, .. } => id,
            },
    {
        match self {
            Response::Result { id, .. } => id,
            Response::Error { id, .. } => id,
        }
    }

    pub fn is_result(&self) -> (r: bool)
        ensures
            r == (self@ is Result),
    {
        match self {
            Response::Result { .. } => true,
            _ => false,
        }
    }

    pub fn is_error(&self) -> (r: bool)
        ensures
            r == (self@ is Error),
    {
        match self {
            Response::Error { .. } => true,
            _ => false,
        }
    }

    pub fn result(&self) -> (r: Option<&Json>)
        ensures
            match r {
                Some(v) => self@ matches RespView::Result { result, .. } && result == v.jval(),
                None => !(self@ is Result),
            },
    {
        if let Response::Result { result, .. } = &self {
            Some(result)
        } else {
            None
        }
    }

    /// The wire text of this response.
    pub fn encode(&self) -> (r: String)
        ensures
            r@ == enc_response(self@),
    {
        let mut fields: Vec<(String, Json)> = Vec::new();
        fields.push((String::from_str("jsonrpc"), Json::Str(String::from_str("2.0"))));
        match self {
            Response::Result { id, result } => {
                fields.push((String::from_str("id"), Json::Str(id.clone())));
                fields.push((String::from_str("result"), result.dup()));
                let ghost gf = fields@;
                let obj = Json::Obj(fields);
                proof {
                    crate::json::lemma_jfields_from(gf, 0);
                    assert(jfields_from(gf, 0) =~= seq![
                        (key_jsonrpc(), JVal::Str(ver_two())),
                        (key_id(), JVal::Str(id@)),
                        (key_result(), result.jval()),
                    ]);
                }
                encode_json_string(&obj)
            },
            Response::Error { id, error } => {
                fields.push((String::from_str("id"), Json::Str(id.clone())));
                let err_obj = error.encode_jval();
                fields.push((String::from_str("error"), err_obj));
                let ghost gf = fields@;
                let obj = Json::Obj(fields);
                proof {
                    crate::json::lemma_jfields_from(gf, 0);
                    assert(jfields_from(gf, 0) =~= seq![
                        (key_jsonrpc(), JVal::Str(ver_two())),
                        (key_id(), JVal::Str(id@)),
                        (key_error(), err_jval(error@)),
                    ]);
                }
                encode_json_string(&obj)
            },
        }
    }

    /// The wire bytes of this response.
    pub fn encode_bytes(&self) -> (r: Vec<u8>)
        ensures
            r@ == vstd::utf8::encode_utf8(enc_response(self@)),
    {
        let text = self.encode();
        text.as_str().as_bytes_vec()
    }
}

/// What a walk over a request object's members has gathered.
pub struct ReqAcc {
    pub id: Option<Seq<char>>,
    pub method: Option<Seq<char>>,
    pub params: Option<JVal>,
}

/// One pass over a request object's members: `jsonrpc` must be a string
/// and may repeat; `id` and `method` must be strings, each at most once;
/// `params` may be anything, at most once; any other key is rejected.
pub open spec fn req_fold(fields: Seq<(Seq<char>, JVal)>, i: int, acc: ReqAcc) -> Option<ReqAcc>
    decreases fields.len() - i,
{
    if !(0 <= i < fields.len()) {
        Some(acc)
    } else {
        let k = fields[i].0;
        let v = fields[i].1;
        if k == key_jsonrpc() {
            if v is Str {
                req_fold(fields, i + 1, acc)
            } else {
                None
            }
        } else if k == key_id() {
            if acc.id is Some {
                None
            } else {
                match v {
                    JVal::Str(s) => req_fold(fields, i + 1, ReqAcc { id: Some(s), ..acc }),
                    _ => None,
                }
            }
        } else if k == key_method() {
            if acc.method is Some {
                None
            } else {
                match v {
                    JVal::Str(s) => req_fold(fields, i + 1, ReqAcc { method: Some(s), ..acc }),
                    _ => None,
                }
            }
        } else if k == key_params() {
            if acc.params is Some {
                None
            } else {
                req_fold(fields, i + 1, ReqAcc { params: Some(v), ..acc })
            }
        } else {
            None
        }
    }
}

/// The request a JSON value denotes, if it is a well-shaped one.
pub open spec fn req_of_jval(v: JVal) -> Option<ReqView> {
    match v {
        JVal::Obj(fields) => match req_fold(
            fields,
            0,
            ReqAcc { id: None, method: None, params: None },
        ) {
            Some(acc) => match (acc.id, acc.method) {
                (Some(id), Some(m)) => Some(ReqView { id, method: m, params: acc.params }),
                _ => None,
            },
            None => None,
        },
        _ => None,
    }
}

/// What decoding request text yields, for every text.
pub open spec fn decode_request_text(s: Seq<char>) -> Result<ReqView, RpcError> {
    match parse_json_text(s) {
        None => Err(RpcError::ParseError),
        Some(v) => match v {
            JVal::Obj(fields) => match req_of_jval(v) {
                Some(r) => Ok(r),
                None => Err(RpcError::InvalidRequest),
            },
            _ => Err(RpcError::ParseError),
        },
    }
}

/// What decoding request bytes yields, for every byte string.
pub open spec fn decode_request_bytes(b: Seq<u8>) -> Result<ReqView, RpcError> {
    if vstd::utf8::valid_utf8(b) {
        decode_request_text(vstd::utf8::decode_utf8(b))
    } else {
        Err(RpcError::ParseError)
    }
}

/// What a walk over an error object's members has gathered.
pub struct ErrAcc {
    pub code: Option<int>,
    pub message: Option<Seq<char>>,
    pub data: Option<JVal>,
}

/// One pass over an error object's members: `code` must be an integer
/// within `i32`, `message` a string, each at most once; `data` anything,
/// at most once; unknown keys are ignored.
pub open spec fn err_fold(fields: Seq<(Seq<char>, JVal)>, i: int, acc: ErrAcc) -> Option<ErrAcc>
    decreases fields.len() - i,
{
    if !(0 <= i < fields.len()) {
        Some(acc)
    } else {
        let k = fields[i].0;
        let v = fields[i].1;
        if k == key_code() {
            if acc.code is Some {
                None
            } else {
                match v {
                    JVal::Int(n) => if -2147483648 <= n < 2147483648 {
                        err_fold(fields, i + 1, ErrAcc { code: Some(n), ..acc })
                    } else {
                        None
                    },
                    _ => None,
                }
            }
        } else if k == key_message() {
            if acc.message is Some {
                None
            } else {
                match v {
                    JVal::Str(s) => err_fold(fields, i + 1, ErrAcc { message: Some(s), ..acc }),
                    _ => None,
                }
            }
        } else if k == key_data() {
            if acc.data is Some {
                None
            } else {
                err_fold(fields, i + 1, ErrAcc { data: Some(v), ..acc })
            }
        } else {
            err_fold(fields, i + 1, acc)
        }
    }
}

/// The error member a JSON value denotes, if it is a well-shaped one.
pub open spec fn err_of_jval(v: JVal) -> Option<ErrView> {
    match v {
        JVal::Obj(fields) => match err_fold(
            fields,
            0,
            ErrAcc { code: None, message: None, data: None },
        ) {
            Some(acc) => match (acc.code, acc.message) {
                (Some(code), Some(m)) => Some(ErrView { code, message: m, data: acc.data }),
                _ => None,
            },
            None => None,
        },
        _ => None,
    }
}

/// What a walk over a response object's members has gathered.
pub struct RespAcc {
    pub id: Option<Seq<char>>,
    pub result: Option<JVal>,
    pub error: Option<ErrView>,
}

/// One pass over a response object's members: `jsonrpc` must be a string
/// and may repeat; `id` a string at most once; `result` anything at most
/// once; `error` a well-shaped error member at most once; any other key
/// is rejected.
pub open spec fn resp_fold(fields: Seq<(Seq<char>, JVal)>, i: int, acc: RespAcc) -> Option<RespAcc>
    decreases fields.len() - i,
{
    if !(0 <= i < fields.len()) {
        Some(acc)
    } else {
        let k = fields[i].0;
        let v = fields[i].1;
        if k == key_jsonrpc() {
            if v is Str {
                resp_fold(fields, i + 1, acc)
            } else {
                None
            }
        } else if k == key_id() {
            if acc.id is Some {
                None
            } else {
                match v {
                    JVal::Str(s) => resp_fold(fields, i + 1, RespAcc { id: Some(s), ..acc }),
                    _ => None,
                }
            }
        } else if k == key_result() {
            if acc.result is Some {
                None
            } else {
                resp_fold(fields, i + 1, RespAcc { result: Some(v), ..acc })
            }
        } else if k == key_error() {
            if acc.error is Some {
                None
            } else {
                match err_of_jval(v) {
                    Some(e) => resp_fold(fields, i + 1, RespAcc { error: Some(e), ..acc }),
                    None => None,
                }
            }
        } else {
            None
        }
    }
}

/// The response a JSON value denotes: an `id` and exactly one of
/// `result` and `error`.
pub open spec fn resp_of_jval(v: JVal) -> Option<RespView> {
    match v {
        JVal::Obj(fields) => match resp_fold(
            fields,
            0,
            RespAcc { id: None, result: None, error: None },
        ) {
            Some(acc) => match (acc.id, acc.result, acc.error) {
                (Some(id), Some(r), None) => Some(RespView::Result { id, result: r }),
                (Some(id), None, Some(e)) => Some(RespView::Error { id, error: e }),
                _ => None,
            },
            None => None,
        },
        _ => None,
    }
}

/// What decoding response text yields, for every text.
pub open spec fn decode_response_text(s: Seq<char>) -> Result<RespView, RpcError> {
    match parse_json_text(s) {
        None => Err(RpcError::ParseError),
        Some(v) => match v {
            JVal::Obj(fields) => match resp_of_jval(v) {
                Some(r) => Ok(r),
                None => Err(RpcError::InvalidResponse),
            },
            _ => Err(RpcError::ParseError),
        },
    }
}

/// What decoding response bytes yields, for every byte string.
pub open spec fn decode_response_bytes(b: Seq<u8>) -> Result<RespView, RpcError> {
    if vstd::utf8::valid_utf8(b) {
        decode_response_text(vstd::utf8::decode_utf8(b))
    } else {
        Err(RpcError::ParseError)
    }
}

/// What decoding a bare error member yields, for every byte string.
pub open spec fn decode_error_bytes(b: Seq<u8>) -> Result<ErrView, RpcError> {
    if vstd::utf8::valid_utf8(b) {
        match parse_json_text(vstd::utf8::decode_utf8(b)) {
            None => Err(RpcError::ParseError),
            Some(v) => match err_of_jval(v) {
                Some(e) => Ok(e),
                None => Err(RpcError::InvalidResponse),
            },
        }
    } else {
        Err(RpcError::ParseError)
    }
}

struct ReqParts {
    id: Option<String>,
    method: Option<String>,
    params: Option<Json>,
}

spec fn req_parts_view(p: ReqParts) -> ReqAcc {
    ReqAcc {
        id: match p.id {
            Some(s) => Some(s@),
            None => None,
        },
        method: match p.method {
            Some(s) => Some(s@),
            None => None,
        },
        params: match p.params {
            Some(v) => Some(v.jval()),
            None => None,
        },
    }
}

fn req_fold_e(
    fields: &Vec<(String, Json)>,
    i: usize,
    parts: ReqParts,
    kj: &String,
    kid: &String,
    km: &String,
    kp: &String,
) -> (r: Option<ReqParts>)
    requires
        i <= fields@.len(),
        kj@ == key_jsonrpc(),
        kid@ == key_id(),
        km@ == key_method(),
        kp@ == key_params(),
    ensures
        match r {
            Some(p2) => req_fold(jfields_from(fields@, 0), i as int, req_parts_view(parts))
                == Some(req_parts_view(p2)),
            None => req_fold(jfields_from(fields@, 0), i as int, req_parts_view(parts)) is None,
        },
    decreases fields@.len() - i,
{
    proof {
        crate::json::lemma_jfields_from(fields@, 0);
    }
    if i == fields.len() {
        return Some(parts);
    }
    let k = &fields[i].0;
    if *k == *kj {
        match &fields[i].1 {
            Json::Str(_) => req_fold_e(fields, i + 1, parts, kj, kid, km, kp),
            _ => None,
        }
    } else if *k == *kid {
        if parts.id.is_some() {
            None
        } else {
            match &fields[i].1 {
                Json::Str(s) => {
                    let mut p = parts;
                    p.id = Some(s.clone());
                    req_fold_e(fields, i + 1, p, kj, kid, km, kp)
                },
                _ => None,
            }
        }
    } else if *k == *km {
        if parts.method.is_some() {
            None
        } else {
            match &fields[i].1 {
                Json::Str(s) => {
                    let mut p = parts;
                    p.method = Some(s.clone());
                    req_fold_e(fields, i + 1, p, kj, kid, km, kp)
                },
                _ => None,
            }
        }
    } else if *k == *kp {
        if parts.params.is_some() {
            None
        } else {
            let mut p = parts;
            p.params = Some(fields[i].1.dup());
            req_fold_e(fields, i + 1, p, kj, kid, km, kp)
        }
    } else {
        None
    }
}

impl Request {
    /// The request the given wire bytes denote, or the exact error kind.
    pub fn decode(bytes: &[u8]) -> (r: Result<Request, RpcError>)
        ensures
            match r {
                Ok(req) => decode_request_bytes(bytes@) == Ok::<ReqView, RpcError>(req@),
                Err(e) => decode_request_bytes(bytes@) == Err::<ReqView, RpcError>(e),
            },
    {
        match crate::ext::utf8_to_string(bytes) {
            None => Err(RpcError::ParseError),
            Some(text) => {
                let chars = crate::parse::str_chars(text.as_str());
                match crate::parse::parse_json_chars(&chars) {
                    None => Err(RpcError::ParseError),
                    Some(j) => match j {
                        Json::Obj(fields) => {
                            let kj = String::from_str("jsonrpc");
                            let kid = String::from_str("id");
                            let km = String::from_str("method");
                            let kp = String::from_str("params");
                            let parts = ReqParts { id: None, method: None, params: None };
                            match req_fold_e(&fields, 0, parts, &kj, &kid, &km, &kp) {
                                None => Err(RpcError::InvalidRequest),
                                Some(p) => match (p.id, p.method) {
                                    (Some(id), Some(method)) => Ok(
                                        Request { id, method, params: p.params },
                                    ),
                                    _ => Err(RpcError::InvalidRequest),
                                },
                            }
                        },
                        _ => Err(RpcError::ParseError),
                    },
                }
            },
        }
    }
}

struct ErrParts {
    code: Option<i32>,
    message: Option<String>,
    data: Option<Json>,
}

spec fn err_parts_view(p: ErrParts) -> ErrAcc {
    ErrAcc {
        code: match p.code {
            Some(c) => Some(c as int),
            None => None,
        },
        message: match p.message {
            Some(s) => Some(s@),
            None => None,
        },
        data: match p.data {
            Some(v) => Some(v.jval()),
            None => None,
        },
    }
}

fn err_fold_e(
    fields: &Vec<(String, Json)>,
    i: usize,
    parts: ErrParts,
    kc: &String,
    kme: &String,
    kd: &String,
) -> (r: Option<ErrParts>)
    requires
        i <= fields@.len(),
        kc@ == key_code(),
        kme@ == key_message(),
        kd@ == key_data(),
    ensures
        match r {
            Some(p2) => err_fold(jfields_from(fields@, 0), i as int, err_parts_view(parts))
                == Some(err_parts_view(p2)),
            None => err_fold(jfields_from(fields@, 0), i as int, err_parts_view(parts)) is None,
        },
    decreases fields@.len() - i,
{
    proof {
        crate::json::lemma_jfields_from(fields@, 0);
    }
    if i == fields.len() {
        return Some(parts);
    }
    let k = &fields[i].0;
    if *k == *kc {
        if parts.code.is_some() {
            None
        } else {
            match &fields[i].1 {
                Json::Int(n) => {
                    let n = *n;
                    if -2147483648i64 <= n && n < 2147483648i64 {
                        let mut p = parts;
                        p.code = Some(n as i32);
                        err_fold_e(fields, i + 1, p, kc, kme, kd)
                    } else {
                        None
                    }
                },
                _ => None,
            }
        }
    } else if *k == *kme {
        if parts.message.is_some() {
            None
        } else {
            match &fields[i].1 {
                Json::Str(s) => {
                    let mut p = parts;
                    p.message = Some(s.clone());
                    err_fold_e(fields, i + 1, p, kc, kme, kd)
                },
                _ => None,
            }
        }
    } else if *k == *kd {
        if parts.data.is_some() {
            None
        } else {
            let mut p = parts;
            p.data = Some(fields[i].1.dup());
            err_fold_e(fields, i + 1, p, kc, kme, kd)
        }
    } else {
        err_fold_e(fields, i + 1, parts, kc, kme, kd)
    }
}

/// The error member a parsed object denotes, if well shaped.
fn err_obj_e(fields: &Vec<(String, Json)>) -> (r: Option<ErrorResponse>)
    ensures
        match r {
            Some(e) => err_of_jval(JVal::Obj(jfields_from(fields@, 0))) == Some(e@),
            None => err_of_jval(JVal::Obj(jfields_from(fields@, 0))) is None,
        },
{
    let kc = String::from_str("code");
    let kme = String::from_str("message");
    let kd = String::from_str("data");
    let parts = ErrParts { code: None, message: None, data: None };
    match err_fold_e(fields, 0, parts, &kc, &kme, &kd) {
        None => None,
        Some(p) => match (p.code, p.message) {
            (Some(code), Some(message)) => Some(ErrorResponse { code, message, data: p.data }),
            _ => None,
        },
    }
}

impl ErrorResponse {
    /// The bare error member the given wire bytes denote.
    pub fn decode(bytes: &[u8]) -> (r: Result<ErrorResponse, RpcError>)
        ensures
            match r {
                Ok(e) => decode_error_bytes(bytes@) == Ok::<ErrView, RpcError>(e@),
                Err(e) => decode_error_bytes(bytes@) == Err::<ErrView, RpcError>(e),
            },
    {
        match crate::ext::utf8_to_string(bytes) {
            None => Err(RpcError::ParseError),
            Some(text) => {
                let chars = crate::parse::str_chars(text.as_str());
                match crate::parse::parse_json_chars(&chars) {
                    None => Err(RpcError::ParseError),
                    Some(j) => match j {
                        Json::Obj(fields) => match err_obj_e(&fields) {
                            Some(e) => Ok(e),
                            None => Err(RpcError::InvalidResponse),
                        },
                        _ => Err(RpcError::InvalidResponse),
                    },
                }
            },
        }
    }
}

struct RespParts {
    id: Option<String>,
    result: Option<Json>,
    error: Option<ErrorResponse>,
}

spec fn resp_parts_view(p: RespParts) -> RespAcc {
    RespAcc {
        id: match p.id {
            Some(s) => Some(s@),
            None => None,
        },
        result: match p.result {
            Some(v) => Some(v.jval()),
            None => None,
        },
        error: match p.error {
            Some(e) => Some(e@),
            None => None,
        },
    }
}

fn resp_fold_e(
    fields: &Vec<(String, Json)>,
    i: usize,
    parts: RespParts,
    kj: &String,
    kid: &String,
    kr: &String,
    ke: &String,
) -> (r: Option<RespParts>)
    requires
        i <= fields@.len(),
        kj@ == key_jsonrpc(),
        kid@ == key_id(),
        kr@ == key_result(),
        ke@ == key_error(),
    ensures
        match r {
            Some(p2) => resp_fold(jfields_from(fields@, 0), i as int, resp_parts_view(parts))
                == Some(resp_parts_view(p2)),
            None => resp_fold(jfields_from(fields@, 0), i as int, resp_parts_view(parts)) is None,
        },
    decreases fields@.len() - i,
{
    proof {
        crate::json::lemma_jfields_from(fields@, 0);
    }
    if i == fields.len() {
        return Some(parts);
    }
    let k = &fields[i].0;
    if *k == *kj {
        match &fields[i].1 {
            Json::Str(_) => resp_fold_e(fields, i + 1, parts, kj, kid, kr, ke),
            _ => None,
        }
    } else if *k == *kid {
        if parts.id.is_some() {
            None
        } else {
            match &fields[i].1 {
                Json::Str(s) => {
                    let mut p = parts;
                    p.id = Some(s.clone());
                    resp_fold_e(fields, i + 1, p, kj, kid, kr, ke)
                },
                _ => None,
            }
        }
    } else if *k == *kr {
        if parts.result.is_some() {
            None
        } else {
            let mut p = parts;
            p.result = Some(fields[i].1.dup());
            resp_fold_e(fields, i + 1, p, kj, kid, kr, ke)
        }
    } else if *k == *ke {
        if parts.error.is_some() {
            None
        } else {
            match &fields[i].1 {
                Json::Obj(ef) => match err_obj_e(ef) {
                    Some(e) => {
                        let mut p = parts;
                        p.error = Some(e);
                        resp_fold_e(fields, i + 1, p, kj, kid, kr, ke)
                    },
                    None => None,
                },
                _ => None,
            }
        }
    } else {
        None
    }
}

impl Response {
    /// The response the given wire bytes denote, or the exact error kind.
    pub fn decode(bytes: &[u8]) -> (r: Result<Response, RpcError>)
        ensures
            match r {
                Ok(resp) => decode_response_bytes(bytes@) == Ok::<RespView, RpcError>(resp@),
                Err(e) => decode_response_bytes(bytes@) == Err::<RespView, RpcError>(e),
            },
    {
        match crate::ext::utf8_to_string(bytes) {
            None => Err(RpcError::ParseError),
            Some(text) => {
                let chars = crate::parse::str_chars(text.as_str());
                match crate::parse::parse_json_chars(&chars) {
                    None => Err(RpcError::ParseError),
                    Some(j) => match j {
                        Json::Obj(fields) => {
                            let kj = String::from_str("jsonrpc");
                            let kid = String::from_str("id");
                            let kr = String::from_str("result");
                            let ke = String::from_str("error");
                            let parts = RespParts { id: None, result: None, error: None };
                            match resp_fold_e(&fields, 0, parts, &kj, &kid, &kr, &ke) {
                                None => Err(RpcError::InvalidResponse),
                                Some(p) => match (p.id, p.result, p.error) {
                                    (Some(id), Some(result), None) => Ok(
                                        Response::Result { id, result },
                                    ),
                                    (Some(id), None, Some(error)) => Ok(
                                        Response::Error { id, error },
                                    ),
                                    _ => Err(RpcError::InvalidResponse),
                                },
                            }
                        },
                        _ => Err(RpcError::ParseError),
                    },
                }
            },
        }
    }
}

impl ErrorResponse {
    /// The JSON tree of this error member.
    fn encode_jval(&self) -> (r: Json)
        ensures
            r.jval() == err_jval(self@),
    {
        let mut fields: Vec<(String, Json)> = Vec::new();
        fields.push((String::from_str("code"), Json::Int(self.code as i64)));
        fields.push((String::from_str("message"), Json::Str(self.message.clone())));
        match &self.data {
            Some(d) => {
                fields.push((String::from_str("data"), d.dup()));
            },
            None => {},
        }
        let ghost gf = fields@;
        let obj = Json::Obj(fields);
        proof {
            crate::json::lemma_jfields_from(gf, 0);
            match self@.data {
                Some(d) => {
                    assert(jfields_from(gf, 0) =~= seq![
                        (key_code(), JVal::Int(self@.code)),
                        (key_message(), JVal::Str(self@.message)),
                        (key_data(), d),
                    ]);
                },
                None => {
                    assert(jfields_from(gf, 0) =~= seq![
                        (key_code(), JVal::Int(self@.code)),
                        (key_message(), JVal::Str(self@.message)),
                    ]);
                },
            }
        }
        obj
    }
}

proof fn lemma_req_jval_wf(r: ReqView)
    requires
        req_wf(r),
    ensures
        jval_wf(req_jval(r)),
{
    match r.params {
        Some(p) => {
            let fields = seq![
                (key_jsonrpc(), JVal::Str(ver_two())),
                (key_id(), JVal::Str(r.id)),
                (key_method(), JVal::Str(r.method)),
                (key_params(), p),
            ];
            assert(fields[0].1 == JVal::Str(ver_two()));
            assert(jval_wf(fields[0].1));
            assert(fields[1].1 == JVal::Str(r.id));
            assert(jval_wf(fields[1].1));
            assert(fields[2].1 == JVal::Str(r.method));
            assert(jval_wf(fields[2].1));
            assert(fields[3].1 == p);
            assert(jval_wf(fields[3].1));
            assert(crate::json::jfields_wf(fields, 4));
            assert(crate::json::jfields_wf(fields, 3));
            assert(crate::json::jfields_wf(fields, 2));
            assert(crate::json::jfields_wf(fields, 1));
            assert(crate::json::jfields_wf(fields, 0));
        },
        None => {
            let fields = seq![
                (key_jsonrpc(), JVal::Str(ver_two())),
                (key_id(), JVal::Str(r.id)),
                (key_method(), JVal::Str(r.method)),
            ];
            assert(fields[0].1 == JVal::Str(ver_two()));
            assert(jval_wf(fields[0].1));
            assert(fields[1].1 == JVal::Str(r.id));
            assert(jval_wf(fields[1].1));
            assert(fields[2].1 == JVal::Str(r.method));
            assert(jval_wf(fields[2].1));
            assert(crate::json::jfields_wf(fields, 3));
            assert(crate::json::jfields_wf(fields, 2));
            assert(crate::json::jfields_wf(fields, 1));
            assert(crate::json::jfields_wf(fields, 0));
        },
    }
}

proof fn lemma_err_jval_wf(e: ErrView)
    requires
        err_wf(e),
    ensures
        jval_wf(err_jval(e)),
{
    match e.data {
        Some(d) => {
            let fields = seq![
                (key_code(), JVal::Int(e.code)),
                (key_message(), JVal::Str(e.message)),
                (key_data(), d),
            ];
            assert(fields[0].1 == JVal::Int(e.code));
            assert(jval_wf(fields[0].1));
            assert(fields[1].1 == JVal::Str(e.message));
            assert(jval_wf(fields[1].1));
            assert(fields[2].1 == d);
            assert(jval_wf(fields[2].1));
            assert(crate::json::jfields_wf(fields, 3));
            assert(crate::json::jfields_wf(fields, 2));
            assert(crate::json::jfields_wf(fields, 1));
            assert(crate::json::jfields_wf(fields, 0));
        },
        None => {
            let fields = seq![(key_code(), JVal::Int(e.code)), (key_message(), JVal::Str(e.message))];
            assert(fields[0].1 == JVal::Int(e.code));
            assert(jval_wf(fields[0].1));
            assert(fields[1].1 == JVal::Str(e.message));
            assert(jval_wf(fields[1].1));
            assert(crate::json::jfields_wf(fields, 2));
            assert(crate::json::jfields_wf(fields, 1));
            assert(crate::json::jfields_wf(fields, 0));
        },
    }
}

proof fn lemma_resp_jval_wf(r: RespView)
    requires
        resp_wf(r),
    ensures
        jval_wf(resp_jval(r)),
{
    match r {
        RespView::Result { id, result } => {
            let fields = seq![
                (key_jsonrpc(), JVal::Str(ver_two())),
                (key_id(), JVal::Str(id)),
                (key_result(), result),
            ];
            assert(fields[0].1 == JVal::Str(ver_two()));
            assert(jval_wf(fields[0].1));
            assert(fields[1].1 == JVal::Str(id));
            assert(jval_wf(fields[1].1));
            assert(fields[2].1 == result);
            assert(jval_wf(fields[2].1));
            assert(crate::json::jfields_wf(fields, 3));
            assert(crate::json::jfields_wf(fields, 2));
            assert(crate::json::jfields_wf(fields, 1));
            assert(crate::json::jfields_wf(fields, 0));
        },
        RespView::Error { id, error } => {
            lemma_err_jval_wf(error);
            let fields = seq![
                (key_jsonrpc(), JVal::Str(ver_two())),
                (key_id(), JVal::Str(id)),
                (key_error(), err_jval(error)),
            ];
            assert(fields[0].1 == JVal::Str(ver_two()));
            assert(jval_wf(fields[0].1));
            assert(fields[1].1 == JVal::Str(id));
            assert(jval_wf(fields[1].1));
            assert(fields[2].1 == err_jval(error));
            assert(jval_wf(fields[2].1));
            assert(crate::json::jfields_wf(fields, 3));
            assert(crate::json::jfields_wf(fields, 2));
            assert(crate::json::jfields_wf(fields, 1));
            assert(crate::json::jfields_wf(fields, 0));
        },
    }
}

proof fn lemma_keys_distinct()
    ensures
        key_jsonrpc() != key_id(),
        key_jsonrpc() != key_method(),
        key_jsonrpc() != key_params(),
        key_jsonrpc() != key_result(),
        key_jsonrpc() != key_error(),
        key_id() != key_method(),
        key_id() != key_params(),
        key_id() != key_result(),
        key_id() != key_error(),
        key_method() != key_params(),
        key_result() != key_error(),
        key_code() != key_message(),
        key_code() != key_data(),
        key_message() != key_data(),
{
    reveal_strlit("jsonrpc");
    reveal_strlit("id");
    reveal_strlit("method");
    reveal_strlit("params");
    reveal_strlit("result");
    reveal_strlit("error");
    reveal_strlit("code");
    reveal_strlit("message");
    reveal_strlit("data");
    assert(key_jsonrpc().len() == 7);
    assert(key_id().len() == 2);
    assert(key_method().len() == 6);
    assert(key_params().len() == 6);
    assert(key_result().len() == 6);
    assert(key_error().len() == 5);
    assert(key_code().len() == 4);
    assert(key_message().len() == 7);
    assert(key_data().len() == 4);
    assert(key_method()[0] == 'm' && key_params()[0] == 'p' && key_result()[0] == 'r');
    assert(key_code()[0] == 'c' && key_data()[0] == 'd');
    assert(key_jsonrpc()[0] == 'j' && key_message()[0] == 'm');
}

/// Decoding an encoded error member gives it back.
proof fn lemma_err_member_round_trip(e: ErrView)
    requires
        err_wf(e),
    ensures
        err_of_jval(err_jval(e)) == Some(e),
{
    lemma_keys_distinct();
    let acc0 = ErrAcc { code: None, message: None, data: None };
    match e.data {
        Some(d) => {
            let fields = seq![
                (key_code(), JVal::Int(e.code)),
                (key_message(), JVal::Str(e.message)),
                (key_data(), d),
            ];
            let acc1 = ErrAcc { code: Some(e.code), ..acc0 };
            let acc2 = ErrAcc { message: Some(e.message), ..acc1 };
            let acc3 = ErrAcc { data: Some(d), ..acc2 };
            assert(err_fold(fields, 0, acc0) == err_fold(fields, 1, acc1));
            assert(err_fold(fields, 1, acc1) == err_fold(fields, 2, acc2));
            assert(err_fold(fields, 2, acc2) == err_fold(fields, 3, acc3));
            assert(err_fold(fields, 3, acc3) == Some(acc3));
        },
        None => {
            let fields = seq![(key_code(), JVal::Int(e.code)), (key_message(), JVal::Str(e.message))];
            let acc1 = ErrAcc { code: Some(e.code), ..acc0 };
            let acc2 = ErrAcc { message: Some(e.message), ..acc1 };
            assert(err_fold(fields, 0, acc0) == err_fold(fields, 1, acc1));
            assert(err_fold(fields, 1, acc1) == err_fold(fields, 2, acc2));
            assert(err_fold(fields, 2, acc2) == Some(acc2));
        },
    }
}

/// A request's wire object carries a `params` member exactly when the
/// request has parameters: an absent `params` is elided, a null one is
/// transmitted, and the two decode back to different requests.
pub proof fn lemma_params_presence(r: ReqView)
    ensures
        req_jval(r) matches JVal::Obj(fields) && (fields.len() == 4 <==> r.params is Some) && (
        fields.len() == 3 <==> r.params is None),
        r.params is Some ==> req_jval(r)->Obj_0[3] == (key_params(), r.params->0),
{
}

/// The envelope round trip for requests: decoding the encoded wire
/// bytes of any well-formed request yields that request, with `params`
/// absent and `params` null kept apart.
pub proof fn lemma_request_round_trip(r: ReqView)
    requires
        req_wf(r),
    ensures
        decode_request_bytes(vstd::utf8::encode_utf8(enc_request(r))) == Ok::<ReqView, RpcError>(r),
{
    let chars = enc_request(r);
    vstd::utf8::encode_utf8_valid_utf8(chars);
    vstd::utf8::encode_utf8_decode_utf8(chars);
    lemma_req_jval_wf(r);
    crate::roundtrip::lemma_parse_of_jenc(req_jval(r));
    lemma_keys_distinct();
    let acc0 = ReqAcc { id: None, method: None, params: None };
    let acc1 = ReqAcc { id: Some(r.id), ..acc0 };
    let acc2 = ReqAcc { method: Some(r.method), ..acc1 };
    match r.params {
        Some(p) => {
            let fields = seq![
                (key_jsonrpc(), JVal::Str(ver_two())),
                (key_id(), JVal::Str(r.id)),
                (key_method(), JVal::Str(r.method)),
                (key_params(), p),
            ];
            let acc3 = ReqAcc { params: Some(p), ..acc2 };
            assert(req_fold(fields, 0, acc0) == req_fold(fields, 1, acc0));
            assert(req_fold(fields, 1, acc0) == req_fold(fields, 2, acc1));
            assert(req_fold(fields, 2, acc1) == req_fold(fields, 3, acc2));
            assert(req_fold(fields, 3, acc2) == req_fold(fields, 4, acc3));
            assert(req_fold(fields, 4, acc3) == Some(acc3));
        },
        None => {
            let fields = seq![
                (key_jsonrpc(), JVal::Str(ver_two())),
                (key_id(), JVal::Str(r.id)),
                (key_method(), JVal::Str(r.method)),
            ];
            assert(req_fold(fields, 0, acc0) == req_fold(fields, 1, acc0));
            assert(req_fold(fields, 1, acc0) == req_fold(fields, 2, acc1));
            assert(req_fold(fields, 2, acc1) == req_fold(fields, 3, acc2));
            assert(req_fold(fields, 3, acc2) == Some(acc2));
        },
    }
}

/// The envelope round trip for responses: decoding the encoded wire
/// bytes of any well-formed response yields that response.
pub proof fn lemma_response_round_trip(r: RespView)
    requires
        resp_wf(r),
    ensures
        decode_response_bytes(vstd::utf8::encode_utf8(enc_response(r))) == Ok::<
            RespView,
            RpcError,
        >(r),
{
    let chars = enc_response(r);
    vstd::utf8::encode_utf8_valid_utf8(chars);
    vstd::utf8::encode_utf8_decode_utf8(chars);
    lemma_resp_jval_wf(r);
    crate::roundtrip::lemma_parse_of_jenc(resp_jval(r));
    lemma_keys_distinct();
    let acc0 = RespAcc { id: None, result: None, error: None };
    match r {
        RespView::Result { id, result } => {
            let fields = seq![
                (key_jsonrpc(), JVal::Str(ver_two())),
                (key_id(), JVal::Str(id)),
                (key_result(), result),
            ];
            let acc1 = RespAcc { id: Some(id), ..acc0 };
            let acc2 = RespAcc { result: Some(result), ..acc1 };
            assert(resp_fold(fields, 0, acc0) == resp_fold(fields, 1, acc0));
            assert(resp_fold(fields, 1, acc0) == resp_fold(fields, 2, acc1));
            assert(resp_fold(fields, 2, acc1) == resp_fold(fields, 3, acc2));
            assert(resp_fold(fields, 3, acc2) == Some(acc2));
        },
        RespView::Error { id, error } => {
            lemma_err_member_round_trip(error);
            let fields = seq![
                (key_jsonrpc(), JVal::Str(ver_two())),
                (key_id(), JVal::Str(id)),
                (key_error(), err_jval(error)),
            ];
            let acc1 = RespAcc { id: Some(id), ..acc0 };
            let acc2 = RespAcc { error: Some(error), ..acc1 };
            assert(resp_fold(fields, 0, acc0) == resp_fold(fields, 1, acc0));
            assert(resp_fold(fields, 1, acc0) == resp_fold(fields, 2, acc1));
            assert(resp_fold(fields, 2, acc1) == resp_fold(fields, 3, acc2));
            assert(resp_fold(fields, 3, acc2) == Some(acc2));
        },
    }
}

proof fn lemma_req_fold_shift(pre: Seq<(Seq<char>, JVal)>, fields: Seq<(Seq<char>, JVal)>, i: int, acc: ReqAcc)
    requires
        0 <= i,
    ensures
        req_fold(pre + fields, pre.len() + i, acc) == req_fold(fields, i, acc),
    decreases fields.len() - i,
{
    let cat = pre + fields;
    if i < fields.len() {
        assert(cat[pre.len() + i] == fields[i]);
        let k = fields[i].0;
        let v = fields[i].1;
        if k == key_jsonrpc() {
            if v is Str {
                lemma_req_fold_shift(pre, fields, i + 1, acc);
            }
        } else if k == key_id() {
            if !(acc.id is Some) {
                match v {
                    JVal::Str(s) => {
                        lemma_req_fold_shift(pre, fields, i + 1, ReqAcc { id: Some(s), ..acc });
                    },
                    _ => {},
                }
            }
        } else if k == key_method() {
            if !(acc.method is Some) {
                match v {
                    JVal::Str(s) => {
                        lemma_req_fold_shift(pre, fields, i + 1, ReqAcc { method: Some(s), ..acc });
                    },
                    _ => {},
                }
            }
        } else if k == key_params() {
            if !(acc.params is Some) {
                lemma_req_fold_shift(pre, fields, i + 1, ReqAcc { params: Some(v), ..acc });
            }
        }
    }
}

/// The `jsonrpc` member is ignored on decode: putting any string
/// version in front of an object's members changes nothing, so `"2.0"`,
/// `"1.0"` and absence are all accepted alike.
pub proof fn lemma_request_version_ignored(ver: Seq<char>, fields: Seq<(Seq<char>, JVal)>)
    ensures
        req_of_jval(JVal::Obj(seq![(key_jsonrpc(), JVal::Str(ver))] + fields)) == req_of_jval(
            JVal::Obj(fields),
        ),
{
    let pre = seq![(key_jsonrpc(), JVal::Str(ver))];
    let cat = pre + fields;
    let acc0 = ReqAcc { id: None, method: None, params: None };
    assert(cat[0] == (key_jsonrpc(), JVal::Str(ver)));
    assert(req_fold(cat, 0, acc0) == req_fold(cat, 1, acc0));
    lemma_req_fold_shift(pre, fields, 0, acc0);
}

proof fn lemma_resp_fold_shift(pre: Seq<(Seq<char>, JVal)>, fields: Seq<(Seq<char>, JVal)>, i: int, acc: RespAcc)
    requires
        0 <= i,
    ensures
        resp_fold(pre + fields, pre.len() + i, acc) == resp_fold(fields, i, acc),
    decreases fields.len() - i,
{
    let cat = pre + fields;
    if i < fields.len() {
        assert(cat[pre.len() + i] == fields[i]);
        let k = fields[i].0;
        let v = fields[i].1;
        if k == key_jsonrpc() {
            if v is Str {
                lemma_resp_fold_shift(pre, fields, i + 1, acc);
            }
        } else if k == key_id() {
            if !(acc.id is Some) {
                match v {
                    JVal::Str(s) => {
                        lemma_resp_fold_shift(pre, fields, i + 1, RespAcc { id: Some(s), ..acc });
                    },
                    _ => {},
                }
            }
        } else if k == key_result() {
            if !(acc.result is Some) {
                lemma_resp_fold_shift(pre, fields, i + 1, RespAcc { result: Some(v), ..acc });
            }
        } else if k == key_error() {
            if !(acc.error is Some) {
                match err_of_jval(v) {
                    Some(e) => {
                        lemma_resp_fold_shift(pre, fields, i + 1, RespAcc { error: Some(e), ..acc });
                    },
                    None => {},
                }
            }
        }
    }
}

/// The response decoder likewise ignores the `jsonrpc` member's value.
pub proof fn lemma_response_version_ignored(ver: Seq<char>, fields: Seq<(Seq<char>, JVal)>)
    ensures
        resp_of_jval(JVal::Obj(seq![(key_jsonrpc(), JVal::Str(ver))] + fields)) == resp_of_jval(
            JVal::Obj(fields),
        ),
{
    let pre = seq![(key_jsonrpc(), JVal::Str(ver))];
    let cat = pre + fields;
    let acc0 = RespAcc { id: None, result: None, error: None };
    assert(cat[0] == (key_jsonrpc(), JVal::Str(ver)));
    assert(resp_fold(cat, 0, acc0) == resp_fold(cat, 1, acc0));
    lemma_resp_fold_shift(pre, fields, 0, acc0);
}

/// Every encoded request or response starts with `{"jsonrpc":"2.0",`.
pub proof fn lemma_encode_has_version(r: Option<ReqView>, p: Option<RespView>)
    ensures
        match r {
            Some(rv) => enc_request(rv).subrange(0, 17) =~= "{\"jsonrpc\":\"2.0\","@,
            None => true,
        },
        match p {
            Some(pv) => enc_response(pv).subrange(0, 17) =~= "{\"jsonrpc\":\"2.0\","@,
            None => true,
        },
{
    reveal_strlit("jsonrpc");
    reveal_strlit("2.0");
    reveal_strlit("{\"jsonrpc\":\"2.0\",");
    match r {
        Some(rv) => {
            lemma_envelope_prefix(req_jval(rv));
        },
        None => {},
    }
    match p {
        Some(pv) => {
            lemma_envelope_prefix(resp_jval(pv));
        },
        None => {},
    }
}

/// The encoding of an object whose first member is `jsonrpc: "2.0"` and
/// which has a second member starts with `{"jsonrpc":"2.0",`.
proof fn lemma_envelope_prefix(v: JVal)
    requires
        v matches JVal::Obj(fields) && fields.len() >= 2 && fields[0] == (
            key_jsonrpc(),
            JVal::Str(ver_two()),
        ),
    ensures
        jenc(v).subrange(0, 17) =~= "{\"jsonrpc\":\"2.0\","@,
{
    reveal_strlit("jsonrpc");
    reveal_strlit("2.0");
    reveal_strlit("{\"jsonrpc\":\"2.0\",");
    let fields = v->Obj_0;
    let one = enc_str(key_jsonrpc()) + seq![':'] + jenc(JVal::Str(ver_two()));
    assert(crate::encode::jenc_fields(fields, 0) == one + seq![','] + crate::encode::jenc_fields(
        fields,
        1,
    ));
    lemma_esc_plain(key_jsonrpc(), 0);
    lemma_esc_plain(ver_two(), 0);
    assert(enc_str(key_jsonrpc()) =~= seq!['"'] + key_jsonrpc() + seq!['"']);
    assert(enc_str(ver_two()) =~= seq!['"'] + ver_two() + seq!['"']);
    assert(jenc(v) == seq!['{'] + crate::encode::jenc_fields(fields, 0) + seq!['}']);
}

/// Escaping changes nothing in a string of plain characters: none is a
/// quote, a backslash, or a control character.
proof fn lemma_esc_plain(s: Seq<char>, k: int)
    requires
        0 <= k <= s.len(),
        forall|t: int| 0 <= t < s.len() ==> (s[t] != '"' && s[t] != '\\' && (s[t] as u32) >= 32),
    ensures
        esc_str(s, k) =~= s.subrange(k, s.len() as int),
    decreases s.len() - k,
{
    if k < s.len() {
        lemma_esc_plain(s, k + 1);
        assert(crate::encode::esc_char(s[k]) == seq![s[k]]);
    }
}

} // verus!
