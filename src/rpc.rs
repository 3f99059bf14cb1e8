use vstd::prelude::*;

use crate::jobs::{get_job, state_text, CategoryCounts, IndexJobStatus, JobTable};
use crate::json::{str_member, JsonValue};
use crate::protocol::{
    err_response, ok_response, reason_data, single_text, string_param, is_single_text, JsonRpcRequest,
    JsonRpcResponse, BACKEND_ERROR, BACKEND_TRANSPORT_ERROR, INTERNAL_ERROR, INVALID_PARAMS, INVALID_REQUEST,
    JOB_NOT_FOUND, METHOD_NOT_FOUND, PROTOCOL_VERSION,
};
use crate::text::{decimal_of, decimal_text, same_text, trim, trimmed};
use crate::walk::{has_walk_params, parse_walk_params, walk_params_from, WalkTextBatchParams, WalkTextBatchResult};

verus! {

/// The name that the service gives of itself.
pub const SERVICE_NAME: &'static str = "the-search-thing-sidecar";

/// The methods of the service.
#[derive(Debug, Clone, Copy, PartialEq, Eq, Structural)]
pub enum MethodKind {
    HealthPing,
    WalkTextBatch,
    IndexStart,
    IndexStatus,
    SearchQuery,
}

/// The method that a name selects.
pub open spec fn method_kind(m: Seq<char>) -> Option<MethodKind> {
    if m == "health.ping"@ {
        Some(MethodKind::HealthPing)
    } else if m == "fs.walkTextBatch"@ || m == "fs.walk_text_batch"@ {
        Some(MethodKind::WalkTextBatch)
    } else if m == "index.start"@ {
        Some(MethodKind::IndexStart)
    } else if m == "index.status"@ {
        Some(MethodKind::IndexStatus)
    } else if m == "search.query"@ {
        Some(MethodKind::SearchQuery)
    } else {
        None
    }
}

/// A request that the service has accepted, with its parameters read.
#[derive(Debug)]
pub enum Call {
    HealthPing,
    WalkTextBatch(WalkTextBatchParams),
    IndexStart { dir: String },
    IndexStatus { job_id: String },
    SearchQuery { q: String },
}

/// What to do with a request: answer it at once, or carry out a call and
/// answer the request `id` with its outcome.
#[derive(Debug)]
pub enum Dispatch {
    Reply(JsonRpcResponse),
    Run { id: JsonValue, call: Call },
}

/// Whether `p` holds the parameters that the method `k` needs.
pub open spec fn has_params(k: MethodKind, p: JsonValue) -> bool {
    match k {
        MethodKind::HealthPing => true,
        MethodKind::WalkTextBatch => has_walk_params(p),
        MethodKind::IndexStart => str_member(p, "dir"@) is Some,
        MethodKind::IndexStatus => str_member(p, "job_id"@) is Some,
        MethodKind::SearchQuery => str_member(p, "q"@) is Some,
    }
}

/// Whether `c` is the call of the method `k` with the parameters `p`.
pub open spec fn is_call(c: Call, k: MethodKind, p: JsonValue) -> bool {
    match (k, c) {
        (MethodKind::HealthPing, Call::HealthPing) => true,
        (MethodKind::WalkTextBatch, Call::WalkTextBatch(w)) => walk_params_from(p, w),
        (MethodKind::IndexStart, Call::IndexStart { dir }) => str_member(p, "dir"@) == Some(dir@),
        (MethodKind::IndexStatus, Call::IndexStatus { job_id }) => str_member(p, "job_id"@) == Some(job_id@),
        (MethodKind::SearchQuery, Call::SearchQuery { q }) => str_member(p, "q"@) == Some(q@),
        _ => false,
    }
}

/// Whether `r` answers the request `id` with the error `code` and `message`.
pub open spec fn is_error_reply(r: Dispatch, id: JsonValue, code: i32, message: Seq<char>) -> bool {
    match r {
        Dispatch::Reply(resp) => resp.id == id && resp.is_error(code, message),
        _ => false,
    }
}

/// The data of the error that `r` answers with, if any.
pub open spec fn error_data(r: Dispatch) -> Option<JsonValue> {
    match r {
        Dispatch::Reply(resp) => match resp.error {
            Some(e) => e.data,
            None => None,
        },
        _ => None,
    }
}

fn method_of(m: &str) -> (r: Option<MethodKind>)
    ensures
        r == method_kind(m@),
{
    if same_text(m, "health.ping") {
        Some(MethodKind::HealthPing)
    } else if same_text(m, "fs.walkTextBatch") || same_text(m, "fs.walk_text_batch") {
        Some(MethodKind::WalkTextBatch)
    } else if same_text(m, "index.start") {
        Some(MethodKind::IndexStart)
    } else if same_text(m, "index.status") {
        Some(MethodKind::IndexStatus)
    } else if same_text(m, "search.query") {
        Some(MethodKind::SearchQuery)
    } else {
        None
    }
}

/// Decides what to do with a request: a request of another protocol version
/// is invalid; an unknown method is not found, with its name in the error
/// data; a method that needs parameters refuses a request without them, or
/// with parameters of the wrong shape; any other request is carried out.
pub fn handle_request(request: JsonRpcRequest) -> (r: Dispatch)
    ensures
        request.jsonrpc@ != PROTOCOL_VERSION@ ==> is_error_reply(r, request.id, INVALID_REQUEST, "Invalid Request"@)
            && error_data(r) is None,
        request.jsonrpc@ == PROTOCOL_VERSION@ ==> match method_kind(request.method@) {
            None => is_error_reply(r, request.id, METHOD_NOT_FOUND, "Method not found"@) && (r matches Dispatch::Reply(
                resp,
            ) && resp.error->0.data matches Some(d) && is_single_text(d, "method"@, request.method@)),
            Some(MethodKind::HealthPing) => r == Dispatch::Run { id: request.id, call: Call::HealthPing },
            Some(k) => match request.params {
                None => is_error_reply(r, request.id, INVALID_PARAMS, "Invalid params"@) && (error_data(r) matches Some(
                    d,
                ) && is_single_text(d, "reason"@, "params are required"@)),
                Some(p) => if has_params(k, p) {
                    r matches Dispatch::Run { id, call } && id == request.id && is_call(call, k, p)
                } else {
                    is_error_reply(r, request.id, INVALID_PARAMS, "Invalid params"@)
                },
            },
        },
{
    if !same_text(request.jsonrpc.as_str(), PROTOCOL_VERSION) {
        return Dispatch::Reply(err_response(request.id, INVALID_REQUEST, "Invalid Request", None));
    }
    let kind = match method_of(request.method.as_str()) {
        Some(k) => k,
        None => {
            let data = single_text("method", request.method);
            return Dispatch::Reply(err_response(request.id, METHOD_NOT_FOUND, "Method not found", Some(data)));
        },
    };
    if kind == MethodKind::HealthPing {
        return Dispatch::Run { id: request.id, call: Call::HealthPing };
    }
    let params = match &request.params {
        Some(p) => p,
        None => {
            let data = reason_data(String::from_str("params are required"));
            return Dispatch::Reply(err_response(request.id, INVALID_PARAMS, "Invalid params", Some(data)));
        },
    };
    let parsed = match kind {
        MethodKind::WalkTextBatch => match parse_walk_params(params) {
            Ok(w) => Ok(Call::WalkTextBatch(w)),
            Err(e) => Err(e),
        },
        MethodKind::IndexStart => match string_param(params, "dir") {
            Ok(dir) => Ok(Call::IndexStart { dir }),
            Err(e) => Err(e),
        },
        MethodKind::IndexStatus => match string_param(params, "job_id") {
            Ok(job_id) => Ok(Call::IndexStatus { job_id }),
            Err(e) => Err(e),
        },
        _ => match string_param(params, "q") {
            Ok(q) => Ok(Call::SearchQuery { q }),
            Err(e) => Err(e),
        },
    };
    match parsed {
        Ok(call) => Dispatch::Run { id: request.id, call },
        Err(reason) => Dispatch::Reply(
            err_response(request.id, INVALID_PARAMS, "Invalid params", Some(reason_data(reason))),
        ),
    }
}

/// What the service says of itself besides its name.
#[derive(Debug)]
pub struct ServiceInfo {
    pub version: String,
    pub backend_url: String,
    pub index_mode: String,
    pub search_mode: String,
}

/// Whether member `i` of `f` is named `key` and is the string `t`.
pub open spec fn text_member_at(f: Seq<(String, JsonValue)>, i: int, key: Seq<char>, t: Seq<char>) -> bool {
    f[i].0@ == key && (f[i].1 matches JsonValue::Str(s) && s@ == t)
}

/// Whether member `i` of `f` is named `key` and is the number `n`.
pub open spec fn number_member_at(f: Seq<(String, JsonValue)>, i: int, key: Seq<char>, n: nat) -> bool {
    f[i].0@ == key && (f[i].1 matches JsonValue::Number(t) && t@ == decimal_of(n))
}

/// Whether `j` is the answer to a health check.
pub open spec fn is_health_result(j: JsonValue, info: ServiceInfo) -> bool {
    match j {
        JsonValue::Object(f) => {
            &&& f@.len() == 6
            &&& f@[0].0@ == "ok"@ && f@[0].1 == JsonValue::Bool(true)
            &&& text_member_at(f@, 1, "service"@, SERVICE_NAME@)
            &&& text_member_at(f@, 2, "version"@, info.version@)
            &&& text_member_at(f@, 3, "backend_url"@, info.backend_url@)
            &&& text_member_at(f@, 4, "index_mode"@, info.index_mode@)
            &&& text_member_at(f@, 5, "search_mode"@, info.search_mode@)
        },
        _ => false,
    }
}

/// Answers a health check to the request `id`: the service is up, under its
/// name, with what it says of itself.
pub fn handle(id: JsonValue, info: ServiceInfo) -> (r: JsonRpcResponse)
    ensures
        r.id == id,
        r.error is None,
        r.result matches Some(j) && is_health_result(j, info),
        SERVICE_NAME@.len() > 0,
{
    proof {
        reveal_strlit("the-search-thing-sidecar");
    }
    let ghost info_view = info;
    let mut f: Vec<(String, JsonValue)> = Vec::new();
    f.push((String::from_str("ok"), JsonValue::Bool(true)));
    f.push((String::from_str("service"), JsonValue::Str(String::from_str(SERVICE_NAME))));
    f.push((String::from_str("version"), JsonValue::Str(info.version)));
    f.push((String::from_str("backend_url"), JsonValue::Str(info.backend_url)));
    f.push((String::from_str("index_mode"), JsonValue::Str(info.index_mode)));
    f.push((String::from_str("search_mode"), JsonValue::Str(info.search_mode)));
    ok_response(id, JsonValue::Object(f))
}

/// The answer to a walk: the batch, or an internal error with the walk's reason.
pub fn handle_walk_text_batch(id: JsonValue, outcome: Result<WalkTextBatchResult, String>) -> (r: JsonRpcResponse)
    ensures
        r.id == id,
        match outcome {
            Ok(b) => r.error is None && (r.result matches Some(j) && crate::walk::is_walk_json(j, b)),
            Err(e) => r.is_error(INTERNAL_ERROR, "Internal error"@) && (r.error->0.data matches Some(d)
                && is_single_text(d, "reason"@, e@)),
        },
{
    match outcome {
        Ok(b) => ok_response(id, b.to_json()),
        Err(e) => err_response(id, INTERNAL_ERROR, "Internal error", Some(reason_data(e))),
    }
}

/// The answer to a call that a backend may have failed: its result, or the
/// error `message` with the backend's code and reason.
pub fn backend_response(id: JsonValue, outcome: Result<JsonValue, (i32, String)>, message: &str) -> (r: JsonRpcResponse)
    ensures
        r.id == id,
        match outcome {
            Ok(v) => r.result == Some(v) && r.error is None,
            Err((code, reason)) => r.is_error(code, message@) && (r.error->0.data matches Some(d)
                && is_single_text(d, "reason"@, reason@)),
        },
{
    match outcome {
        Ok(v) => ok_response(id, v),
        Err((code, reason)) => err_response(id, code, message, Some(reason_data(reason))),
    }
}

/// Whether `j` is `{"success": true, "job_id": id}`.
pub open spec fn is_start_result(j: JsonValue, id: Seq<char>) -> bool {
    match j {
        JsonValue::Object(f) => f@.len() == 2 && f@[0].0@ == "success"@ && f@[0].1 == JsonValue::Bool(true)
            && text_member_at(f@, 1, "job_id"@, id),
        _ => false,
    }
}

/// Whether the backend's answer to starting a job reports success and a
/// non-empty job id.
pub open spec fn start_payload_ok(p: JsonValue) -> bool {
    &&& crate::json::member(p, "success"@) == Some(JsonValue::Bool(true))
    &&& str_member(p, "job_id"@) is Some
    &&& str_member(p, "job_id"@)->0.len() > 0
}

/// The result of a job that started: `{"success": true, "job_id": id}`.
pub fn index_start_result(job_id: String) -> (r: JsonValue)
    ensures
        is_start_result(r, job_id@),
{
    let mut f: Vec<(String, JsonValue)> = Vec::new();
    f.push((String::from_str("success"), JsonValue::Bool(true)));
    f.push((String::from_str("job_id"), JsonValue::Str(job_id)));
    JsonValue::Object(f)
}

/// Whether `j` is the record `s` as the answers write it.
pub open spec fn is_job_json(j: JsonValue, s: IndexJobStatus) -> bool {
    match j {
        JsonValue::Object(f) => {
            &&& f@.len() == 22
            &&& text_member_at(f@, 0, "job_id"@, s.job_id@)
            &&& text_member_at(f@, 1, "dir"@, s.dir@)
            &&& text_member_at(f@, 2, "status"@, state_text(s.status))
            &&& text_member_at(f@, 3, "phase"@, s.phase@)
            &&& number_member_at(f@, 4, "batch_size"@, s.batch_size as u64 as nat)
            &&& counts_at(f@, 5, "text_found"@, "text_indexed"@, "text_errors"@, "text_skipped"@, s.text)
            &&& counts_at(f@, 9, "video_found"@, "video_indexed"@, "video_errors"@, "video_skipped"@, s.video)
            &&& counts_at(f@, 13, "image_found"@, "image_indexed"@, "image_errors"@, "image_skipped"@, s.image)
            &&& text_member_at(f@, 17, "message"@, s.message@)
            &&& text_member_at(f@, 18, "error"@, s.error@)
            &&& text_member_at(f@, 19, "started_at"@, s.started_at@)
            &&& text_member_at(f@, 20, "updated_at"@, s.updated_at@)
            &&& f@[21].0@ == "finished_at"@
            &&& match s.finished_at {
                Some(t) => f@[21].1 matches JsonValue::Str(x) && x@ == t@,
                None => f@[21].1 == JsonValue::Null,
            }
        },
        _ => false,
    }
}

/// Whether members `i` to `i + 3` of `f` are the counts `c` under the given keys.
pub open spec fn counts_at(
    f: Seq<(String, JsonValue)>,
    i: int,
    found: Seq<char>,
    indexed: Seq<char>,
    errors: Seq<char>,
    skipped: Seq<char>,
    c: CategoryCounts,
) -> bool {
    &&& number_member_at(f, i, found, c.found as u64 as nat)
    &&& number_member_at(f, i + 1, indexed, c.indexed as u64 as nat)
    &&& number_member_at(f, i + 2, errors, c.errors as u64 as nat)
    &&& number_member_at(f, i + 3, skipped, c.skipped as u64 as nat)
}

fn push_number(f: &mut Vec<(String, JsonValue)>, key: &str, n: usize)
    ensures
        final(f)@.len() == old(f)@.len() + 1,
        forall|i: int| 0 <= i < old(f)@.len() ==> final(f)@[i] == old(f)@[i],
        number_member_at(final(f)@, old(f)@.len() as int, key@, n as u64 as nat),
{
    f.push((String::from_str(key), JsonValue::Number(decimal_text(n as u64))));
}

fn push_text(f: &mut Vec<(String, JsonValue)>, key: &str, t: String)
    ensures
        final(f)@.len() == old(f)@.len() + 1,
        forall|i: int| 0 <= i < old(f)@.len() ==> final(f)@[i] == old(f)@[i],
        text_member_at(final(f)@, old(f)@.len() as int, key@, t@),
{
    f.push((String::from_str(key), JsonValue::Str(t)));
}

impl IndexJobStatus {
    /// The record as the answers write it.
    pub fn to_json(self) -> (r: JsonValue)
        ensures
            is_job_json(r, self),
    {
        let ghost s = self;
        let mut f: Vec<(String, JsonValue)> = Vec::new();
        push_text(&mut f, "job_id", self.job_id);
        push_text(&mut f, "dir", self.dir);
        push_text(&mut f, "status", String::from_str(self.status.as_str()));
        push_text(&mut f, "phase", self.phase);
        push_number(&mut f, "batch_size", self.batch_size);
        push_number(&mut f, "text_found", self.text.found);
        push_number(&mut f, "text_indexed", self.text.indexed);
        push_number(&mut f, "text_errors", self.text.errors);
        push_number(&mut f, "text_skipped", self.text.skipped);
        push_number(&mut f, "video_found", self.video.found);
        push_number(&mut f, "video_indexed", self.video.indexed);
        push_number(&mut f, "video_errors", self.video.errors);
        push_number(&mut f, "video_skipped", self.video.skipped);
        push_number(&mut f, "image_found", self.image.found);
        push_number(&mut f, "image_indexed", self.image.indexed);
        push_number(&mut f, "image_errors", self.image.errors);
        push_number(&mut f, "image_skipped", self.image.skipped);
        push_text(&mut f, "message", self.message);
        push_text(&mut f, "error", self.error);
        push_text(&mut f, "started_at", self.started_at);
        push_text(&mut f, "updated_at", self.updated_at);
        let finished = match self.finished_at {
            Some(t) => JsonValue::Str(t),
            None => JsonValue::Null,
        };
        f.push((String::from_str("finished_at"), finished));
        JsonValue::Object(f)
    }
}

/// The record of the job `job_id` as the answers write it, if this process
/// knows the job.
pub fn job_status_result(table: &JobTable, job_id: &str) -> (r: Option<JsonValue>)
    ensures
        match r {
            Some(j) => table.job(job_id@) matches Some(s) && exists|c: IndexJobStatus| c.same_as(s) && is_job_json(j, c),
            None => table.job(job_id@) is None,
        },
{
    match get_job(table, job_id) {
        Some(s) => {
            let ghost c = s;
            let j = s.to_json();
            assert(is_job_json(j, c));
            Some(j)
        },
        None => None,
    }
}

/// How a call to the backend failed.
#[derive(Debug)]
pub enum BackendFailure {
    /// The backend answered with an error status, and this body.
    Status { code: u16, body: String },
    /// The backend at `base_url` could not be reached.
    Transport { description: String, base_url: String },
}

/// The code and reason that a failure of the backend is reported with.
pub open spec fn failure_report(f: BackendFailure) -> (i32, Seq<char>) {
    match f {
        BackendFailure::Status { code, body } => if code == 404 {
            (JOB_NOT_FOUND, "Job not found"@)
        } else {
            (BACKEND_ERROR, "Backend returned HTTP "@ + decimal_of(code as nat) + ": "@ + trimmed(body@))
        },
        BackendFailure::Transport { description, base_url } => (
            BACKEND_TRANSPORT_ERROR,
            "Backend transport error: "@ + description@ + " (is FastAPI running on "@ + base_url@ + "?)"@,
        ),
    }
}

/// The code and reason that a failure of the backend is reported with: a
/// missing resource as a job not found, another error status as a backend
/// error, an unreachable backend as a transport error.
pub fn map_http_error_to_rpc(failure: BackendFailure) -> (r: (i32, String))
    ensures
        r.0 == failure_report(failure).0,
        r.1@ == failure_report(failure).1,
{
    match failure {
        BackendFailure::Status { code, body } => {
            if code == 404 {
                (JOB_NOT_FOUND, String::from_str("Job not found"))
            } else {
                let mut m = String::from_str("Backend returned HTTP ");
                let digits = decimal_text(code as u64);
                m.append(digits.as_str());
                m.append(": ");
                let t = trim(body.as_str());
                m.append(t.as_str());
                (BACKEND_ERROR, m)
            }
        },
        BackendFailure::Transport { description, base_url } => {
            let mut m = String::from_str("Backend transport error: ");
            m.append(description.as_str());
            m.append(" (is FastAPI running on ");
            m.append(base_url.as_str());
            m.append("?)");
            (BACKEND_TRANSPORT_ERROR, m)
        },
    }
}

/// Checks the backend's answer to starting a job, whose text is `body`: it
/// must report success and a non-empty job id, which the result repeats.
pub fn check_index_start_payload(parsed: &JsonValue, body: &str) -> (r: Result<JsonValue, (i32, String)>)
    ensures
        match r {
            Ok(j) => start_payload_ok(*parsed) && is_start_result(j, str_member(*parsed, "job_id"@)->0),
            Err((code, _)) => code == INTERNAL_ERROR && !start_payload_ok(*parsed),
        },
{
    let success = match parsed.get("success") {
        Some(JsonValue::Bool(b)) => *b,
        _ => false,
    };
    let job_id = parsed.get_str("job_id");
    if let Some(id) = job_id {
        if success && id.as_str().unicode_len() > 0 {
            return Ok(index_start_result(id));
        }
    }
    let mut m = String::from_str("Backend returned unexpected index start payload: ");
    m.append(body);
    Err((INTERNAL_ERROR, m))
}

/// Checks the backend's answer to a search, whose text is `body`: it must be
/// an object, which is the result.
pub fn check_search_payload(parsed: JsonValue, body: &str) -> (r: Result<JsonValue, (i32, String)>)
    ensures
        parsed is Object ==> r == Ok::<JsonValue, (i32, String)>(parsed),
        !(parsed is Object) ==> (r matches Err((code, _)) && code == INTERNAL_ERROR),
{
    match parsed {
        JsonValue::Object(_) => Ok(parsed),
        _ => {
            let mut m = String::from_str("Backend returned unexpected search payload: ");
            m.append(body);
            Err((INTERNAL_ERROR, m))
        },
    }
}

} // verus!
