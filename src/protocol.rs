use vstd::prelude::*;

use crate::json::{member, str_member, JsonValue};

verus! {

/// The protocol version that every request must name.
pub const PROTOCOL_VERSION: &'static str = "2.0";

/// The line could not be read as JSON.
pub const PARSE_ERROR: i32 = -32700;

/// The request names another protocol version.
pub const INVALID_REQUEST: i32 = -32600;

/// The request names a method that this service does not have.
pub const METHOD_NOT_FOUND: i32 = -32601;

/// The request's parameters are missing or of the wrong shape.
pub const INVALID_PARAMS: i32 = -32602;

/// An unexpected failure inside the service.
pub const INTERNAL_ERROR: i32 = -32603;

/// The backend answered with an error status.
pub const BACKEND_ERROR: i32 = -32000;

/// The backend could not be reached.
pub const BACKEND_TRANSPORT_ERROR: i32 = -32001;

/// The backend does not know the job.
pub const JOB_NOT_FOUND: i32 = -32004;

/// One request, as read from one line.
#[derive(Debug)]
pub struct JsonRpcRequest {
    pub jsonrpc: String,
    pub id: JsonValue,
    pub method: String,
    pub params: Option<JsonValue>,
}

/// The error member of a response.
#[derive(Debug)]
pub struct JsonRpcError {
    pub code: i32,
    pub message: String,
    pub data: Option<JsonValue>,
}

/// One response, written as one line. It always names the protocol version.
#[derive(Debug)]
pub struct JsonRpcResponse {
    pub id: JsonValue,
    pub result: Option<JsonValue>,
    pub error: Option<JsonRpcError>,
}

impl JsonRpcResponse {
    /// Whether this response is an error with `code` and `message`.
    pub open spec fn is_error(&self, code: i32, message: Seq<char>) -> bool {
        &&& self.result is None
        &&& self.error matches Some(e) && e.code == code && e.message@ == message
    }

    /// The protocol version that the response names.
    pub fn jsonrpc(&self) -> (r: &'static str)
        ensures
            r@ == PROTOCOL_VERSION@,
    {
        PROTOCOL_VERSION
    }
}

/// A successful response to the request `id`.
pub fn ok_response(id: JsonValue, result: JsonValue) -> (r: JsonRpcResponse)
    ensures
        r.id == id,
        r.result == Some(result),
        r.error is None,
{
    JsonRpcResponse { id, result: Some(result), error: None }
}

/// An error response to the request `id`.
pub fn err_response(id: JsonValue, code: i32, message: &str, data: Option<JsonValue>) -> (r: JsonRpcResponse)
    ensures
        r.id == id,
        r.is_error(code, message@),
        r.error->0.data == data,
{
    JsonRpcResponse {
        id,
        result: None,
        error: Some(JsonRpcError { code, message: String::from_str(message), data }),
    }
}

/// Whether `j` is the object `{"key": text}`.
pub open spec fn is_single_text(j: JsonValue, key: Seq<char>, text: Seq<char>) -> bool {
    match j {
        JsonValue::Object(f) => f@.len() == 1 && f@[0].0@ == key && (f@[0].1 matches JsonValue::Str(s) && s@ == text),
        _ => false,
    }
}

/// The object `{"key": text}`.
pub fn single_text(key: &str, text: String) -> (r: JsonValue)
    ensures
        is_single_text(r, key@, text@),
{
    let mut fields: Vec<(String, JsonValue)> = Vec::new();
    fields.push((String::from_str(key), JsonValue::Str(text)));
    JsonValue::Object(fields)
}

/// The error data `{"reason": reason}`.
pub fn reason_data(reason: String) -> (r: JsonValue)
    ensures
        is_single_text(r, "reason"@, reason@),
{
    single_text("reason", reason)
}

/// The response to a line that is not JSON: no id could be read from it.
pub fn parse_error_response(reason: String) -> (r: JsonRpcResponse)
    ensures
        r.id == JsonValue::Null,
        r.is_error(PARSE_ERROR, "Parse error"@),
        r.error->0.data matches Some(d) && is_single_text(d, "reason"@, reason@),
{
    err_response(JsonValue::Null, PARSE_ERROR, "Parse error", Some(reason_data(reason)))
}

/// The number that a text of decimal digits stands for.
pub open spec fn digits_value(s: Seq<char>) -> int
    decreases s.len(),
{
    if s.len() == 0 {
        0
    } else {
        digits_value(s.drop_last()) * 10 + (s.last() as int - '0' as int)
    }
}

/// Whether every character of `s` is a decimal digit.
pub open spec fn all_digits(s: Seq<char>) -> bool {
    forall|i: int| 0 <= i < s.len() ==> '0' <= #[trigger] s[i] <= '9'
}

/// The `usize` that a JSON number's text stands for: a non-negative integer
/// written without sign, point or exponent, that fits.
pub open spec fn usize_of_text(s: Seq<char>) -> Option<nat> {
    if s.len() > 0 && all_digits(s) && digits_value(s) <= usize::MAX {
        Some(digits_value(s) as nat)
    } else {
        None
    }
}

proof fn lemma_all_digits_prefix(s: Seq<char>, k: int)
    requires
        all_digits(s),
        0 <= k <= s.len(),
    ensures
        all_digits(s.subrange(0, k)),
{
    assert forall|i: int| 0 <= i < k implies '0' <= #[trigger] s.subrange(0, k)[i] <= '9' by {
        assert(s.subrange(0, k)[i] == s[i]);
    }
}

proof fn lemma_digits_value_grows(s: Seq<char>, k: int)
    requires
        all_digits(s),
        0 <= k <= s.len(),
    ensures
        digits_value(s) >= digits_value(s.subrange(0, k)) >= 0,
    decreases s.len(),
{
    if s.len() > 0 {
        let t = s.drop_last();
        lemma_all_digits_prefix(s, s.len() - 1);
        assert(t == s.subrange(0, s.len() - 1));
        if k < s.len() {
            assert(t.subrange(0, k) =~= s.subrange(0, k));
            lemma_digits_value_grows(t, k);
        } else {
            assert(s.subrange(0, k) =~= s);
            lemma_digits_value_grows(t, 0);
        }
    } else {
        assert(s.subrange(0, k) =~= s);
    }
}

/// Reads a JSON number's text as a `usize`.
pub fn parse_usize(text: &str) -> (r: Option<usize>)
    ensures
        match r {
            Some(n) => usize_of_text(text@) == Some(n as nat),
            None => usize_of_text(text@) is None,
        },
{
    let n = text.unicode_len();
    if n == 0 {
        return None;
    }
    let mut acc: usize = 0;
    let mut i: usize = 0;
    assert(text@.subrange(0, 0) =~= Seq::<char>::empty());
    while i < n
        invariant
            n == text@.len(),
            i <= n,
            all_digits(text@.subrange(0, i as int)),
            acc == digits_value(text@.subrange(0, i as int)),
        decreases n - i,
    {
        let c = text.get_char(i);
        let ghost t1 = text@.subrange(0, i + 1);
        assert(t1.drop_last() =~= text@.subrange(0, i as int));
        assert(t1.last() == c);
        if c < '0' || c > '9' {
            assert(!all_digits(text@)) by {
                assert(text@[i as int] == c);
            }
            return None;
        }
        assert(all_digits(t1)) by {
            assert forall|j: int| 0 <= j < t1.len() implies '0' <= #[trigger] t1[j] <= '9' by {
                if j < i {
                    assert(t1[j] == text@.subrange(0, i as int)[j]);
                }
            }
        }
        let d = (c as u32 - '0' as u32) as usize;
        assert(d == c as int - '0' as int);
        if acc > (usize::MAX - d) / 10 {
            proof {
                assert(digits_value(t1) == acc * 10 + d);
                assert(acc * 10 + d > usize::MAX) by (nonlinear_arith)
                    requires
                        acc > (usize::MAX - d) / 10,
                        d <= 9,
                ;
                if all_digits(text@) {
                    lemma_digits_value_grows(text@, i + 1);
                }
            }
            return None;
        }
        assert(acc * 10 + d <= usize::MAX) by (nonlinear_arith)
            requires
                acc <= (usize::MAX - d) / 10,
                d <= 9,
        ;
        acc = acc * 10 + d;
        i = i + 1;
    }
    assert(text@.subrange(0, n as int) =~= text@);
    Some(acc)
}

/// The `usize` member `key` of an object.
pub open spec fn usize_member(p: JsonValue, key: Seq<char>) -> Option<nat> {
    match member(p, key) {
        Some(JsonValue::Number(t)) => usize_of_text(t@),
        _ => None,
    }
}

/// The texts of a JSON array whose items are all strings.
pub open spec fn text_items(items: Seq<JsonValue>) -> Option<Seq<Seq<char>>>
    decreases items.len(),
{
    if items.len() == 0 {
        Some(Seq::empty())
    } else {
        match (text_items(items.drop_last()), items.last()) {
            (Some(prev), JsonValue::Str(s)) => Some(prev.push(s@)),
            _ => None,
        }
    }
}

proof fn lemma_text_items_none(items: Seq<JsonValue>, k: int)
    requires
        0 <= k <= items.len(),
        text_items(items.subrange(0, k)) is None,
    ensures
        text_items(items) is None,
    decreases items.len() - k,
{
    if k < items.len() {
        let t = items.subrange(0, k + 1);
        assert(t.drop_last() =~= items.subrange(0, k));
        lemma_text_items_none(items, k + 1);
    } else {
        assert(items.subrange(0, k) =~= items);
    }
}

/// The list-of-strings member `key` of an object; an absent member is the
/// empty list where `optional`.
pub open spec fn text_list_member(p: JsonValue, key: Seq<char>, optional: bool) -> Option<Seq<Seq<char>>> {
    match member(p, key) {
        None => if optional {
            Some(Seq::empty())
        } else {
            None
        },
        Some(JsonValue::Array(items)) => text_items(items@),
        _ => None,
    }
}

/// The texts of a list of strings.
pub open spec fn texts_of(s: Seq<String>) -> Seq<Seq<char>> {
    s.map_values(|t: String| t@)
}

fn field_reason(prefix: &str, key: &str) -> String {
    let mut s = String::from_str(prefix);
    s.append(key);
    s.append("`");
    s
}

/// The string member `key` of the parameters, or why there is none.
pub fn string_param(params: &JsonValue, key: &str) -> (r: Result<String, String>)
    ensures
        match r {
            Ok(s) => str_member(*params, key@) == Some(s@),
            Err(_) => str_member(*params, key@) is None,
        },
{
    match params.get(key) {
        Some(JsonValue::Str(s)) => Ok(s.clone()),
        Some(_) => Err(field_reason("invalid type, expected a string: field `", key)),
        None => Err(field_reason("missing field `", key)),
    }
}

/// The `usize` member `key` of the parameters, or why there is none.
pub fn usize_param(params: &JsonValue, key: &str) -> (r: Result<usize, String>)
    ensures
        match r {
            Ok(n) => usize_member(*params, key@) == Some(n as nat),
            Err(_) => usize_member(*params, key@) is None,
        },
{
    match params.get(key) {
        Some(JsonValue::Number(t)) => match parse_usize(t.as_str()) {
            Some(n) => Ok(n),
            None => Err(field_reason("invalid value, expected usize: field `", key)),
        },
        Some(_) => Err(field_reason("invalid type, expected usize: field `", key)),
        None => Err(field_reason("missing field `", key)),
    }
}

/// The list-of-strings member `key` of the parameters, or why there is none;
/// an absent member is the empty list where `optional`.
pub fn text_list_param(params: &JsonValue, key: &str, optional: bool) -> (r: Result<Vec<String>, String>)
    ensures
        match r {
            Ok(v) => text_list_member(*params, key@, optional) == Some(texts_of(v@)),
            Err(_) => text_list_member(*params, key@, optional) is None,
        },
{
    match params.get(key) {
        Some(JsonValue::Array(items)) => {
            let mut out: Vec<String> = Vec::new();
            let mut i: usize = 0;
            assert(items@.subrange(0, 0) =~= Seq::<JsonValue>::empty());
            assert(texts_of(out@) =~= Seq::<Seq<char>>::empty());
            while i < items.len()
                invariant
                    i <= items@.len(),
                    member(*params, key@) == Some(JsonValue::Array(*items)),
                    text_items(items@.subrange(0, i as int)) == Some(texts_of(out@)),
                decreases items@.len() - i,
            {
                let ghost t1 = items@.subrange(0, i + 1);
                assert(t1.drop_last() =~= items@.subrange(0, i as int));
                assert(t1.last() == items@[i as int]);
                match &items[i] {
                    JsonValue::Str(s) => {
                        let ghost before = texts_of(out@);
                        out.push(s.clone());
                        assert(texts_of(out@) =~= before.push(s@));
                    },
                    _ => {
                        proof {
                            assert(text_items(t1) is None);
                            lemma_text_items_none(items@, i + 1);
                        }
                        return Err(field_reason("invalid type, expected a list of strings: field `", key));
                    },
                }
                i = i + 1;
            }
            assert(items@.subrange(0, items@.len() as int) =~= items@);
            Ok(out)
        },
        Some(_) => Err(field_reason("invalid type, expected a list of strings: field `", key)),
        None => if optional {
            let out: Vec<String> = Vec::new();
            assert(texts_of(out@) =~= Seq::<Seq<char>>::empty());
            Ok(out)
        } else {
            Err(field_reason("missing field `", key))
        },
    }
}

} // verus!
