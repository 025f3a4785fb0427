//! JSON-RPC messages. Parts that are passed on without being read are kept as JSON text.

use vstd::prelude::*;

verus! {

/// A request of a client.
#[derive(Debug, Clone, PartialEq, Eq)]
pub struct JsonRpcRequest {
    /// The client's id, as JSON text.
    pub id: String,
    pub method: String,
    /// The parameters, as JSON text.
    pub params: Option<String>,
}

/// One request, or several at once.
#[derive(Debug, Clone, PartialEq, Eq)]
pub enum JsonRpcRequestEnum {
    Single(JsonRpcRequest),
    Batch(Vec<JsonRpcRequest>),
}

/// An error that a server answered with.
#[derive(Debug, Clone, PartialEq, Eq)]
pub struct JsonRpcErrorData {
    pub code: i64,
    pub message: String,
    /// Further data, as JSON text.
    pub data: Option<String>,
}

/// The reply to a request.
#[derive(Debug, Clone, PartialEq, Eq)]
pub struct JsonRpcForwardedResponse {
    pub jsonrpc: String,
    /// The id of the request, as JSON text.
    pub id: String,
    /// The result, as JSON text.
    pub result: Option<String>,
    pub error: Option<JsonRpcErrorData>,
}

/// The reply to one request, or to several at once.
#[derive(Debug, Clone, PartialEq, Eq)]
pub enum JsonRpcForwardedResponseEnum {
    Single(JsonRpcForwardedResponse),
    Batch(Vec<JsonRpcForwardedResponse>),
}

/// An error that kept a server from answering.
#[derive(Debug, Clone, PartialEq, Eq)]
pub struct ProviderError {
    /// What formatting the error with `{:?}` gives.
    pub debug: String,
}

/// `r` is the reply that carries the result `result` to the request with the id `id`.
pub open spec fn is_success(r: JsonRpcForwardedResponse, id: Seq<char>, result: Seq<char>) -> bool {
    &&& r.jsonrpc@ == "2.0"@
    &&& r.id@ == id
    &&& r.result matches Some(text) && text@ == result
    &&& r.error is None
}

/// The reply to a request carries its id and the whole result, and no error.
pub proof fn law_reply_carries_id_and_result(
    r: JsonRpcForwardedResponse,
    id: Seq<char>,
    result: Seq<char>,
)
    ensures
        is_success(r, id, result) <==> {
            &&& r.jsonrpc@ == "2.0"@
            &&& r.id@ == id
            &&& r.result is Some
            &&& r.result->Some_0@ == result
            &&& r.error is None
        },
{
}

impl JsonRpcForwardedResponse {
    /// The reply that carries a result.
    pub fn success(id: String, result: String) -> (r: Self)
        ensures
            is_success(r, id@, result@),
    {
        JsonRpcForwardedResponse {
            jsonrpc: "2.0".to_owned(),
            id,
            result: Some(result),
            error: None,
        }
    }

    /// A copy of this reply.
    pub fn duplicate(&self) -> (r: Self)
        ensures
            r == *self,
    {
        JsonRpcForwardedResponse {
            jsonrpc: self.jsonrpc.clone(),
            id: self.id.clone(),
            result: copy_text(&self.result),
            error: match &self.error {
                None => None,
                Some(e) => Some(
                    JsonRpcErrorData {
                        code: e.code,
                        message: e.message.clone(),
                        data: copy_text(&e.data),
                    },
                ),
            },
        }
    }
}

/// A copy of a text that may be absent.
pub fn copy_text(text: &Option<String>) -> (r: Option<String>)
    ensures
        r == *text,
{
    match text {
        None => None,
        Some(t) => Some(t.clone()),
    }
}

} // verus!
