//! Responses to queries, with what the choice among them reads.

use crate::wire;
use sn_messaging::QueryResponse as ResponseMessage;
use vstd::prelude::*;

verus! {

/// A response to a query.
pub struct QueryResponse {
    /// The response as the elder gave it.
    pub message: ResponseMessage,
    /// The number of entries of the transfer history, where the response is one.
    pub history_len: Option<usize>,
}

impl QueryResponse {
    /// Whether the length is the one of the response's history.
    pub open spec fn wf(self) -> bool {
        self.history_len == wire::history_len(self.message)
    }

    /// Takes a response in, and reads the length of its history where it has one.
    pub fn new(message: ResponseMessage) -> (response: QueryResponse)
        ensures
            response.message == message,
            response.history_len == wire::history_len(message),
            response.wf(),
    {
        let history_len = wire::read_history_len(&message);
        QueryResponse { message, history_len }
    }
}

impl Clone for QueryResponse {
    fn clone(&self) -> (copy: Self)
        ensures
            copy == *self,
    {
        QueryResponse {
            message: wire::clone_response(&self.message),
            history_len: self.history_len,
        }
    }
}

} // verus!
