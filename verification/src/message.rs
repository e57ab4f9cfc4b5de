//! The two families of values that travel over the connection.

use vstd::prelude::*;

verus! {

/// What the client asks of the server.
#[derive(Debug, Clone, PartialEq, Eq)]
pub enum OutboundRequest {
    Join { group_name: String },
    Post { group_name: String, message: String },
}

/// What the server tells the client.
#[derive(Debug, Clone, PartialEq, Eq)]
pub enum InboundReply {
    Message { group_name: String, message: String },
    Error { detail: String },
}

/// The mathematical value of an [`OutboundRequest`].
pub enum Request {
    Join { group_name: Seq<char> },
    Post { group_name: Seq<char>, message: Seq<char> },
}

/// The mathematical value of an [`InboundReply`].
pub enum Reply {
    Message { group_name: Seq<char>, message: Seq<char> },
    Error { detail: Seq<char> },
}

impl View for OutboundRequest {
    type V = Request;

    open spec fn view(&self) -> Request {
        match self {
            OutboundRequest::Join { group_name } => Request::Join { group_name: group_name@ },
            OutboundRequest::Post { group_name, message } => Request::Post {
                group_name: group_name@,
                message: message@,
            },
        }
    }
}

impl View for InboundReply {
    type V = Reply;

    open spec fn view(&self) -> Reply {
        match self {
            InboundReply::Message { group_name, message } => Reply::Message {
                group_name: group_name@,
                message: message@,
            },
            InboundReply::Error { detail } => Reply::Error { detail: detail@ },
        }
    }
}

} // verus!
