//! Commands a client sends and responses the server gives back.

use vstd::prelude::*;

verus! {

/// A command of the cache protocol.
#[allow(inconsistent_fields)]
#[derive(Debug, Clone, PartialEq, Eq)]
pub enum Command {
    /// PUT key value [ttl]
    Put { key: Vec<u8>, value: Vec<u8>, ttl: Option<u64> },
    /// GET key
    Get { key: Vec<u8> },
    /// DEL key
    Del { key: Vec<u8> },
    /// EXPIRE key ttl
    Expire { key: Vec<u8>, ttl: u64 },
    /// STATS
    Stats,
    /// METRICS: performance figures
    Metrics,
    /// PING
    Ping,
}

/// A command as plain values.
#[allow(inconsistent_fields)]
pub enum CommandView {
    Put { key: Seq<u8>, value: Seq<u8>, ttl: Option<u64> },
    Get { key: Seq<u8> },
    Del { key: Seq<u8> },
    Expire { key: Seq<u8>, ttl: u64 },
    Stats,
    Metrics,
    Ping,
}

impl View for Command {
    type V = CommandView;

    open spec fn view(&self) -> CommandView {
        match self {
            Command::Put { key, value, ttl } => CommandView::Put { key: key@, value: value@, ttl: *ttl },
            Command::Get { key } => CommandView::Get { key: key@ },
            Command::Del { key } => CommandView::Del { key: key@ },
            Command::Expire { key, ttl } => CommandView::Expire { key: key@, ttl: *ttl },
            Command::Stats => CommandView::Stats,
            Command::Metrics => CommandView::Metrics,
            Command::Ping => CommandView::Ping,
        }
    }
}

/// A response of the cache protocol.
#[derive(Debug, Clone, PartialEq, Eq)]
pub enum Response {
    /// OK (named so that it does not shadow `Result::Ok`)
    Okay,
    /// The value stored under a key
    Value(Vec<u8>),
    /// The key is not there
    Null,
    /// An error message
    Error(String),
    /// Answer to PING
    Pong,
    /// Statistics text
    Stats(String),
}

/// A response as plain values.
pub enum ResponseView {
    Okay,
    Value(Seq<u8>),
    Null,
    Error(Seq<char>),
    Pong,
    Stats(Seq<char>),
}

impl View for Response {
    type V = ResponseView;

    open spec fn view(&self) -> ResponseView {
        match self {
            Response::Okay => ResponseView::Okay,
            Response::Value(v) => ResponseView::Value(v@),
            Response::Null => ResponseView::Null,
            Response::Error(m) => ResponseView::Error(m@),
            Response::Pong => ResponseView::Pong,
            Response::Stats(s) => ResponseView::Stats(s@),
        }
    }
}

/// The form of a response that is handed between nodes.
#[derive(Debug, Clone, PartialEq, Eq)]
pub enum SerializableResponse {
    Okay,
    Value(Vec<u8>),
    Null,
    Error(String),
    Pong,
    Stats(String),
}

impl View for SerializableResponse {
    type V = ResponseView;

    open spec fn view(&self) -> ResponseView {
        match self {
            SerializableResponse::Okay => ResponseView::Okay,
            SerializableResponse::Value(v) => ResponseView::Value(v@),
            SerializableResponse::Null => ResponseView::Null,
            SerializableResponse::Error(m) => ResponseView::Error(m@),
            SerializableResponse::Pong => ResponseView::Pong,
            SerializableResponse::Stats(s) => ResponseView::Stats(s@),
        }
    }
}

impl From<Response> for SerializableResponse {
    fn from(response: Response) -> (out: Self) {
        match response {
            Response::Okay => SerializableResponse::Okay,
            Response::Value(bytes) => SerializableResponse::Value(bytes),
            Response::Null => SerializableResponse::Null,
            Response::Error(msg) => SerializableResponse::Error(msg),
            Response::Pong => SerializableResponse::Pong,
            Response::Stats(stats) => SerializableResponse::Stats(stats),
        }
    }
}

impl vstd::std_specs::convert::FromSpecImpl<Response> for SerializableResponse {
    open spec fn obeys_from_spec() -> bool {
        true
    }

    open spec fn from_spec(response: Response) -> SerializableResponse {
        match response {
            Response::Okay => SerializableResponse::Okay,
            Response::Value(bytes) => SerializableResponse::Value(bytes),
            Response::Null => SerializableResponse::Null,
            Response::Error(msg) => SerializableResponse::Error(msg),
            Response::Pong => SerializableResponse::Pong,
            Response::Stats(stats) => SerializableResponse::Stats(stats),
        }
    }
}

impl From<SerializableResponse> for Response {
    fn from(response: SerializableResponse) -> (out: Self) {
        match response {
            SerializableResponse::Okay => Response::Okay,
            SerializableResponse::Value(vec) => Response::Value(vec),
            SerializableResponse::Null => Response::Null,
            SerializableResponse::Error(msg) => Response::Error(msg),
            SerializableResponse::Pong => Response::Pong,
            SerializableResponse::Stats(stats) => Response::Stats(stats),
        }
    }
}

impl vstd::std_specs::convert::FromSpecImpl<SerializableResponse> for Response {
    open spec fn obeys_from_spec() -> bool {
        true
    }

    open spec fn from_spec(response: SerializableResponse) -> Response {
        match response {
            SerializableResponse::Okay => Response::Okay,
            SerializableResponse::Value(vec) => Response::Value(vec),
            SerializableResponse::Null => Response::Null,
            SerializableResponse::Error(msg) => Response::Error(msg),
            SerializableResponse::Pong => Response::Pong,
            SerializableResponse::Stats(stats) => Response::Stats(stats),
        }
    }
}

/// Converting a response to its serialisable form and back gives it back.
pub proof fn lemma_serializable_response_roundtrip(r: Response)
    ensures
        <Response as vstd::std_specs::convert::FromSpec<SerializableResponse>>::from_spec(
            <SerializableResponse as vstd::std_specs::convert::FromSpec<Response>>::from_spec(r),
        ) == r,
{
}

} // verus!
