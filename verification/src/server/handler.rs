//! Answering commands.

use vstd::prelude::*;
use crate::protocol::commands::{Command, Response};
use crate::protocol::error::ProtocolError;

verus! {

/// Answers commands.
pub struct RequestHandler;

impl RequestHandler {
    /// Answers a command; every command is answered with PONG for now.
    pub fn handle_command(command: Command) -> (r: Result<Response, ProtocolError>)
        ensures
            r matches Ok(Response::Pong),
    {
        let _ = command;
        Ok(Response::Pong)
    }
}

} // verus!
