//! The messages that a client makes.

use crate::error::Error;
use crate::message_id::MessageId;
use crate::wire;
use sn_messaging::{Cmd, Message};
use vstd::prelude::*;

verus! {

/// Build a Cmd Message with a new identifier, whichever one is drawn.
pub fn create_cmd_message(msg_contents: Cmd) -> (message: Result<Message, Error>)
    ensures
        message matches Ok(message) && message == wire::cmd_message(
            msg_contents,
            wire::message_id(message),
        ),
{
    let id = wire::random_message_id();
    Ok(cmd_message_with_id(msg_contents, id))
}

/// Build a Cmd Message with this identifier.
pub fn cmd_message_with_id(msg_contents: Cmd, id: MessageId) -> (message: Message)
    ensures
        message == wire::cmd_message(msg_contents, id@),
        wire::message_id(message) == id@,
{
    wire::make_cmd_message(msg_contents, id)
}

} // verus!
