use std::collections::HashMap;
use vstd::prelude::*;

use crate::message_id::MessageId;

verus! {

/// One message as the broker delivers it, before it is decoded.
#[derive(Debug, Clone)]
pub struct MySbMessage {
    pub id: MessageId,
    /// How many times the broker has delivered this message.
    pub attempt_no: i32,
    pub headers: Option<HashMap<String, String>>,
    pub content: Vec<u8>,
}

} // verus!
