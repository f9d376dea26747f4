//! Chat messages and sessions.

use vstd::prelude::*;
use crate::stamps::{new_uuid, utc_now, Timestamp};
use crate::text::string_from;

verus! {

/// Who wrote a chat message.
#[derive(Debug, Clone, Copy, PartialEq, Eq, Structural)]
pub enum ChatRole {
    System,
    User,
    Assistant,
    Tool,
}

/// One message of a chat.
pub struct ChatMessage {
    pub id: uuid::Uuid,
    pub role: ChatRole,
    pub content: String,
    pub created_at: Timestamp,
}

impl ChatMessage {
    /// A new message with a fresh id, stamped with the current time.
    pub fn new(role: ChatRole, content: &str) -> (m: ChatMessage)
        ensures
            m.role == role,
            m.content@ == content@,
    {
        ChatMessage { id: new_uuid(), role, content: string_from(content), created_at: utc_now() }
    }
}

impl Clone for ChatMessage {
    fn clone(&self) -> (r: Self)
        ensures
            r == *self,
    {
        ChatMessage {
            id: self.id,
            role: self.role,
            content: self.content.clone(),
            created_at: self.created_at,
        }
    }
}

/// A stored conversation with its messages.
pub struct ChatSession {
    pub id: uuid::Uuid,
    pub title: String,
    pub model_id: Option<String>,
    pub messages: Vec<ChatMessage>,
    pub created_at: Timestamp,
    pub updated_at: Timestamp,
}

/// One piece of generated text; the last token of a generation is empty and
/// has `done` set.
#[derive(Debug)]
pub struct GeneratedToken {
    pub text: String,
    pub index: usize,
    pub done: bool,
}

} // verus!
