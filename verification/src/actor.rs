//! Identities, messages and failures of actors.
use vstd::prelude::*;

verus! {

/// Identifier of an actor.
#[derive(Debug, Clone, Copy, PartialEq, Eq, Hash, Structural)]
pub struct ActorId(pub u64);

impl ActorId {
    pub fn new(id: u64) -> (r: Self)
        ensures
            r.0 == id,
    {
        ActorId(id)
    }
}

/// A message that an actor answers with a response.
pub trait Message {
    type Response;
}

/// Why a message could not be delivered or answered.
#[derive(Debug, Clone, Copy, PartialEq, Eq, Structural)]
pub enum ActorError {
    Disconnected,
    MailboxFull,
    Timeout,
}

/// The text of an actor error.
pub open spec fn actor_error_str(e: ActorError) -> Seq<char> {
    match e {
        ActorError::Disconnected => "actor disconnected"@,
        ActorError::MailboxFull => "actor mailbox full"@,
        ActorError::Timeout => "actor message timeout"@,
    }
}

impl ActorError {
    /// The text of the error.
    pub fn to_string(&self) -> (r: String)
        ensures
            r@ == actor_error_str(*self),
    {
        match self {
            ActorError::Disconnected => String::from_str("actor disconnected"),
            ActorError::MailboxFull => String::from_str("actor mailbox full"),
            ActorError::Timeout => String::from_str("actor message timeout"),
        }
    }
}

/// What a supervisor does when a child actor fails.
#[derive(Debug, Clone, Copy, PartialEq, Eq, Structural)]
pub enum SupervisionStrategy {
    /// Restart the actor.
    Restart,
    /// Stop the actor.
    Stop,
    /// Pass the failure to the parent supervisor.
    Escalate,
}

} // verus!
