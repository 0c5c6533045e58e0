//! The dispatch core of a request/reply mechanism that runs over a shared
//! queue: the message envelope and its addressing, the routing table from
//! command names to handlers, and the dispatcher that turns one work item into
//! one reply.

pub mod codec;
pub mod handler;
pub mod protocol;
pub mod routing;
pub mod work_runner;

pub use crate::handler::{handler, FnHandler, Handler, HandlerError, HandlerInput, HandlerOutput};
pub use crate::protocol::Message;
pub use crate::routing::{Module, RegistrationError};
pub use crate::work_runner::{DispatchError, Pending, Step, WorkRunner};
