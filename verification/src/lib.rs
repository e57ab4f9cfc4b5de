//! The logic of a terminal chat client: the command grammar, the wire records,
//! and the decisions of the two pumps and of the session that races them.

pub mod codec;
pub mod command;
pub mod inbound;
pub mod message;
pub mod outbound;
pub mod outcome;
pub mod session;
pub mod text;
