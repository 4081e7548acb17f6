//! Coordination of a ten-player team match: the pre-match queue, the timed
//! map vote, the captains' draft, the side choice, the ready check and the
//! data handed to the match-hosting backend.
//!
//! Every operation on the shared [`session::Session`] is a step from one state
//! to the next; what the chat gateway and the server-control API do between
//! steps is left to the caller, who passes their results back in.

pub mod launch;
pub mod maps;
pub mod profile;
pub mod session;
pub mod trusted;
pub mod vote;

mod util;
