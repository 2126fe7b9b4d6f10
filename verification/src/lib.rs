//! Session addressing and resolution for an interactive remote-shell launcher.
//!
//! The launcher remembers the targets a user has connected to and offers the
//! hosts that the remote-shell client already trusts as further candidates.
//! This library holds the rules of that launcher: how line-oriented text
//! becomes an ordered list of unique entries, how the two lists share one
//! numbered index space, how a line typed by the user is interpreted against
//! that space, and how the remembered list changes as a result.
//!
//! Every function here is a function of its arguments. Reading files,
//! prompting and starting the remote shell are left to the caller.

pub mod candidates;
pub mod error;
pub mod hosts;
pub mod number;
pub mod prompt;
pub mod store;
pub mod text;

pub use crate::candidates::{display, resolve};
pub use crate::error::SessionError;
pub use crate::hosts::{list_known_hosts, load_stored_session};
pub use crate::prompt::{read_prompt, read_selection, ssh_login, Action, Launch, Step};
pub use crate::store::{remove_session, save_session};
