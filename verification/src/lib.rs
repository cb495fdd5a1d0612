//! A minimal software-engineering agent: it asks a language model for the next
//! step, runs the shell commands that the model writes in fenced `bash` blocks,
//! feeds their output back, and forgets the conversation when asked to reset.
//!
//! The modules hold the parts that decide: reading actions out of a reply,
//! turning command output into an observation, the agent's turn-taking state
//! machine and the transcript that the terminal front end shows.

pub mod text;
pub mod model;
pub mod parse_laws;
pub mod env;
pub mod agent;
pub mod tui;
