//! NoVault turns a directory into an encrypted vault and back. Sealed, the
//! directory holds one encrypted archive and a little metadata; unsealed,
//! the files are in place again. Every step between the two is a named
//! state that is committed to a state file before it is taken, so that a
//! run that is interrupted can be repaired by the next.
//!
//! The library decides and the host acts: nothing here touches the disk,
//! the terminal or the network. A run is planned with
//! [`sequence::Playable::play`]; each of its steps is entered with
//! `VaultState::act` in [`actions`], which takes what the host read for
//! the step and returns the [`effects`] for the host to carry out.
//!
//! - [`envelope`], [`keys`], [`hex`]: the encrypted form and the key hierarchy.
//! - [`filter`], [`sealing`], [`archive`], [`unsealing`]: what goes where
//!   when a tree is sealed, and what comes back when it is unsealed.
//! - [`statefile`], [`states`], [`steps`], [`actions`], [`sequence`]: the
//!   state file and the state machine.
//! - [`sync`], [`commands`]: the remote and the commands.
//! - [`disk`]: a model of the working directory, and what a seal leaves in it.
//! - [`paths`], [`text`], [`effects`], [`error`]: what the others share.

pub mod actions;
pub mod archive;
pub mod commands;
pub mod disk;
pub mod effects;
pub mod envelope;
pub mod error;
pub mod filter;
pub mod hex;
pub mod keys;
pub mod paths;
pub mod sealing;
pub mod sequence;
pub mod statefile;
pub mod states;
pub mod steps;
pub mod sync;
pub mod text;
pub mod unsealing;
