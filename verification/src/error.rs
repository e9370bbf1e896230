//! The ways an operation on a vault can fail.

use vstd::prelude::*;

verus! {

/// Every failure the library reports falls under one of these kinds.
#[derive(Clone, Copy, Debug, PartialEq, Eq, Structural)]
pub enum VaultError {
    /// The wrapped key did not open under the password given.
    AuthError,
    /// An envelope had the wrong magic or failed its authentication tag.
    IntegrityError,
    /// The state file names a state that does not exist, or lacks a required key.
    StateCorruption,
    /// The directory holds no vault yet.
    NotInitialized,
    /// The directory already holds a vault.
    AlreadyInitialized,
    /// The operation does not fit the state the vault rests in.
    WrongState,
    /// The remote refused, failed, or lacks what was asked of it.
    RemoteError,
    /// The filesystem refused an operation.
    IoError,
    /// The rules file could not be understood.
    ConfigError,
}

impl VaultError {
    /// What to tell the user.
    pub open spec fn text(self) -> Seq<char> {
        match self {
            VaultError::AuthError => "The password does not open this vault."@,
            VaultError::IntegrityError => "The archive is damaged or is not an archive of this vault."@,
            VaultError::StateCorruption => "The state file cannot be understood."@,
            VaultError::NotInitialized => "There is no vault in that directory."@,
            VaultError::AlreadyInitialized => "There is already a vault in that directory."@,
            VaultError::WrongState => "The vault is not in a state that allows this."@,
            VaultError::RemoteError => "The remote could not be used."@,
            VaultError::IoError => "A file or directory could not be read or written."@,
            VaultError::ConfigError => "The rules in novault.toml cannot be understood."@,
        }
    }

    pub fn message(&self) -> (r: &'static str)
        ensures
            r@ == self.text(),
    {
        match self {
            VaultError::AuthError => "The password does not open this vault.",
            VaultError::IntegrityError => "The archive is damaged or is not an archive of this vault.",
            VaultError::StateCorruption => "The state file cannot be understood.",
            VaultError::NotInitialized => "There is no vault in that directory.",
            VaultError::AlreadyInitialized => "There is already a vault in that directory.",
            VaultError::WrongState => "The vault is not in a state that allows this.",
            VaultError::RemoteError => "The remote could not be used.",
            VaultError::IoError => "A file or directory could not be read or written.",
            VaultError::ConfigError => "The rules in novault.toml cannot be understood.",
        }
    }

    /// Whether the failure leaves the vault usable after the caller corrects the input.
    pub open spec fn recoverable(self) -> bool {
        self == VaultError::AuthError || self == VaultError::WrongState
            || self == VaultError::NotInitialized || self == VaultError::AlreadyInitialized
    }

    pub fn is_recoverable(&self) -> (r: bool)
        ensures
            r == self.recoverable(),
    {
        match self {
            VaultError::AuthError => true,
            VaultError::WrongState => true,
            VaultError::NotInitialized => true,
            VaultError::AlreadyInitialized => true,
            _ => false,
        }
    }
}

} // verus!
