//! The named states of a vault, and the names they carry in the state file.

use vstd::prelude::*;
use crate::error::VaultError;
use crate::text::same_text;

verus! {

/// Every step of the init, seal and unseal pipelines is a state of its own;
/// the state file always names the step that was last entered.
#[derive(Clone, Copy, Debug, PartialEq, Eq, Structural)]
pub enum VaultState {
    Uninit,
    /// Generates the master key and wraps it under the first password.
    Seed,
    InitFileSystem,
    MakeExternalGitRepo,
    MarkInitDone,
    RecreatingDirectories,
    Encrypting,
    UnlinkPostSeal,
    RelocateEncryptedBinaries,
    WriteMandatoryPostSealFiles,
    RestoreVaultGit,
    Sealed,
    DecryptMainVault,
    DecryptLocallySecuredVault,
    StashExternalGitRepo,
    DeleteSealedGitFiles,
    ExpandMainVault,
    ExpandLocalVault,
    CleanupOldBinaries,
    RestoreUnsecureFiles,
    Unsealed,
}

impl VaultState {
    /// The states in which a vault may be left for good.
    pub open spec fn rest(self) -> bool {
        self == VaultState::Uninit || self == VaultState::Sealed || self == VaultState::Unsealed
    }

    /// No run is in flight in a rest state; any other state found at startup
    /// means a run was interrupted and must be repaired.
    pub fn is_rest_state(&self) -> (r: bool)
        ensures
            r == self.rest(),
    {
        match self {
            VaultState::Uninit => true,
            VaultState::Sealed => true,
            VaultState::Unsealed => true,
            _ => false,
        }
    }

    /// The name under which the state is written to the state file.
    pub open spec fn name(self) -> Seq<char> {
        match self {
            VaultState::Uninit => "Uninit"@,
            VaultState::Seed => "Seed"@,
            VaultState::InitFileSystem => "InitFileSystem"@,
            VaultState::MakeExternalGitRepo => "MakeExternalGitRepo"@,
            VaultState::MarkInitDone => "MarkInitDone"@,
            VaultState::RecreatingDirectories => "RecreatingDirectories"@,
            VaultState::Encrypting => "Encrypting"@,
            VaultState::UnlinkPostSeal => "UnlinkPostSeal"@,
            VaultState::RelocateEncryptedBinaries => "RelocateEncryptedBinaries"@,
            VaultState::WriteMandatoryPostSealFiles => "WriteMandatoryPostSealFiles"@,
            VaultState::RestoreVaultGit => "RestoreVaultGit"@,
            VaultState::Sealed => "Sealed"@,
            VaultState::DecryptMainVault => "DecryptMainVault"@,
            VaultState::DecryptLocallySecuredVault => "DecryptLocallySecuredVault"@,
            VaultState::StashExternalGitRepo => "StashExternalGitRepo"@,
            VaultState::DeleteSealedGitFiles => "DeleteSealedGitFiles"@,
            VaultState::ExpandMainVault => "ExpandMainVault"@,
            VaultState::ExpandLocalVault => "ExpandLocalVault"@,
            VaultState::CleanupOldBinaries => "CleanupOldBinaries"@,
            VaultState::RestoreUnsecureFiles => "RestoreUnsecureFiles"@,
            VaultState::Unsealed => "Unsealed"@,
        }
    }

    pub fn as_str(&self) -> (r: &'static str)
        ensures
            r@ == self.name(),
    {
        match self {
            VaultState::Uninit => "Uninit",
            VaultState::Seed => "Seed",
            VaultState::InitFileSystem => "InitFileSystem",
            VaultState::MakeExternalGitRepo => "MakeExternalGitRepo",
            VaultState::MarkInitDone => "MarkInitDone",
            VaultState::RecreatingDirectories => "RecreatingDirectories",
            VaultState::Encrypting => "Encrypting",
            VaultState::UnlinkPostSeal => "UnlinkPostSeal",
            VaultState::RelocateEncryptedBinaries => "RelocateEncryptedBinaries",
            VaultState::WriteMandatoryPostSealFiles => "WriteMandatoryPostSealFiles",
            VaultState::RestoreVaultGit => "RestoreVaultGit",
            VaultState::Sealed => "Sealed",
            VaultState::DecryptMainVault => "DecryptMainVault",
            VaultState::DecryptLocallySecuredVault => "DecryptLocallySecuredVault",
            VaultState::StashExternalGitRepo => "StashExternalGitRepo",
            VaultState::DeleteSealedGitFiles => "DeleteSealedGitFiles",
            VaultState::ExpandMainVault => "ExpandMainVault",
            VaultState::ExpandLocalVault => "ExpandLocalVault",
            VaultState::CleanupOldBinaries => "CleanupOldBinaries",
            VaultState::RestoreUnsecureFiles => "RestoreUnsecureFiles",
            VaultState::Unsealed => "Unsealed",
        }
    }

    /// The state that `s` names, if it names one.
    pub open spec fn named(s: Seq<char>) -> Option<VaultState> {
        if exists|v: VaultState| v.name() == s {
            Some(choose|v: VaultState| v.name() == s)
        } else {
            None
        }
    }

    /// Reads a state back from its name; a name that no state carries is a
    /// corrupt state file.
    pub fn from_str(s: &str) -> (r: Result<VaultState, VaultError>)
        ensures
            r matches Ok(v) ==> v.name() == s@,
            r matches Err(e) ==> e == VaultError::StateCorruption && forall|v: VaultState|
                v.name() != s@,
            r.is_ok() == (Self::named(s@) is Some),
    {
        let r = if same_text(s, "Uninit") {
            Ok(VaultState::Uninit)
        } else if same_text(s, "Seed") {
            Ok(VaultState::Seed)
        } else if same_text(s, "InitFileSystem") {
            Ok(VaultState::InitFileSystem)
        } else if same_text(s, "MakeExternalGitRepo") {
            Ok(VaultState::MakeExternalGitRepo)
        } else if same_text(s, "MarkInitDone") {
            Ok(VaultState::MarkInitDone)
        } else if same_text(s, "RecreatingDirectories") {
            Ok(VaultState::RecreatingDirectories)
        } else if same_text(s, "Encrypting") {
            Ok(VaultState::Encrypting)
        } else if same_text(s, "UnlinkPostSeal") {
            Ok(VaultState::UnlinkPostSeal)
        } else if same_text(s, "RelocateEncryptedBinaries") {
            Ok(VaultState::RelocateEncryptedBinaries)
        } else if same_text(s, "WriteMandatoryPostSealFiles") {
            Ok(VaultState::WriteMandatoryPostSealFiles)
        } else if same_text(s, "RestoreVaultGit") {
            Ok(VaultState::RestoreVaultGit)
        } else if same_text(s, "Sealed") {
            Ok(VaultState::Sealed)
        } else if same_text(s, "DecryptMainVault") {
            Ok(VaultState::DecryptMainVault)
        } else if same_text(s, "DecryptLocallySecuredVault") {
            Ok(VaultState::DecryptLocallySecuredVault)
        } else if same_text(s, "StashExternalGitRepo") {
            Ok(VaultState::StashExternalGitRepo)
        } else if same_text(s, "DeleteSealedGitFiles") {
            Ok(VaultState::DeleteSealedGitFiles)
        } else if same_text(s, "ExpandMainVault") {
            Ok(VaultState::ExpandMainVault)
        } else if same_text(s, "ExpandLocalVault") {
            Ok(VaultState::ExpandLocalVault)
        } else if same_text(s, "CleanupOldBinaries") {
            Ok(VaultState::CleanupOldBinaries)
        } else if same_text(s, "RestoreUnsecureFiles") {
            Ok(VaultState::RestoreUnsecureFiles)
        } else if same_text(s, "Unsealed") {
            Ok(VaultState::Unsealed)
        } else {
            Err(VaultError::StateCorruption)
        };
        proof {
            match r {
                Ok(v) => {
                    assert(v.name() == s@);
                },
                Err(_) => {
                    assert forall|v: VaultState| v.name() != s@ by {
                        match v {
                            _ => {},
                        }
                    }
                },
            }
        }
        r
    }
}

/// No two states share a name, so a state is found again from its name.
pub proof fn lemma_state_names_distinct(a: VaultState, b: VaultState)
    ensures
        a.name() == b.name() ==> a == b,
        VaultState::named(a.name()) == Some(a),
{
    reveal_strlit("Uninit");
    reveal_strlit("Seed");
    reveal_strlit("InitFileSystem");
    reveal_strlit("MakeExternalGitRepo");
    reveal_strlit("MarkInitDone");
    reveal_strlit("RecreatingDirectories");
    reveal_strlit("Encrypting");
    reveal_strlit("UnlinkPostSeal");
    reveal_strlit("RelocateEncryptedBinaries");
    reveal_strlit("WriteMandatoryPostSealFiles");
    reveal_strlit("RestoreVaultGit");
    reveal_strlit("Sealed");
    reveal_strlit("DecryptMainVault");
    reveal_strlit("DecryptLocallySecuredVault");
    reveal_strlit("StashExternalGitRepo");
    reveal_strlit("DeleteSealedGitFiles");
    reveal_strlit("ExpandMainVault");
    reveal_strlit("ExpandLocalVault");
    reveal_strlit("CleanupOldBinaries");
    reveal_strlit("RestoreUnsecureFiles");
    reveal_strlit("Unsealed");
    if a.name() == b.name() {
        assert(a.name().len() == b.name().len());
        assert(a.name()[0] == b.name()[0]);
        assert(a.name()[2] == b.name()[2]);
        assert(a.name()[3] == b.name()[3]);
        assert(a == b);
    }
    let c = choose|v: VaultState| v.name() == a.name();
    assert(c.name() == a.name());
    assert(c.name().len() == a.name().len());
    assert(c.name()[0] == a.name()[0]);
    assert(c.name()[2] == a.name()[2]);
    assert(c.name()[3] == a.name()[3]);
}

} // verus!
