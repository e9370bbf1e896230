//! Where each part of a vault lives under its root directory.
//!
//! Paths are text in POSIX form: components separated by `/`.

use vstd::prelude::*;
use core::marker::PhantomData;
use crate::text::chars_of;

verus! {

/// `base` with the component `name` added below it.
pub open spec fn child(base: Seq<char>, name: Seq<char>) -> Seq<char> {
    if base.len() == 0 || base.last() == '/' {
        base + name
    } else {
        base + seq!['/'] + name
    }
}

/// Adds the relative component `name` below `base`.
pub fn join_path(base: &str, name: &str) -> (r: String)
    ensures
        r@ == child(base@, name@),
{
    let cs = chars_of(base);
    let mut r: String = base.to_owned();
    if cs.len() > 0 && cs[cs.len() - 1] != '/' {
        proof {
            reveal_strlit("/");
        }
        r.append("/");
        assert("/"@ == seq!['/']);
    }
    r.append(name);
    r
}

/// Marks a root as the user gave it.
pub struct Normal;

/// Marks a root that the host has resolved to its canonical, absolute form.
pub struct Canonical;

/// The root directory of a vault. The marker says whether the path is as the
/// user gave it or canonical.
pub struct RootPath<D>(String, PhantomData<D>);

impl<D> View for RootPath<D> {
    type V = Seq<char>;

    closed spec fn view(&self) -> Seq<char> {
        self.0@
    }
}

impl RootPath<Normal> {
    pub fn new(buf: &str) -> (r: RootPath<Normal>)
        ensures
            r@ == buf@,
    {
        RootPath(buf.to_owned(), PhantomData)
    }
}

impl<T> RootPath<T> {
    /// The same directory under the path `resolved`, which the host obtained
    /// by resolving this root against the filesystem.
    pub fn canonicalize(&self, resolved: &str) -> (r: RootPath<Canonical>)
        ensures
            r@ == resolved@,
    {
        RootPath(resolved.to_owned(), PhantomData)
    }

    pub fn path(&self) -> (r: &String)
        ensures
            r@ == self@,
    {
        &self.0
    }

    /// `.nov`, the directory that holds everything the vault keeps for itself.
    pub open spec fn metadata_path(&self) -> Seq<char> {
        child(self@, ".nov"@)
    }

    pub fn metadata_folder(&self) -> (r: String)
        ensures
            r@ == self.metadata_path(),
    {
        join_path(self.0.as_str(), ".nov")
    }

    /// `.nov/unsecure`, where files that stay in clear text wait while the vault is sealed.
    pub open spec fn unsecure_path(&self) -> Seq<char> {
        child(self.metadata_path(), "unsecure"@)
    }

    pub fn unsecure_folder(&self) -> (r: String)
        ensures
            r@ == self.unsecure_path(),
    {
        join_path(self.metadata_folder().as_str(), "unsecure")
    }

    /// `.nov/secure_local`, the home of the archive that never leaves the machine.
    pub open spec fn secure_local_path(&self) -> Seq<char> {
        child(self.metadata_path(), "secure_local"@)
    }

    pub fn secure_local_folder(&self) -> (r: String)
        ensures
            r@ == self.secure_local_path(),
    {
        join_path(self.metadata_folder().as_str(), "secure_local")
    }

    /// `.nov/secure_local/inpro.bin`, the local-only envelope.
    pub open spec fn secure_local_zip_path(&self) -> Seq<char> {
        child(self.secure_local_path(), "inpro.bin"@)
    }

    pub fn secure_local_zip(&self) -> (r: String)
        ensures
            r@ == self.secure_local_zip_path(),
    {
        join_path(self.secure_local_folder().as_str(), "inpro.bin")
    }

    /// `.nov/.delete`, the list of paths to unlink once the archives are written.
    pub open spec fn deletion_path(&self) -> Seq<char> {
        child(self.metadata_path(), ".delete"@)
    }

    pub fn deletion_shards(&self) -> (r: String)
        ensures
            r@ == self.deletion_path(),
    {
        join_path(self.metadata_folder().as_str(), ".delete")
    }

    pub open spec fn gitignore_path(&self) -> Seq<char> {
        child(self@, ".gitignore"@)
    }

    pub fn gitignore(&self) -> (r: String)
        ensures
            r@ == self.gitignore_path(),
    {
        join_path(self.0.as_str(), ".gitignore")
    }

    /// `novault.toml`, the user's rules.
    pub open spec fn config_path(&self) -> Seq<char> {
        child(self@, "novault.toml"@)
    }

    pub fn config(&self) -> (r: String)
        ensures
            r@ == self.config_path(),
    {
        join_path(self.0.as_str(), "novault.toml")
    }

    pub open spec fn gitattributes_path(&self) -> Seq<char> {
        child(self@, ".gitattributes"@)
    }

    pub fn gitattributes(&self) -> (r: String)
        ensures
            r@ == self.gitattributes_path(),
    {
        join_path(self.0.as_str(), ".gitattributes")
    }

    /// `.nov/inpro.zip`, the public envelope while it is being written.
    pub open spec fn inprogress_path(&self) -> Seq<char> {
        child(self.metadata_path(), "inpro.zip"@)
    }

    pub fn inprogress_vault(&self) -> (r: String)
        ensures
            r@ == self.inprogress_path(),
    {
        join_path(self.metadata_folder().as_str(), "inpro.zip")
    }

    /// `vault.bin`, the sealed archive.
    pub open spec fn vault_path(&self) -> Seq<char> {
        child(self@, "vault.bin"@)
    }

    pub fn vault_binary(&self) -> (r: String)
        ensures
            r@ == self.vault_path(),
    {
        join_path(self.0.as_str(), "vault.bin")
    }

    /// `.nov/wrap`, which holds the user's own repository while the vault is sealed.
    pub open spec fn wrap_path(&self) -> Seq<char> {
        child(self.metadata_path(), "wrap"@)
    }

    pub fn wrap_folder(&self) -> (r: String)
        ensures
            r@ == self.wrap_path(),
    {
        join_path(self.metadata_folder().as_str(), "wrap")
    }

    pub open spec fn external_git_path(&self) -> Seq<char> {
        child(self.wrap_path(), "external.git"@)
    }

    pub fn external_git(&self) -> (r: String)
        ensures
            r@ == self.external_git_path(),
    {
        join_path(self.wrap_folder().as_str(), "external.git")
    }

    pub open spec fn local_git_path(&self) -> Seq<char> {
        child(self@, ".git"@)
    }

    pub fn local_git(&self) -> (r: String)
        ensures
            r@ == self.local_git_path(),
    {
        join_path(self.0.as_str(), ".git")
    }

    /// `.nov/.state`, the state file.
    pub open spec fn state_path(&self) -> Seq<char> {
        child(self.metadata_path(), ".state"@)
    }

    pub fn state_file(&self) -> (r: String)
        ensures
            r@ == self.state_path(),
    {
        join_path(self.metadata_folder().as_str(), ".state")
    }

    /// `.nov/.s3auth`, the object store's credentials in clear text.
    pub open spec fn s3_param_path(&self) -> Seq<char> {
        child(self.metadata_path(), ".s3auth"@)
    }

    pub fn s3_param_file(&self) -> (r: String)
        ensures
            r@ == self.s3_param_path(),
    {
        join_path(self.metadata_folder().as_str(), ".s3auth")
    }
}

impl<D> Clone for RootPath<D> {
    fn clone(&self) -> (r: Self)
        ensures
            r@ == self@,
    {
        RootPath(self.0.clone(), PhantomData)
    }
}

} // verus!
