//! Whole runs against a directory that is kept in memory: the library
//! plans, and the small host below carries the plans out.

use std::collections::{BTreeMap, BTreeSet};

use novault::actions::{Context, Need, StepInput};
use novault::commands::{run_init, seal_full, unseal};
use novault::effects::{Effect, FsOp};
use novault::error::VaultError;
use novault::filter::RulesFile;
use novault::keys::CachedPassword;
use novault::paths::{Normal, RootPath};
use novault::sealing::{include_in_walk, TreeEntry, WorkingTree};
use novault::sequence::RunPlan;
use novault::statefile::StateFileHandle;
use novault::states::VaultState;

#[derive(Clone, Debug, PartialEq, Eq, Default)]
struct Disk {
    files: BTreeMap<String, Vec<u8>>,
    dirs: BTreeSet<String>,
}

fn parent_of(path: &str) -> Option<String> {
    path.rfind('/').filter(|i| *i > 0).map(|i| path[..i].to_string())
}

impl Disk {
    fn mkdirs(&mut self, path: &str) {
        let mut at = Some(path.to_string());
        while let Some(p) = at {
            self.dirs.insert(p.clone());
            at = parent_of(&p);
        }
    }

    fn has(&self, path: &str) -> bool {
        self.files.contains_key(path) || self.dirs.contains(path)
    }

    fn below(&self, path: &str) -> Vec<String> {
        let prefix = format!("{path}/");
        let mut all: Vec<String> = self
            .files
            .keys()
            .chain(self.dirs.iter())
            .filter(|p| p.starts_with(&prefix))
            .cloned()
            .collect();
        all.sort();
        all
    }

    fn remove_tree(&mut self, path: &str) {
        for p in self.below(path) {
            self.files.remove(&p);
            self.dirs.remove(&p);
        }
        self.files.remove(path);
        self.dirs.remove(path);
    }

    fn write(&mut self, path: &str, contents: &[u8]) {
        if let Some(p) = parent_of(path) {
            self.mkdirs(&p);
        }
        self.files.insert(path.to_string(), contents.to_vec());
    }

    fn rename(&mut self, from: &str, to: &str) -> Result<(), String> {
        if let Some(data) = self.files.remove(from) {
            self.files.insert(to.to_string(), data);
            return Ok(());
        }
        if !self.dirs.contains(from) {
            return Err(format!("rename: {from} is absent"));
        }
        let moved = self.below(from);
        self.dirs.remove(from);
        self.dirs.insert(to.to_string());
        for p in moved {
            let target = format!("{to}{}", &p[from.len()..]);
            if let Some(data) = self.files.remove(&p) {
                self.files.insert(target, data);
            } else {
                self.dirs.remove(&p);
                self.dirs.insert(target);
            }
        }
        Ok(())
    }

    fn apply(&mut self, root: &RootPath<Normal>, effect: &Effect) -> Result<(), String> {
        let tidy = |p: &String| p.trim_end_matches('/').to_string();
        let effect = match effect {
            Effect::Apply { op, path } => Effect::Apply { op: *op, path: tidy(path) },
            Effect::Write { path, contents, if_absent } => {
                if path.ends_with('/') {
                    return Err(format!("{path} names a directory"));
                }
                effect.clone()
            }
            other => other.clone(),
        };
        match &effect {
            Effect::CommitState { text } => {
                self.write(&root.state_file(), text.as_bytes());
                Ok(())
            }
            Effect::Write { path, contents, if_absent } => {
                if !(*if_absent && self.files.contains_key(path)) {
                    self.write(path, contents);
                }
                Ok(())
            }
            Effect::Rename { from, to, if_present } => {
                if *if_present && !self.has(from) {
                    Ok(())
                } else {
                    self.rename(from, to)
                }
            }
            Effect::Apply { op, path } => match op {
                FsOp::CreateDirAll => {
                    self.mkdirs(path);
                    Ok(())
                }
                FsOp::RecreateDir => {
                    self.remove_tree(path);
                    self.mkdirs(path);
                    Ok(())
                }
                FsOp::RemoveFile => {
                    self.files.remove(path).map(|_| ()).ok_or(format!("no file {path}"))
                }
                FsOp::RemoveFileIfPresent => {
                    self.files.remove(path);
                    Ok(())
                }
                FsOp::RemoveDir => {
                    if !self.dirs.contains(path) || !self.below(path).is_empty() {
                        return Err(format!("{path} is no empty directory"));
                    }
                    self.dirs.remove(path);
                    Ok(())
                }
                FsOp::RemoveDirAll => {
                    if !self.dirs.contains(path) {
                        return Err(format!("no directory {path}"));
                    }
                    self.remove_tree(path);
                    Ok(())
                }
                FsOp::RemoveDirAllIfPresent | FsOp::Unlink => {
                    self.remove_tree(path);
                    Ok(())
                }
                FsOp::GitInit => {
                    self.mkdirs(&format!("{path}/.git"));
                    self.write(&format!("{path}/.git/HEAD"), b"ref: refs/heads/main\n");
                    Ok(())
                }
                FsOp::GitInitIfAbsent => {
                    if !self.dirs.contains(&format!("{path}/.git")) {
                        self.mkdirs(&format!("{path}/.git"));
                        self.write(&format!("{path}/.git/HEAD"), b"ref: refs/heads/main\n");
                    }
                    Ok(())
                }
                FsOp::HideDir => Ok(()),
            },
        }
    }

    fn text(&self, path: &str) -> Option<String> {
        self.files.get(path).map(|b| String::from_utf8(b.clone()).unwrap())
    }

    fn state_text(&self, root: &RootPath<Normal>) -> String {
        self.text(&root.state_file()).unwrap_or_default()
    }

    fn state(&self, root: &RootPath<Normal>) -> VaultState {
        let mut handle = StateFileHandle::new(root.path(), &self.state_text(root));
        handle.get_state().unwrap()
    }

    /// Everything outside the metadata directory, as paths relative to the root.
    fn user_tree(&self, root: &RootPath<Normal>) -> BTreeMap<String, Option<Vec<u8>>> {
        let base = root.path().clone();
        let meta = root.metadata_folder();
        let mut out = BTreeMap::new();
        for p in self.below(&base) {
            if p == meta || p.starts_with(&format!("{meta}/")) {
                continue;
            }
            out.insert(p[base.len() + 1..].to_string(), self.files.get(&p).cloned());
        }
        out
    }
}

fn rules_from_toml(text: &str) -> RulesFile {
    let table: toml::Table = text.parse().unwrap();
    let default_policy = table
        .get("settings")
        .and_then(|s| s.get("default_policy"))
        .and_then(|v| v.as_str())
        .map(|s| s.to_string());
    let mut rules = Vec::new();
    if let Some(r) = table.get("rules").and_then(|r| r.as_table()) {
        for (name, list) in r {
            let patterns = list
                .as_array()
                .unwrap()
                .iter()
                .map(|v| v.as_str().unwrap().to_string())
                .collect();
            rules.push((name.clone(), patterns));
        }
    }
    RulesFile { default_policy, rules }
}

fn read_for(disk: &Disk, root: &RootPath<Normal>, need: Need) -> StepInput {
    match need {
        Need::Nothing => StepInput::Nothing,
        Need::WorkingTree => {
            let base = root.path().clone();
            let mut entries = Vec::new();
            for p in disk.below(&base) {
                let rel = &p[base.len() + 1..];
                if rel.split('/').any(|part| !include_in_walk(part)) {
                    continue;
                }
                entries.push(TreeEntry {
                    path: p.clone(),
                    is_dir: disk.dirs.contains(&p),
                    contents: disk.files.get(&p).cloned().unwrap_or_default(),
                });
            }
            StepInput::WorkingTree(WorkingTree {
                root: base,
                gitignore: disk.text(&root.gitignore()),
                config: disk.text(&root.config()).map(|t| rules_from_toml(&t)),
                entries,
            })
        }
        Need::DeletionList => StepInput::DeletionList(disk.text(&root.deletion_shards())),
        Need::VaultBinary => {
            StepInput::VaultBinary(disk.files.get(&root.vault_binary()).cloned().unwrap_or_default())
        }
        Need::LocalVault => StepInput::LocalVault(disk.files.get(&root.secure_local_zip()).cloned()),
        Need::UnsecureNames => {
            let base = root.unsecure_folder();
            if !disk.dirs.contains(&base) {
                StepInput::UnsecureNames(None)
            } else {
                StepInput::UnsecureNames(Some(
                    disk.below(&base).iter().map(|p| p[base.len() + 1..].to_string()).collect(),
                ))
            }
        }
    }
}

fn carry_out(
    disk: &mut Disk,
    root: &RootPath<Normal>,
    ctx: &mut Context,
    plan: RunPlan,
) -> Result<(), VaultError> {
    for effect in &plan.repair {
        disk.apply(root, effect).map_err(|_| VaultError::IoError)?;
    }
    for step in plan.steps {
        let input = read_for(disk, root, step.needs());
        let entered = step.act(root, ctx, input);
        for effect in &entered.effects {
            disk.apply(root, effect).map_err(|_| VaultError::IoError)?;
        }
        entered.outcome?;
    }
    Ok(())
}

fn context(disk: &Disk, root: &RootPath<Normal>, password: &str) -> Context {
    Context::new(root, CachedPassword::from_string(password.to_string()), &disk.state_text(root))
}

fn do_init(disk: &mut Disk, root: &RootPath<Normal>, password: &str) -> Result<(), VaultError> {
    let initialized = disk.dirs.contains(&root.metadata_folder());
    let mut ctx = context(disk, root, password);
    let plan = run_init(root, &mut ctx, initialized)?;
    carry_out(disk, root, &mut ctx, plan)
}

fn do_seal(disk: &mut Disk, root: &RootPath<Normal>, password: &str) -> Result<(), VaultError> {
    let mut ctx = context(disk, root, password);
    let plan = seal_full(root, &mut ctx)?;
    carry_out(disk, root, &mut ctx, plan)
}

fn do_unseal(disk: &mut Disk, root: &RootPath<Normal>, password: &str) -> Result<(), VaultError> {
    let mut ctx = context(disk, root, password);
    let plan = unseal(root, &mut ctx)?;
    carry_out(disk, root, &mut ctx, plan)
}

fn fresh(root: &str) -> (Disk, RootPath<Normal>) {
    let mut disk = Disk::default();
    disk.mkdirs(root);
    (disk, RootPath::new(root))
}

fn sealed_names(disk: &Disk, root: &RootPath<Normal>) -> Vec<String> {
    disk.user_tree(root).keys().filter(|k| !k.starts_with(".git/")).cloned().collect()
}

#[test]
fn init_and_open() {
    let (mut disk, root) = fresh("/v");
    do_init(&mut disk, &root, "hunter2").unwrap();
    assert_eq!(disk.state(&root), VaultState::Sealed);
    do_unseal(&mut disk, &root, "hunter2").unwrap();
    assert_eq!(disk.state(&root), VaultState::Unsealed);

    disk.write("/v/notes.txt", b"secret");
    do_seal(&mut disk, &root, "hunter2").unwrap();
    assert!(disk.files.contains_key("/v/vault.bin"));
    assert!(!disk.has("/v/notes.txt"));
    assert_eq!(disk.state(&root), VaultState::Sealed);

    do_unseal(&mut disk, &root, "hunter2").unwrap();
    assert_eq!(disk.files.get("/v/notes.txt").map(|b| b.as_slice()), Some(&b"secret"[..]));
    assert_eq!(disk.state(&root), VaultState::Unsealed);
    assert!(!disk.has("/v/vault.bin"));
}

#[test]
fn sealed_tree_holds_only_the_sealed_form() {
    let (mut disk, root) = fresh("/v");
    do_init(&mut disk, &root, "pw").unwrap();
    do_unseal(&mut disk, &root, "pw").unwrap();
    disk.write("/v/a.txt", b"a");
    disk.write("/v/dir/b.txt", b"b");
    disk.mkdirs("/v/empty");
    do_seal(&mut disk, &root, "pw").unwrap();
    assert_eq!(
        sealed_names(&disk, &root),
        vec![".git".to_string(), ".gitattributes".to_string(), ".gitignore".to_string(), "vault.bin".to_string()]
    );
    assert_eq!(
        disk.text("/v/.gitignore").unwrap(),
        "# NOVAULT\n# DO NOT MODIFY THIS\n/.nov/unsecure\n/.nov/secure_local\n/.nov/.s3auth\n"
    );
    assert_eq!(
        disk.text("/v/.gitattributes").unwrap(),
        "# NOVAULT\n# DO NOT MODIFY THIS\nvault.bin binary"
    );
    assert!(!disk.has("/v/.nov/.delete"));
    assert!(!disk.has("/v/.nov/inpro.zip"));
    assert!(!disk.has("/v/.nov/wrap"));
}

#[test]
fn seal_then_unseal_is_the_identity() {
    let (mut disk, root) = fresh("/v");
    do_init(&mut disk, &root, "pw").unwrap();
    do_unseal(&mut disk, &root, "pw").unwrap();
    disk.write("/v/a.txt", b"alpha");
    disk.write("/v/deep/er/b.bin", &[0u8, 1, 2, 255, 254]);
    disk.write("/v/zero", b"");
    disk.mkdirs("/v/empty/dir");
    let before = disk.user_tree(&root);
    do_seal(&mut disk, &root, "pw").unwrap();
    assert_ne!(disk.user_tree(&root), before);
    do_unseal(&mut disk, &root, "pw").unwrap();
    assert_eq!(disk.user_tree(&root), before);
}

#[test]
fn wrong_password() {
    let (mut disk, root) = fresh("/v");
    do_init(&mut disk, &root, "hunter2").unwrap();
    let sealed = disk.clone();
    assert_eq!(do_unseal(&mut disk, &root, "wrong"), Err(VaultError::AuthError));
    // Nothing but the record of the step that failed has changed.
    assert_eq!(disk.state(&root), VaultState::DecryptMainVault);
    assert_eq!(disk.user_tree(&root), sealed.user_tree(&root));
    let mut but_state = disk.clone();
    but_state.files.insert("/v/.nov/.state".to_string(), sealed.files["/v/.nov/.state"].clone());
    assert_eq!(but_state, sealed);
    // The next command finds the step on record and falls back to sealed.
    assert_eq!(do_seal(&mut disk, &root, "wrong"), Ok(()));
    assert_eq!(disk.state(&root), VaultState::Sealed);
    assert_eq!(disk, sealed);
    do_unseal(&mut disk, &root, "hunter2").unwrap();
    assert_eq!(disk.state(&root), VaultState::Unsealed);
}

#[test]
fn wrong_password_on_seal_leaves_the_tree_alone() {
    let (mut disk, root) = fresh("/v");
    do_init(&mut disk, &root, "hunter2").unwrap();
    do_unseal(&mut disk, &root, "hunter2").unwrap();
    disk.write("/v/notes.txt", b"secret");
    assert_eq!(do_seal(&mut disk, &root, "wrong"), Err(VaultError::AuthError));
    assert_eq!(disk.state(&root), VaultState::Encrypting);
    assert_eq!(disk.files.get("/v/notes.txt").map(|b| b.as_slice()), Some(&b"secret"[..]));
    assert!(!disk.has("/v/vault.bin"));
    // The repair of the next run brings the vault back to unsealed, and the seal goes through.
    do_seal(&mut disk, &root, "hunter2").unwrap();
    assert_eq!(disk.state(&root), VaultState::Sealed);
    assert!(!disk.has("/v/notes.txt"));
}

#[test]
fn crash_mid_encrypt() {
    let (mut disk, root) = fresh("/v");
    do_init(&mut disk, &root, "pw").unwrap();
    do_unseal(&mut disk, &root, "pw").unwrap();
    disk.write("/v/notes.txt", b"secret");
    let tree = disk.user_tree(&root);

    // The process dies inside Encrypting: the state is on record, and what
    // the step had written so far is lying about.
    let mut handle = StateFileHandle::new("/v", &disk.state_text(&root));
    handle.set_state(VaultState::Encrypting);
    disk.write("/v/.nov/.state", handle.writeback().as_bytes());
    disk.write("/v/.nov/.delete", b"/v/notes.txt\n");
    disk.write("/v/.nov/inpro.zip", b"half");
    disk.write("/v/.nov/secure_local/inpro.bin", b"half");

    // The next command is an unseal: it repairs and then finds nothing to do.
    do_unseal(&mut disk, &root, "pw").unwrap();
    assert_eq!(disk.state(&root), VaultState::Unsealed);
    assert!(!disk.has("/v/.nov/.delete"));
    assert!(!disk.has("/v/.nov/inpro.zip"));
    assert!(!disk.has("/v/.nov/secure_local/inpro.bin"));
    assert_eq!(disk.user_tree(&root), tree);
}

#[test]
fn crash_after_unlink_rolls_the_seal_forward() {
    let (mut disk, root) = fresh("/v");
    do_init(&mut disk, &root, "pw").unwrap();
    do_unseal(&mut disk, &root, "pw").unwrap();
    disk.write("/v/notes.txt", b"secret");

    // Play the seal by hand up to and including UnlinkPostSeal's first commit.
    let mut ctx = context(&disk, &root, "pw");
    let plan = seal_full(&root, &mut ctx).unwrap();
    for step in plan.steps {
        let input = read_for(&disk, &root, step.needs());
        let entered = step.act(&root, &mut ctx, input);
        entered.outcome.unwrap();
        let effects = entered.effects;
        if step == VaultState::UnlinkPostSeal {
            disk.apply(&root, &effects[0]).unwrap();
            break;
        }
        for effect in &effects {
            disk.apply(&root, effect).unwrap();
        }
    }
    assert_eq!(disk.state(&root), VaultState::UnlinkPostSeal);
    assert!(disk.has("/v/notes.txt"));

    // Any command repairs by finishing the seal.
    do_seal(&mut disk, &root, "pw").unwrap();
    assert_eq!(disk.state(&root), VaultState::Sealed);
    assert!(!disk.has("/v/notes.txt"));
    do_unseal(&mut disk, &root, "pw").unwrap();
    assert_eq!(disk.text("/v/notes.txt").unwrap(), "secret");
}

#[test]
fn rule_driven_classification() {
    let (mut disk, root) = fresh("/v");
    do_init(&mut disk, &root, "pw").unwrap();
    do_unseal(&mut disk, &root, "pw").unwrap();
    disk.write(
        "/v/novault.toml",
        b"[settings]\ndefault_policy = \"IgnoreAndEncrypt\"\n\n[rules]\nunsecured = [\"public/**\"]\ndelete = [\"*.tmp\"]\n",
    );
    disk.write("/v/keep.txt", b"keep");
    disk.write("/v/scratch.tmp", b"scratch");
    disk.write("/v/sub/other.tmp", b"scratch too");
    disk.write("/v/public/index.html", b"<html>");
    disk.write("/v/public/img/logo.svg", b"<svg>");

    do_seal(&mut disk, &root, "pw").unwrap();
    assert!(!disk.has("/v/scratch.tmp"));
    assert!(!disk.has("/v/keep.txt"));
    assert!(!disk.has("/v/public/index.html"));
    assert_eq!(disk.text("/v/.nov/unsecure/public/index.html").unwrap(), "<html>");
    assert_eq!(disk.text("/v/.nov/unsecure/public/img/logo.svg").unwrap(), "<svg>");
    assert!(!disk.has("/v/.nov/unsecure/keep.txt"));

    do_unseal(&mut disk, &root, "pw").unwrap();
    assert_eq!(disk.text("/v/keep.txt").unwrap(), "keep");
    assert_eq!(disk.text("/v/public/index.html").unwrap(), "<html>");
    assert_eq!(disk.text("/v/public/img/logo.svg").unwrap(), "<svg>");
    assert!(!disk.has("/v/scratch.tmp"));
    assert!(!disk.has("/v/sub/other.tmp"));
    assert!(!disk.has("/v/.nov/unsecure"));
}

#[test]
fn ignored_files_go_to_the_local_archive() {
    let (mut disk, root) = fresh("/v");
    do_init(&mut disk, &root, "pw").unwrap();
    do_unseal(&mut disk, &root, "pw").unwrap();
    disk.write("/v/.gitignore", b"/.nov\ntarget/\n*.key\n");
    disk.write("/v/src/main.rs", b"fn main() {}");
    disk.write("/v/target/debug/app", b"binary");
    disk.write("/v/machine.key", b"machine secret");
    let before = disk.user_tree(&root);

    do_seal(&mut disk, &root, "pw").unwrap();
    assert!(disk.files.contains_key("/v/.nov/secure_local/inpro.bin"));
    assert!(!disk.has("/v/machine.key"));

    do_unseal(&mut disk, &root, "pw").unwrap();
    assert_eq!(disk.user_tree(&root), before);
    assert!(!disk.has("/v/.nov/secure_local"));
}

#[test]
fn no_local_envelope_without_ignored_files() {
    let (mut disk, root) = fresh("/v");
    do_init(&mut disk, &root, "pw").unwrap();
    do_unseal(&mut disk, &root, "pw").unwrap();
    disk.write("/v/.gitignore", b"/.nov\n");
    disk.write("/v/a.txt", b"a");
    do_seal(&mut disk, &root, "pw").unwrap();
    assert!(!disk.has("/v/.nov/secure_local/inpro.bin"));
}

#[test]
fn a_pulled_snapshot_unseals_to_the_public_files() {
    let (mut disk, root) = fresh("/v");
    do_init(&mut disk, &root, "pw").unwrap();

    // Link to the object store, as the host would once the snapshot is published.
    let mut handle = StateFileHandle::new("/v", &disk.state_text(&root));
    let plan =
        novault::sync::init_remote(&root, &mut handle, "t3://mybucket", "20240101T000000Z").unwrap();
    disk.write("/v/.nov/.state", plan.commit.unwrap().as_bytes());

    do_unseal(&mut disk, &root, "pw").unwrap();
    disk.write("/v/.gitignore", b"/.nov\n*.key\n");
    disk.write("/v/notes.txt", b"secret");
    disk.write("/v/docs/readme.md", b"# hello");
    disk.write("/v/machine.key", b"stays at home");
    do_seal(&mut disk, &root, "pw").unwrap();
    assert!(disk.files.contains_key("/v/.nov/secure_local/inpro.bin"));

    // What a push sends is the state file and the archive, nothing else.
    let mut handle = StateFileHandle::new("/v", &disk.state_text(&root));
    let push = novault::sync::push_remote(&root, &mut handle, "20240202T000000Z").unwrap();
    let mut bucket: BTreeMap<String, Vec<u8>> = BTreeMap::new();
    for op in &push.ops {
        if let novault::sync::RemoteOp::Upload { from, key } = op {
            bucket.insert(key.clone(), disk.files[from].clone());
        }
    }
    assert_eq!(bucket.len(), 2);

    // The other machine pulls into an empty directory and unseals.
    let (mut there, other) = fresh("/w");
    for op in novault::sync::pull_snapshot(&other, "20240202T000000Z", "AK", "SK") {
        match op {
            novault::sync::RemoteOp::Download { key, to } => there.write(&to, &bucket[&key]),
            novault::sync::RemoteOp::WriteLocal { to, text } => there.write(&to, text.as_bytes()),
            _ => panic!("a pull only fetches and writes"),
        }
    }
    assert_eq!(there.text("/w/.nov/.s3auth").unwrap(), "ACCESS_KEY=AK\nSECRET_KEY=SK\n");
    assert_eq!(do_unseal(&mut there, &other, "nope"), Err(VaultError::AuthError));
    assert_eq!(there.state(&other), VaultState::DecryptMainVault);
    do_unseal(&mut there, &other, "pw").unwrap();
    assert_eq!(there.state(&other), VaultState::Unsealed);
    assert_eq!(there.text("/w/notes.txt").unwrap(), "secret");
    assert_eq!(there.text("/w/docs/readme.md").unwrap(), "# hello");
    assert!(!there.has("/w/machine.key"));
    assert!(!there.has("/w/vault.bin"));
}

#[test]
fn sealing_a_sealed_vault_does_nothing() {
    let (mut disk, root) = fresh("/v");
    do_init(&mut disk, &root, "pw").unwrap();
    let sealed = disk.clone();
    do_seal(&mut disk, &root, "anything").unwrap();
    assert_eq!(disk, sealed);
}

#[test]
fn unsealing_an_unsealed_vault_does_nothing() {
    let (mut disk, root) = fresh("/v");
    do_init(&mut disk, &root, "pw").unwrap();
    do_unseal(&mut disk, &root, "pw").unwrap();
    let unsealed = disk.clone();
    do_unseal(&mut disk, &root, "anything").unwrap();
    assert_eq!(disk, unsealed);
}

#[test]
fn init_refuses_an_initialized_directory() {
    let (mut disk, root) = fresh("/v");
    do_init(&mut disk, &root, "pw").unwrap();
    assert_eq!(do_init(&mut disk, &root, "pw"), Err(VaultError::AlreadyInitialized));
}

#[test]
fn every_seal_wraps_the_key_afresh() {
    let (mut disk, root) = fresh("/v");
    do_init(&mut disk, &root, "pw").unwrap();
    let first = StateFileHandle::new("/v", &disk.state_text(&root)).get_wrapped_key().unwrap();
    do_unseal(&mut disk, &root, "pw").unwrap();
    do_seal(&mut disk, &root, "pw").unwrap();
    let second = StateFileHandle::new("/v", &disk.state_text(&root)).get_wrapped_key().unwrap();
    assert_ne!(first.to_hex(), second.to_hex());

    // The key on record opens under the password and decrypts the archive beside it.
    let password = CachedPassword::from_string("pw".to_string());
    let master = second.get_master_key_with_no_rewrap(&password).unwrap();
    let blob = disk.files.get("/v/vault.bin").unwrap().clone();
    assert!(novault::envelope::open_blob(&blob, master.key_bytes()).is_ok());
    let old_master = first.get_master_key_with_no_rewrap(&password).unwrap();
    assert_eq!(old_master.key_bytes(), master.key_bytes());
}
