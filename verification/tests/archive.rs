use std::io::{Cursor, Read, Write};

use novault::archive::{read_archive, ArchiveEntry, VaultWriter};
use novault::effects::{Effect, FsOp};
use novault::envelope::open_blob;
use novault::error::VaultError;
use novault::filter::{FilterDecision, NovFilter};
use novault::paths::{Normal, RootPath};
use novault::sealing::{classify_tree, include_in_walk, plan_sealing, SortedEntry, TreeEntry};
use novault::unsealing::{expand_decrypted_bin, expansion_plan};

const KEY: [u8; 32] = [9u8; 32];

fn root() -> RootPath<Normal> {
    RootPath::new("/v")
}

fn image_of(entries: &[(&str, Option<&[u8]>)]) -> Vec<u8> {
    let mut writer = VaultWriter::new("/v/.nov/inpro.zip", &KEY);
    for (name, contents) in entries {
        let data = contents.map(|c| c.to_vec());
        writer.write_path(name, data.as_ref()).unwrap();
    }
    open_blob(&writer.finish().unwrap(), &KEY).unwrap()
}

fn entry(name: &str, is_dir: bool, data: &[u8]) -> ArchiveEntry {
    ArchiveEntry { name: name.to_string(), is_dir, data: data.to_vec(), safe_name: true }
}

/// What the reader finds of an archive's one entry, of this name.
fn found_safe(name: &str) -> bool {
    let mut zip = zip::ZipWriter::new(Cursor::new(Vec::new()));
    zip.start_file(name, zip::write::SimpleFileOptions::default()).unwrap();
    let image = zip.finish().unwrap().into_inner();
    let entries = read_archive(&image).unwrap();
    assert_eq!(entries.len(), 1);
    assert_eq!(entries[0].name, name);
    entries[0].safe_name
}

#[test]
fn the_archive_is_a_deflated_zip() {
    let big = vec![b'a'; 10_000];
    let image = image_of(&[("notes.txt", Some(b"secret")), ("dir", None), ("dir/big.txt", Some(&big))]);
    assert!(image.len() < 2_000);

    let mut zip = zip::ZipArchive::new(Cursor::new(image)).unwrap();
    assert_eq!(zip.len(), 3);
    {
        let mut file = zip.by_index(0).unwrap();
        assert_eq!(file.name(), "notes.txt");
        assert!(file.is_file());
        assert_eq!(file.compression(), zip::CompressionMethod::Deflated);
        assert_eq!(file.unix_mode().map(|m| m & 0o777), Some(0o755));
        let stamp = file.last_modified().unwrap();
        assert_eq!((stamp.year(), stamp.month(), stamp.day()), (1980, 1, 1));
        let mut text = String::new();
        file.read_to_string(&mut text).unwrap();
        assert_eq!(text, "secret");
    }
    {
        let dir = zip.by_index(1).unwrap();
        assert_eq!(dir.name(), "dir/");
        assert!(dir.is_dir());
        assert_eq!(dir.unix_mode().map(|m| m & 0o777), Some(0o755));
    }
    let mut file = zip.by_index(2).unwrap();
    let mut data = Vec::new();
    file.read_to_end(&mut data).unwrap();
    assert_eq!(data, big);
}

#[test]
fn the_same_entries_give_the_same_archive() {
    let a = image_of(&[("a.txt", Some(b"alpha")), ("d", None)]);
    let b = image_of(&[("a.txt", Some(b"alpha")), ("d", None)]);
    assert_eq!(a, b);
    let c = image_of(&[("a.txt", Some(b"alphb")), ("d", None)]);
    assert_ne!(a, c);
}

#[test]
fn archive_entries_are_read_back() {
    let image = image_of(&[
        ("a.txt", Some(b"alpha")),
        ("empty", Some(b"")),
        ("dir", None),
        ("dir/sub/b.bin", Some(&[0, 255, 1])),
    ]);
    assert_eq!(
        read_archive(&image),
        Ok(vec![
            entry("a.txt", false, b"alpha"),
            entry("empty", false, b""),
            entry("dir/", true, b""),
            entry("dir/sub/b.bin", false, &[0, 255, 1]),
        ])
    );
}

#[test]
fn an_empty_archive_holds_nothing() {
    assert_eq!(read_archive(&image_of(&[])), Ok(Vec::new()));
}

#[test]
fn bytes_that_are_no_archive_are_an_integrity_failure() {
    assert_eq!(read_archive(&b"not a zip".to_vec()), Err(VaultError::IntegrityError));
    assert_eq!(read_archive(&Vec::new()), Err(VaultError::IntegrityError));
    assert_eq!(expand_decrypted_bin(&root(), &b"PK".to_vec()), Err(VaultError::IntegrityError));
}

#[test]
fn a_damaged_entry_is_an_integrity_failure() {
    let mut image = image_of(&[("a.txt", Some(&[b'x'; 4000]))]);
    // Damage the deflated data, which follows the local header and the name.
    image[30 + 5 + 8] ^= 0xff;
    assert_eq!(read_archive(&image), Err(VaultError::IntegrityError));
}

#[test]
fn a_finished_writer_takes_nothing_more() {
    let mut writer = VaultWriter::new("/v/x", &KEY);
    writer.write_path("a", Some(&b"a".to_vec())).unwrap();
    assert!(writer.finish().is_ok());
    assert_eq!(writer.finish(), Err(VaultError::IoError));
    assert_eq!(writer.write_path("b", None), Err(VaultError::IoError));
}

#[test]
fn a_name_that_occurs_again_is_refused() {
    let mut writer = VaultWriter::new("/v/x", &KEY);
    writer.write_path("a", Some(&b"1".to_vec())).unwrap();
    assert_eq!(writer.write_path("a", Some(&b"2".to_vec())), Err(VaultError::IoError));
}

#[test]
fn unpacking_writes_files_and_creates_directories() {
    let image = image_of(&[("dir", None), ("dir/a.txt", Some(b"alpha")), ("b", Some(b""))]);
    assert_eq!(
        expand_decrypted_bin(&root(), &image),
        Ok(vec![
            Effect::Apply { op: FsOp::CreateDirAll, path: "/v/dir/".to_string() },
            Effect::Write { path: "/v/dir/a.txt".to_string(), contents: b"alpha".to_vec(), if_absent: false },
            Effect::Write { path: "/v/b".to_string(), contents: Vec::new(), if_absent: false },
        ])
    );
}

#[test]
fn a_name_that_leaves_the_root_is_passed_over() {
    let mut zip = zip::ZipWriter::new(Cursor::new(Vec::new()));
    let options = zip::write::SimpleFileOptions::default();
    zip.start_file("../evil.txt", options).unwrap();
    zip.write_all(b"evil").unwrap();
    zip.start_file("/etc/passwd", options).unwrap();
    zip.write_all(b"root").unwrap();
    zip.start_file("good/../fine.txt", options).unwrap();
    zip.write_all(b"fine").unwrap();
    let image = zip.finish().unwrap().into_inner();

    let entries = read_archive(&image).unwrap();
    assert_eq!(entries.len(), 3);
    assert_eq!(entries[0].name, "../evil.txt");
    assert_eq!(entries[1].name, "/etc/passwd");
    assert_eq!(entries[2].name, "good/../fine.txt");
    assert_eq!(
        entries.iter().map(|e| e.safe_name).collect::<Vec<_>>(),
        vec![false, false, true]
    );
    assert_eq!(
        expand_decrypted_bin(&root(), &image),
        Ok(vec![Effect::Write {
            path: "/v/good/../fine.txt".to_string(),
            contents: b"fine".to_vec(),
            if_absent: false
        }])
    );
    let mut unsafe_entry = entry("a/../../b", false, &[1]);
    unsafe_entry.safe_name = false;
    assert_eq!(expansion_plan(&root(), &vec![unsafe_entry, entry("c", true, &[])]), vec![
        Effect::Apply { op: FsOp::CreateDirAll, path: "/v/c".to_string() }
    ]);
}

#[test]
fn names_that_stay_inside() {
    for name in ["a", "a/b", "dir/", "a/../b", "./a", "a/./b", "a//b", "a/b/../../c", ".", "..a", "a.."] {
        assert!(found_safe(name), "{name}");
    }
}

#[test]
fn names_that_leave() {
    for name in ["..", "../a", "a/../..", "a/../../b", "/a", "/", "./../a", "a/b/../../../c", "//a", "x/../../y"] {
        assert!(!found_safe(name), "{name}");
    }
}

#[test]
fn the_walk_leaves_the_metadata_out() {
    assert!(!include_in_walk(".nov"));
    assert!(include_in_walk(".novault"));
    assert!(include_in_walk(".git"));
    assert!(include_in_walk("nov"));
}

fn tree_entry(path: &str, is_dir: bool, contents: &[u8]) -> TreeEntry {
    TreeEntry { path: path.to_string(), is_dir, contents: contents.to_vec() }
}

#[test]
fn the_tree_is_sorted_by_the_classifier() {
    let filter = NovFilter::from_root("/v", Some("*.log\n"), None).unwrap();
    let sorted = classify_tree(
        &filter,
        vec![tree_entry("/v/dir", true, b""), tree_entry("/v/dir/a.txt", false, b"a"), tree_entry("/v/x.log", false, b"l")],
    )
    .unwrap();
    assert_eq!(sorted.len(), 3);
    assert_eq!(sorted[0].name, "dir");
    assert_eq!(sorted[0].decision, FilterDecision::Encrypt);
    assert_eq!(sorted[1].name, "dir/a.txt");
    assert_eq!(sorted[1].path, "/v/dir/a.txt");
    assert_eq!(sorted[1].contents, b"a");
    assert_eq!(sorted[2].decision, FilterDecision::IgnoreAndEncrypt);
    assert_eq!(
        classify_tree(&filter, vec![tree_entry("/w/a", false, b"")]),
        Err(VaultError::IoError)
    );
    assert_eq!(classify_tree(&filter, Vec::new()), Ok(Vec::new()));
}

fn sorted(name: &str, is_dir: bool, contents: &[u8], decision: FilterDecision) -> SortedEntry {
    SortedEntry {
        name: name.to_string(),
        path: format!("/v/{name}"),
        is_dir,
        contents: contents.to_vec(),
        decision,
    }
}

#[test]
fn sealing_writes_copies_list_and_envelopes() {
    let entries = vec![
        sorted("pub", true, b"", FilterDecision::Unsecure),
        sorted("pub/index.html", false, b"<html>", FilterDecision::Unsecure),
        sorted("notes.txt", false, b"secret", FilterDecision::Encrypt),
        sorted("scratch.tmp", false, b"tmp", FilterDecision::Delete),
        sorted("machine.key", false, b"key", FilterDecision::IgnoreAndEncrypt),
    ];
    let plan = plan_sealing(&root(), &entries, &KEY).unwrap();
    assert_eq!(plan.len(), 5);
    assert_eq!(plan[0], Effect::Apply { op: FsOp::CreateDirAll, path: "/v/.nov/unsecure/pub".to_string() });
    assert_eq!(
        plan[1],
        Effect::Write { path: "/v/.nov/unsecure/pub/index.html".to_string(), contents: b"<html>".to_vec(), if_absent: false }
    );
    assert_eq!(
        plan[2],
        Effect::Write {
            path: "/v/.nov/.delete".to_string(),
            contents: b"/v/pub\n/v/pub/index.html\n/v/notes.txt\n/v/scratch.tmp\n/v/machine.key\n".to_vec(),
            if_absent: false
        }
    );
    let public = match &plan[3] {
        Effect::Write { path, contents, if_absent: false } if path == "/v/.nov/inpro.zip" => contents,
        _ => panic!("the public envelope is expected"),
    };
    assert_eq!(
        read_archive(&open_blob(public, &KEY).unwrap()),
        Ok(vec![entry("notes.txt", false, b"secret")])
    );
    let local = match &plan[4] {
        Effect::Write { path, contents, if_absent: false } if path == "/v/.nov/secure_local/inpro.bin" => contents,
        _ => panic!("the local envelope is expected"),
    };
    assert_eq!(
        read_archive(&open_blob(local, &KEY).unwrap()),
        Ok(vec![entry("machine.key", false, b"key")])
    );
}

#[test]
fn sealing_nothing_still_writes_list_and_public_envelope() {
    let plan = plan_sealing(&root(), &Vec::new(), &KEY).unwrap();
    assert_eq!(plan.len(), 2);
    assert_eq!(
        plan[0],
        Effect::Write { path: "/v/.nov/.delete".to_string(), contents: Vec::new(), if_absent: false }
    );
    assert!(matches!(&plan[1], Effect::Write { path, .. } if path == "/v/.nov/inpro.zip"));
}
