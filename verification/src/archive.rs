//! The inner archive: a deflate-compressed zip held in memory, which is then
//! sealed into an envelope.
//!
//! The zip format is outside code; what this module believes of it is stated
//! on the `zip_*` functions below.

use vstd::prelude::*;
use std::io::{Cursor, Read, Write};
use zip::{CompressionMethod, DateTime, ZipArchive, ZipWriter};
use zip::write::FileOptions;
use crate::envelope::{is_envelope, seal_blob, sealable};
use crate::error::VaultError;
use crate::text::split_on;

verus! {

/// `std::io::Cursor`, carried through as it is.
#[verifier::external_type_specification]
#[verifier::external_body]
#[verifier::reject_recursive_types(T)]
pub struct ExCursor<T>(std::io::Cursor<T>);

/// A `zip::ZipWriter` over a buffer in memory. The writer is bounded by the
/// I/O traits of the standard library, which the verifier does not take in
/// a declaration, so it is held here, out of the verifier's sight.
#[verifier::external_body]
pub struct ZipSink {
    inner: ZipWriter<Cursor<Vec<u8>>>,
}

/// `zip::ZipArchive`, carried through as it is.
#[verifier::external_type_specification]
#[verifier::external_body]
#[verifier::reject_recursive_types(R)]
pub struct ExZipArchive<R>(zip::ZipArchive<R>);

/// What a zip writer holds, in order: for each entry the name it is
/// stored under, whether it is a directory, its Unix permission bits and
/// its data.
pub uninterp spec fn writer_entries(w: ZipSink) -> Seq<
    (Seq<char>, bool, u32, Seq<u8>),
>;

/// Whether a writer that holds `entries` takes a new file of this name
/// and these permission bits.
pub uninterp spec fn zip_takes_file(
    entries: Seq<(Seq<char>, bool, u32, Seq<u8>)>,
    name: Seq<char>,
    mode: u32,
) -> bool;

/// Whether a writer that holds `entries` takes `data` for its last entry.
pub uninterp spec fn zip_takes_data(
    entries: Seq<(Seq<char>, bool, u32, Seq<u8>)>,
    data: Seq<u8>,
) -> bool;

/// Whether a writer that holds `entries` takes a new directory of this
/// name and these permission bits.
pub uninterp spec fn zip_takes_directory(
    entries: Seq<(Seq<char>, bool, u32, Seq<u8>)>,
    name: Seq<char>,
    mode: u32,
) -> bool;

/// The bytes of the zip archive that holds `entries`, each deflated and
/// stamped with the zip epoch; `None` where the archive cannot be finished.
pub uninterp spec fn zip_image(entries: Seq<(Seq<char>, bool, u32, Seq<u8>)>) -> Option<Seq<u8>>;

/// What a zip archive holds, in order: for each entry its name as the
/// archive records it, whether the name marks a directory, and its data.
/// An entry that cannot be read is `None`.
pub uninterp spec fn archive_entries(a: ZipArchive<Cursor<Vec<u8>>>) -> Seq<
    Option<(Seq<char>, bool, Seq<u8>)>,
>;

/// What the zip archive with the bytes `image` holds; `None` where the bytes
/// are no zip archive.
pub uninterp spec fn zip_contents(image: Seq<u8>) -> Option<Seq<Option<(Seq<char>, bool, Seq<u8>)>>>;

/// Calls `ZipWriter::new` on an empty in-memory buffer. The new writer holds no entry.
#[verifier::external_body]
fn zip_new() -> (w: ZipSink)
    ensures
        writer_entries(w) == Seq::<(Seq<char>, bool, u32, Seq<u8>)>::empty(),
{
    ZipSink { inner: ZipWriter::new(Cursor::new(Vec::new())) }
}

/// Calls `ZipWriter::start_file` with deflate, the given permission bits and
/// the zip epoch as time. The writer comes back only where the call
/// succeeds, and then holds one more entry: a file of that name, still
/// empty. Whether it succeeds depends on what the writer holds, the name
/// and the bits alone.
#[verifier::external_body]
fn zip_start_file(w: ZipSink, name: &str, mode: u32) -> (r: Option<ZipSink>)
    requires
        mode <= 0o777,
    ensures
        r is Some <==> zip_takes_file(writer_entries(w), name@, mode),
        r matches Some(next) ==> writer_entries(next) == writer_entries(w).push(
            (name@, false, mode, Seq::<u8>::empty()),
        ),
{
    let mut w = w;
    let options = FileOptions::<()>::default().compression_method(
        CompressionMethod::Deflated,
    ).unix_permissions(mode).last_modified_time(DateTime::default());
    match w.inner.start_file(name, options) {
        Ok(()) => Some(w),
        Err(_) => None,
    }
}

/// Calls `write_all` on the writer. The writer comes back only where the
/// call succeeds. With data that is not empty, the last entry is then a
/// file and has `data` added at its end; with no data, nothing is written
/// and the writer holds what it held. Whether it succeeds depends on what
/// the writer holds and the data alone.
#[verifier::external_body]
fn zip_write(w: ZipSink, data: &Vec<u8>) -> (r: Option<ZipSink>)
    ensures
        r is Some <==> zip_takes_data(writer_entries(w), data@),
        r matches Some(next) ==> {
            let before = writer_entries(w);
            if data@.len() == 0 {
                writer_entries(next) == before
            } else {
                &&& before.len() > 0
                &&& !before.last().1
                &&& writer_entries(next) == before.drop_last().push(
                    (before.last().0, false, before.last().2, before.last().3 + data@),
                )
            }
        },
{
    let mut w = w;
    match w.inner.write_all(data) {
        Ok(()) => Some(w),
        Err(_) => None,
    }
}

/// The name a directory is stored under: the name itself where it ends in
/// `/` or `\`, and the name with `/` at its end otherwise.
pub open spec fn dir_name(name: Seq<char>) -> Seq<char> {
    if name.len() > 0 && (name.last() == '/' || name.last() == '\\') {
        name
    } else {
        name + seq!['/']
    }
}

/// Calls `ZipWriter::add_directory` with the given permission bits and the
/// zip epoch as time. The writer comes back only where the call succeeds,
/// and then holds one more entry: a directory, stored under the name with
/// a `/` at its end. Whether it succeeds depends on what the writer holds,
/// the name and the bits alone.
#[verifier::external_body]
fn zip_add_directory(w: ZipSink, name: &str, mode: u32) -> (r: Option<ZipSink>)
    requires
        mode <= 0o777,
    ensures
        r is Some <==> zip_takes_directory(writer_entries(w), name@, mode),
        r matches Some(next) ==> writer_entries(next) == writer_entries(w).push(
            (dir_name(name@), true, mode, Seq::<u8>::empty()),
        ),
{
    let mut w = w;
    let options = FileOptions::<()>::default().compression_method(
        CompressionMethod::Deflated,
    ).unix_permissions(mode).last_modified_time(DateTime::default());
    match w.inner.add_directory(name, options) {
        Ok(()) => Some(w),
        Err(_) => None,
    }
}

/// Calls `ZipWriter::finish` and takes the buffer out. Whether it
/// succeeds, and with which bytes, depends on what the writer holds alone.
#[verifier::external_body]
fn zip_finish(w: ZipSink) -> (r: Option<Vec<u8>>)
    ensures
        r is Some <==> zip_image(writer_entries(w)) is Some,
        r matches Some(image) ==> Some(image@) == zip_image(writer_entries(w)),
{
    match w.inner.finish() {
        Ok(cursor) => Some(cursor.into_inner()),
        Err(_) => None,
    }
}

/// Calls `ZipArchive::new` on an in-memory copy of `image`.
#[verifier::external_body]
fn zip_open(image: &Vec<u8>) -> (r: Option<ZipArchive<Cursor<Vec<u8>>>>)
    ensures
        r matches Some(a) ==> zip_contents(image@) == Some(archive_entries(a)),
        r is None ==> zip_contents(image@) is None,
{
    ZipArchive::new(Cursor::new(image.clone())).ok()
}

/// Calls `ZipArchive::len`: the number of entries.
#[verifier::external_body]
fn zip_len(a: &ZipArchive<Cursor<Vec<u8>>>) -> (n: usize)
    ensures
        n == archive_entries(*a).len(),
{
    a.len()
}

/// Whether following the components `parts`, from `depth` levels below the
/// starting directory, ever leads above that directory. An empty component
/// and `.` stay where they are, `..` goes up, anything else goes down.
pub open spec fn climbs(parts: Seq<Seq<char>>, depth: int) -> bool
    decreases parts.len(),
{
    if parts.len() == 0 {
        false
    } else if parts[0] == ".."@ {
        depth <= 0 || climbs(parts.skip(1), depth - 1)
    } else if parts[0].len() == 0 || parts[0] == "."@ {
        climbs(parts.skip(1), depth)
    } else {
        climbs(parts.skip(1), depth + 1)
    }
}

/// Whether a name, read as components parted by `/`, stays inside the
/// directory it is unpacked into: it holds no NUL, is not absolute, and
/// never leads above the directory.
pub open spec fn enclosed(name: Seq<char>) -> bool {
    &&& !name.contains('\0')
    &&& !(name.len() > 0 && name[0] == '/')
    &&& !climbs(split_on(name, '/'), 0)
}

/// Whether every platform reads the name alike: it holds neither `\`, which
/// parts components on some platforms and not on others, nor `:`, which
/// ends a drive's name on some.
pub open spec fn portable_name(name: Seq<char>) -> bool {
    !name.contains('\\') && !name.contains(':')
}

/// Whether the entry's flag is a judgement of its name. The archive reader
/// judges a name by the platform's path syntax; of a name that every
/// platform reads alike, the judgement is `enclosed`.
pub open spec fn judged(name: Seq<char>, safe: bool) -> bool {
    portable_name(name) ==> safe == enclosed(name)
}

/// Calls `ZipArchive::by_index` and reads the entry: `name`, `is_dir`,
/// whether `enclosed_name` gives a path, and the data through
/// `read_to_end`. The archive holds afterwards what it held.
///
/// `enclosed_name` gives a path unless the name holds a NUL, is absolute,
/// or leads above the directory it starts in; it reads the name's
/// components as the platform does, so the contract speaks of the names that
/// every platform reads alike.
#[verifier::external_body]
fn zip_entry(a: &mut ZipArchive<Cursor<Vec<u8>>>, index: usize) -> (r: Option<ArchiveEntry>)
    requires
        index < archive_entries(*old(a)).len(),
    ensures
        archive_entries(*final(a)) == archive_entries(*old(a)),
        r matches Some(e) ==> archive_entries(*old(a))[index as int] == Some(e@),
        r matches Some(e) ==> judged(e.name@, e.safe_name),
        r is None ==> archive_entries(*old(a))[index as int] is None,
{
    let mut file = a.by_index(index).ok()?;
    let name = file.name().to_string();
    let safe_name = file.enclosed_name().is_some();
    let is_dir = file.is_dir();
    let mut data = Vec::new();
    file.read_to_end(&mut data).ok()?;
    Some(ArchiveEntry { name, is_dir, data, safe_name })
}

/// One entry as it comes out of an archive.
#[derive(Clone, Debug, PartialEq, Eq)]
pub struct ArchiveEntry {
    /// The entry's name as the archive records it.
    pub name: String,
    pub is_dir: bool,
    pub data: Vec<u8>,
    /// Whether the archive reader found the name safe to unpack below a
    /// directory.
    pub safe_name: bool,
}

impl View for ArchiveEntry {
    type V = (Seq<char>, bool, Seq<u8>);

    open spec fn view(&self) -> (Seq<char>, bool, Seq<u8>) {
        (self.name@, self.is_dir, self.data@)
    }
}

/// The permission bits every entry is written with.
pub const ENTRY_MODE: u32 = 0o755;

/// Collects the entries of one archive in memory and seals them into an
/// envelope when it is finished.
pub struct VaultWriter {
    file: Option<ZipSink>,
    path: String,
    key: [u8; 32],
}

impl VaultWriter {
    /// Whether the writer still takes entries.
    pub closed spec fn open(&self) -> bool {
        self.file is Some
    }

    /// What was written so far.
    pub closed spec fn entries(&self) -> Seq<(Seq<char>, bool, u32, Seq<u8>)> {
        writer_entries(self.file->0)
    }

    /// Where the envelope is to be stored.
    pub closed spec fn target(&self) -> Seq<char> {
        self.path@
    }

    pub closed spec fn key(&self) -> Seq<u8> {
        self.key@
    }

    /// Whether a writer that holds `entries` takes one more entry under
    /// `name`: a file with `contents`, or a directory where there are none.
    pub open spec fn takes(
        entries: Seq<(Seq<char>, bool, u32, Seq<u8>)>,
        name: Seq<char>,
        contents: Option<Seq<u8>>,
    ) -> bool {
        match contents {
            Some(data) => zip_takes_file(entries, name, ENTRY_MODE) && zip_takes_data(
                entries.push((name, false, ENTRY_MODE, Seq::<u8>::empty())),
                data,
            ),
            None => zip_takes_directory(entries, name, ENTRY_MODE),
        }
    }

    /// Whether the archive of `entries` can be finished and sealed.
    pub open spec fn seals(entries: Seq<(Seq<char>, bool, u32, Seq<u8>)>) -> bool {
        zip_image(entries) is Some && sealable(zip_image(entries)->0.len())
    }

    /// A writer for the envelope at `target`, sealed under `key`.
    pub fn new(target: &str, key: &[u8; 32]) -> (r: VaultWriter)
        ensures
            r.open(),
            r.entries().len() == 0,
            r.target() == target@,
            r.key() == key@,
    {
        VaultWriter { file: Some(zip_new()), path: target.to_owned(), key: *key }
    }

    /// Adds one entry under `name`: a file with `contents`, or a directory
    /// where `contents` is `None`. A writer that is finished, or an entry
    /// that the archive refuses, is an I/O failure, after which the writer
    /// takes nothing more.
    pub fn write_path(&mut self, name: &str, contents: Option<&Vec<u8>>) -> (r: Result<
        (),
        VaultError,
    >)
        ensures
            final(self).target() == old(self).target(),
            final(self).key() == old(self).key(),
            r is Ok <==> old(self).open() && Self::takes(
                old(self).entries(),
                name@,
                match contents {
                    Some(data) => Some(data@),
                    None => None,
                },
            ),
            r is Err ==> !final(self).open(),
            r is Ok ==> final(self).open() && final(self).entries() == old(self).entries().push(
                match contents {
                    Some(data) => (name@, false, ENTRY_MODE, data@),
                    None => (dir_name(name@), true, ENTRY_MODE, Seq::<u8>::empty()),
                },
            ),
            r matches Err(e) ==> e == VaultError::IoError,
    {
        match self.file.take() {
            None => Err(VaultError::IoError),
            Some(w) => {
                let ghost before = writer_entries(w);
                let next = match contents {
                    Some(data) => match zip_start_file(w, name, ENTRY_MODE) {
                        Some(started) => {
                            proof {
                                let s = before.push((name@, false, ENTRY_MODE, Seq::<u8>::empty()));
                                assert(s.drop_last() =~= before);
                                assert(Seq::<u8>::empty() + data@ =~= data@);
                            }
                            zip_write(started, data)
                        },
                        None => None,
                    },
                    None => zip_add_directory(w, name, ENTRY_MODE),
                };
                match next {
                    Some(w) => {
                        self.file = Some(w);
                        Ok(())
                    },
                    None => Err(VaultError::IoError),
                }
            },
        }
    }

    /// Closes the archive and seals it. The result is the envelope to store
    /// at `target`; the writer takes no entries afterwards. A writer that
    /// is finished already, an archive that cannot be finished, or one too
    /// long for the cipher, is an I/O failure.
    pub fn finish(&mut self) -> (r: Result<Vec<u8>, VaultError>)
        ensures
            final(self).target() == old(self).target(),
            final(self).key() == old(self).key(),
            !final(self).open(),
            r is Ok <==> old(self).open() && Self::seals(old(self).entries()),
            r matches Ok(blob) ==> is_envelope(
                blob@,
                old(self).key(),
                zip_image(old(self).entries())->0,
            ),
            r matches Err(e) ==> e == VaultError::IoError,
    {
        match self.file.take() {
            None => Err(VaultError::IoError),
            Some(w) => match zip_finish(w) {
                None => Err(VaultError::IoError),
                Some(image) => seal_blob(&image, &self.key),
            },
        }
    }
}

/// Reads every entry out of the archive `image`. Bytes that are no zip
/// archive, or an entry that cannot be read, are an integrity failure.
pub fn read_archive(image: &Vec<u8>) -> (r: Result<Vec<ArchiveEntry>, VaultError>)
    ensures
        r matches Ok(entries) ==> {
            &&& zip_contents(image@) is Some
            &&& entries@.len() == zip_contents(image@)->0.len()
            &&& forall|i: int|
                0 <= i < entries@.len() ==> zip_contents(image@)->0[i] == Some(
                    (#[trigger] entries@[i])@,
                )
            &&& forall|i: int|
                0 <= i < entries@.len() ==> judged(
                    (#[trigger] entries@[i]).name@,
                    entries@[i].safe_name,
                )
        },
        r matches Err(e) ==> e == VaultError::IntegrityError && (zip_contents(image@) is None
            || exists|i: int|
            0 <= i < zip_contents(image@)->0.len() && (#[trigger] zip_contents(image@)->0[i])
                is None),
{
    match zip_open(image) {
        None => Err(VaultError::IntegrityError),
        Some(mut a) => {
            let ghost all = archive_entries(a);
            let n = zip_len(&a);
            let mut entries: Vec<ArchiveEntry> = Vec::new();
            let mut i: usize = 0;
            while i < n
                invariant
                    i <= n,
                    n == all.len(),
                    archive_entries(a) == all,
                    zip_contents(image@) == Some(all),
                    entries@.len() == i,
                    forall|k: int| 0 <= k < i ==> all[k] == Some((#[trigger] entries@[k])@),
                    forall|k: int|
                        0 <= k < i ==> judged((#[trigger] entries@[k]).name@, entries@[k].safe_name),
                decreases n - i,
            {
                match zip_entry(&mut a, i) {
                    None => {
                        assert(zip_contents(image@)->0[i as int] is None);
                        return Err(VaultError::IntegrityError);
                    },
                    Some(e) => {
                        entries.push(e);
                    },
                }
                i += 1;
            }
            Ok(entries)
        },
    }
}

} // verus!
