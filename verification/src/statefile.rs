//! The state file: a flat list of `key=value` lines that records where a vault
//! stands. The handle is the in-memory copy; the host reads the file, hands the
//! text in, and replaces the file atomically with what `writeback` returns.

use vstd::prelude::*;
use crate::error::VaultError;
use crate::hex::{hex_digit, hex_of};
use crate::keys::{
    lemma_wrapped_hex_roundtrip, lemma_wrapped_key_is_shaped, wrapped_bytes, wrapped_of_hex,
    WrappedKey, WrappedKeyView,
};
use crate::states::VaultState;
use crate::text::{
    chars_of, collect_text, find_char, first_at, is_space, lemma_first_at_is, lemma_split_prepend,
    lemma_trim_nothing, same_text, split_on, split_text, texts, trim, trim_text,
};

verus! {

/// The lines of a state file as a model: keys with their values, in file order.
pub type Entries = Seq<(Seq<char>, Seq<char>)>;

/// The index of the first entry at or after `from` whose key is `key`;
/// `e.len()` where there is none.
pub open spec fn key_at(e: Entries, from: int, key: Seq<char>) -> int
    decreases e.len() - from,
{
    if from < 0 || from >= e.len() {
        e.len() as int
    } else if e[from].0 == key {
        from
    } else {
        key_at(e, from + 1, key)
    }
}

/// `key_at` finds the first entry at or after `from` that has the key.
pub proof fn lemma_key_at(e: Entries, from: int, key: Seq<char>)
    requires
        0 <= from <= e.len(),
    ensures
        from <= key_at(e, from, key) <= e.len(),
        key_at(e, from, key) < e.len() ==> e[key_at(e, from, key)].0 == key,
        forall|k: int| from <= k < key_at(e, from, key) ==> e[k].0 != key,
    decreases e.len() - from,
{
    if from < e.len() && e[from].0 != key {
        lemma_key_at(e, from + 1, key);
    }
}

/// Where `i` is the first index at or after `from` whose entry has the key, `key_at` is `i`.
pub proof fn lemma_key_at_is(e: Entries, from: int, key: Seq<char>, i: int)
    requires
        0 <= from <= i <= e.len(),
        i < e.len() ==> e[i].0 == key,
        forall|k: int| from <= k < i ==> e[k].0 != key,
    ensures
        key_at(e, from, key) == i,
    decreases i - from,
{
    if from < i {
        lemma_key_at_is(e, from + 1, key, i);
    }
}

/// The value recorded under `key`.
pub open spec fn lookup(e: Entries, key: Seq<char>) -> Option<Seq<char>> {
    let i = key_at(e, 0, key);
    if i < e.len() {
        Some(e[i].1)
    } else {
        None
    }
}

/// `e` with `value` recorded under `key`: in the place of the old value where
/// the key was present, at the end where it was not.
pub open spec fn upsert(e: Entries, key: Seq<char>, value: Seq<char>) -> Entries {
    let i = key_at(e, 0, key);
    if i < e.len() {
        e.update(i, (key, value))
    } else {
        e.push((key, value))
    }
}

/// After `upsert`, `key` holds the new value and every other key holds what it held.
pub proof fn lemma_lookup_upsert(e: Entries, key: Seq<char>, value: Seq<char>, other: Seq<char>)
    ensures
        lookup(upsert(e, key, value), other) == if other == key {
            Some(value)
        } else {
            lookup(e, other)
        },
{
    let i = key_at(e, 0, key);
    let j = key_at(e, 0, other);
    let n = upsert(e, key, value);
    lemma_key_at(e, 0, key);
    lemma_key_at(e, 0, other);
    if other == key {
        lemma_key_at_is(n, 0, other, i);
    } else {
        lemma_key_at_is(n, 0, other, if j < e.len() { j } else { n.len() as int });
    }
}

/// What a line of the file records: nothing for a blank line or a line
/// without `=`; otherwise the text before the first `=` as key and all that
/// follows it as value.
pub open spec fn entry_of_line(line: Seq<char>) -> Option<(Seq<char>, Seq<char>)> {
    let t = trim(line);
    let at = first_at(t, 0, '=');
    if at >= t.len() {
        None
    } else {
        Some((t.subrange(0, at), t.skip(at + 1)))
    }
}

/// `e` after the lines `lines` were read in order.
pub open spec fn parse_lines(e: Entries, lines: Seq<Seq<char>>) -> Entries
    decreases lines.len(),
{
    if lines.len() == 0 {
        e
    } else {
        let next = match entry_of_line(lines[0]) {
            Some((k, v)) => upsert(e, k, v),
            None => e,
        };
        parse_lines(next, lines.skip(1))
    }
}

/// What a state file with the contents `text` records.
pub open spec fn parse_state(text: Seq<char>) -> Entries {
    parse_lines(Seq::empty(), split_on(text, '\n'))
}

/// The contents of a state file that records `e`: one `key=value` line for each entry.
pub open spec fn render(e: Entries) -> Seq<char>
    decreases e.len(),
{
    if e.len() == 0 {
        Seq::empty()
    } else {
        e[0].0 + seq!['='] + e[0].1 + seq!['\n'] + render(e.skip(1))
    }
}

/// The entries of `v` as a model.
pub open spec fn entries_of(v: Seq<(String, String)>) -> Entries {
    Seq::new(v.len(), |i: int| (v[i].0@, v[i].1@))
}

/// Reads the `key=value` lines of `text`. A key that occurs again replaces
/// the value it had.
pub fn read_hashmap(text: &str) -> (state: Vec<(String, String)>)
    ensures
        entries_of(state@) == parse_state(text@),
{
    let lines = split_text(text, '\n');
    let mut state: Vec<(String, String)> = Vec::new();
    let mut i: usize = 0;
    assert(texts(lines@).skip(0) == texts(lines@));
    assert(entries_of(state@) == Seq::<(Seq<char>, Seq<char>)>::empty());
    while i < lines.len()
        invariant
            i <= lines.len(),
            texts(lines@) == split_on(text@, '\n'),
            parse_lines(entries_of(state@), texts(lines@).skip(i as int)) == parse_state(text@),
        decreases lines.len() - i,
    {
        let ghost rest = texts(lines@).skip(i as int);
        assert(rest.len() > 0 && rest[0] == lines@[i as int]@);
        assert(rest.skip(1) == texts(lines@).skip(i + 1));
        let t = trim_text(lines[i].as_str());
        let cs = chars_of(t.as_str());
        let at = find_char(&cs, 0, '=');
        if at < cs.len() {
            let key = collect_text(&cs, 0, at);
            let value = collect_text(&cs, at + 1, cs.len());
            assert(cs@.subrange(at + 1, cs@.len() as int) == cs@.skip(at + 1));
            put(&mut state, key.as_str(), value);
        }
        i += 1;
    }
    assert(texts(lines@).skip(i as int).len() == 0);
    state
}

/// Records `value` under `key`, in place where the key is present.
pub fn put(state: &mut Vec<(String, String)>, key: &str, value: String)
    ensures
        entries_of(final(state)@) == upsert(entries_of(old(state)@), key@, value@),
{
    let ghost before = entries_of(state@);
    let mut i: usize = 0;
    while i < state.len() && !same_text(state[i].0.as_str(), key)
        invariant
            i <= state.len(),
            state@ == old(state)@,
            forall|k: int| 0 <= k < i ==> before[k].0 != key@,
            before == entries_of(state@),
        decreases state.len() - i,
    {
        i += 1;
    }
    proof {
        lemma_key_at_is(before, 0, key@, i as int);
    }
    if i < state.len() {
        state.set(i, (key.to_owned(), value));
        assert(entries_of(state@) =~= before.update(i as int, (key@, value@)));
    } else {
        state.push((key.to_owned(), value));
        assert(entries_of(state@) =~= before.push((key@, value@)));
    }
}

/// The value recorded under `key`, if any.
pub fn find<'a>(state: &'a Vec<(String, String)>, key: &str) -> (r: Option<&'a String>)
    ensures
        r matches Some(v) ==> lookup(entries_of(state@), key@) == Some(v@),
        r is None ==> lookup(entries_of(state@), key@) is None,
{
    let ghost e = entries_of(state@);
    let mut i: usize = 0;
    while i < state.len() && !same_text(state[i].0.as_str(), key)
        invariant
            i <= state.len(),
            forall|k: int| 0 <= k < i ==> e[k].0 != key@,
            e == entries_of(state@),
        decreases state.len() - i,
    {
        i += 1;
    }
    proof {
        lemma_key_at_is(e, 0, key@, i as int);
    }
    if i < state.len() {
        Some(&state[i].1)
    } else {
        None
    }
}

/// Writes one `key=value` line for each entry.
pub fn render_state(state: &Vec<(String, String)>) -> (out: String)
    ensures
        out@ == render(entries_of(state@)),
{
    let ghost e = entries_of(state@);
    let mut out = String::new();
    let mut i: usize = 0;
    assert(e.skip(0) == e);
    while i < state.len()
        invariant
            i <= state.len(),
            e == entries_of(state@),
            out@ + render(e.skip(i as int)) == render(e),
        decreases state.len() - i,
    {
        let ghost rest = e.skip(i as int);
        let ghost prev = out@;
        assert(rest[0] == e[i as int]);
        assert(rest.skip(1) == e.skip(i + 1));
        proof {
            reveal_strlit("=");
            reveal_strlit("\n");
        }
        out.append(state[i].0.as_str());
        out.append("=");
        out.append(state[i].1.as_str());
        out.append("\n");
        assert("="@ == seq!['=']);
        assert("\n"@ == seq!['\n']);
        assert(out@ == prev + (e[i as int].0 + seq!['='] + e[i as int].1 + seq!['\n']));
        assert(out@ + render(e.skip(i + 1)) == prev + render(rest));
        i += 1;
    }
    assert(render(e.skip(i as int)) == Seq::<char>::empty());
    assert(out@ + Seq::<char>::empty() == out@);
    out
}

/// How a vault is synchronised with its remote.
#[derive(Clone, Copy, Debug, PartialEq, Eq, Structural)]
pub enum SyncMethod {
    Git,
    TigrisS3,
}

impl SyncMethod {
    /// The name under which the backend is written to the state file.
    pub open spec fn name(self) -> Seq<char> {
        match self {
            SyncMethod::Git => "Git"@,
            SyncMethod::TigrisS3 => "TigrisS3"@,
        }
    }

    pub fn as_str(&self) -> (r: &'static str)
        ensures
            r@ == self.name(),
    {
        match self {
            SyncMethod::Git => "Git",
            SyncMethod::TigrisS3 => "TigrisS3",
        }
    }

    /// The backend that `s` names, if it names one.
    pub open spec fn named(s: Seq<char>) -> Option<SyncMethod> {
        if s == "Git"@ {
            Some(SyncMethod::Git)
        } else if s == "TigrisS3"@ {
            Some(SyncMethod::TigrisS3)
        } else {
            None
        }
    }

    /// Reads a backend back from its name; any other text is a corrupt state file.
    pub fn from_str(s: &str) -> (r: Result<SyncMethod, VaultError>)
        ensures
            r matches Ok(m) ==> Self::named(s@) == Some(m),
            r matches Err(e) ==> e == VaultError::StateCorruption && Self::named(s@) is None,
    {
        if same_text(s, "Git") {
            Ok(SyncMethod::Git)
        } else if same_text(s, "TigrisS3") {
            Ok(SyncMethod::TigrisS3)
        } else {
            Err(VaultError::StateCorruption)
        }
    }
}

/// A backend is found again from its name.
pub proof fn lemma_backend_names(m: SyncMethod)
    ensures
        SyncMethod::named(m.name()) == Some(m),
{
    reveal_strlit("Git");
    reveal_strlit("TigrisS3");
    assert("Git"@.len() != "TigrisS3"@.len());
}

/// The key that holds the state's name.
pub open spec fn key_state() -> Seq<char> {
    "state"@
}

/// The key that says whether initialisation is still under way.
pub open spec fn key_init() -> Seq<char> {
    "init"@
}

/// The key that holds the wrapped master key, in hexadecimal.
pub open spec fn key_wrapped() -> Seq<char> {
    "wrapped"@
}

/// The key that holds the remote: a git URL or a bucket name.
pub open spec fn key_remote() -> Seq<char> {
    "remote"@
}

/// The key that holds the backend's name.
pub open spec fn key_backend() -> Seq<char> {
    "remote_backend"@
}

/// The key that holds the timestamp of the snapshot published last.
pub open spec fn key_stamp() -> Seq<char> {
    "prev_stamp_t3"@
}

/// The six keys are six different texts.
pub proof fn lemma_keys_distinct()
    ensures
        key_state() != key_init(),
        key_state() != key_wrapped(),
        key_state() != key_remote(),
        key_state() != key_backend(),
        key_state() != key_stamp(),
        key_init() != key_wrapped(),
        key_init() != key_remote(),
        key_init() != key_backend(),
        key_init() != key_stamp(),
        key_wrapped() != key_remote(),
        key_wrapped() != key_backend(),
        key_wrapped() != key_stamp(),
        key_remote() != key_backend(),
        key_remote() != key_stamp(),
        key_backend() != key_stamp(),
{
    reveal_strlit("state");
    reveal_strlit("init");
    reveal_strlit("wrapped");
    reveal_strlit("remote");
    reveal_strlit("remote_backend");
    reveal_strlit("prev_stamp_t3");
    assert(key_state().len() == 5 && key_init().len() == 4 && key_wrapped().len() == 7);
    assert(key_remote().len() == 6 && key_backend().len() == 14 && key_stamp().len() == 13);
}

/// The state that `e` records: `Uninit` where the key is absent, nothing
/// where the value names no state.
pub open spec fn state_in(e: Entries) -> Option<VaultState> {
    match lookup(e, key_state()) {
        None => Some(VaultState::Uninit),
        Some(v) => VaultState::named(v),
    }
}

/// The init flag that `e` records: nothing where the key is absent or the
/// value is neither `true` nor `false`.
pub open spec fn init_in(e: Entries) -> Option<bool> {
    match lookup(e, key_init()) {
        None => None,
        Some(v) => if v == "true"@ {
            Some(true)
        } else if v == "false"@ {
            Some(false)
        } else {
            None
        },
    }
}

/// The wrapped key that `e` records, where it records one that can be read.
pub open spec fn wrapped_in(e: Entries) -> Option<WrappedKeyView> {
    match lookup(e, key_wrapped()) {
        Some(h) => wrapped_of_hex(h),
        None => None,
    }
}

/// A wrapped key that is recorded is read back as it was.
pub proof fn lemma_wrapped_key_is_read_back(e: Entries, w: WrappedKey)
    ensures
        wrapped_in(upsert(e, key_wrapped(), hex_of(wrapped_bytes(w@)))) == Some(w@),
{
    lemma_wrapped_key_is_shaped(w);
    lemma_wrapped_hex_roundtrip(w@);
    lemma_lookup_upsert(e, key_wrapped(), hex_of(wrapped_bytes(w@)), key_wrapped());
}

/// The text that stands for a flag.
pub open spec fn flag_text(flag: bool) -> Seq<char> {
    if flag {
        "true"@
    } else {
        "false"@
    }
}

/// The in-memory copy of a vault's state file.
pub struct StateFileHandle {
    path: String,
    state: Vec<(String, String)>,
}

impl StateFileHandle {
    /// What the handle records, in file order.
    pub closed spec fn entries(&self) -> Entries {
        entries_of(self.state@)
    }

    /// The root directory of the vault the handle belongs to.
    pub closed spec fn root(&self) -> Seq<char> {
        self.path@
    }

    /// The value recorded under `key`.
    pub open spec fn value(&self, key: Seq<char>) -> Option<Seq<char>> {
        lookup(self.entries(), key)
    }

    /// A handle for the vault at `path` whose state file holds `contents`;
    /// the contents of a missing file are the empty text.
    pub fn new(path: &str, contents: &str) -> (r: StateFileHandle)
        ensures
            r.root() == path@,
            r.entries() == parse_state(contents@),
    {
        StateFileHandle { path: path.to_owned(), state: read_hashmap(contents) }
    }

    /// Forgets what the handle held and reads `contents` in its place.
    pub fn reload(&mut self, contents: &str)
        ensures
            final(self).root() == old(self).root(),
            final(self).entries() == parse_state(contents@),
    {
        self.state = read_hashmap(contents);
    }

    pub fn set_state(&mut self, state: VaultState)
        ensures
            final(self).root() == old(self).root(),
            final(self).entries() == upsert(old(self).entries(), key_state(), state.name()),
    {
        put(&mut self.state, "state", state.as_str().to_owned());
    }

    pub fn set_init(&mut self, init: bool)
        ensures
            final(self).root() == old(self).root(),
            final(self).entries() == upsert(old(self).entries(), key_init(), flag_text(init)),
    {
        let text = if init {
            "true"
        } else {
            "false"
        };
        put(&mut self.state, "init", text.to_owned());
    }

    /// The init flag. A state file without the flag, or with a value that
    /// is neither `true` nor `false`, is corrupt.
    pub fn get_init(&self) -> (r: Result<bool, VaultError>)
        ensures
            r matches Ok(b) ==> init_in(self.entries()) == Some(b),
            r matches Err(e) ==> e == VaultError::StateCorruption && init_in(self.entries())
                is None,
    {
        match find(&self.state, "init") {
            None => Err(VaultError::StateCorruption),
            Some(v) => {
                if same_text(v.as_str(), "true") {
                    Ok(true)
                } else if same_text(v.as_str(), "false") {
                    proof {
                        reveal_strlit("true");
                        reveal_strlit("false");
                        assert("true"@.len() != "false"@.len());
                    }
                    Ok(false)
                } else {
                    Err(VaultError::StateCorruption)
                }
            },
        }
    }

    pub fn set_remote(&mut self, url: &str)
        ensures
            final(self).root() == old(self).root(),
            final(self).entries() == upsert(old(self).entries(), key_remote(), url@),
    {
        put(&mut self.state, "remote", url.to_owned());
    }

    pub fn set_remote_storage(&mut self, method: SyncMethod)
        ensures
            final(self).root() == old(self).root(),
            final(self).entries() == upsert(old(self).entries(), key_backend(), method.name()),
    {
        put(&mut self.state, "remote_backend", method.as_str().to_owned());
    }

    /// Records the timestamp of the snapshot that was published last.
    pub fn previous_tigris_commit_stamp(&mut self, stamp: &str)
        ensures
            final(self).root() == old(self).root(),
            final(self).entries() == upsert(old(self).entries(), key_stamp(), stamp@),
    {
        put(&mut self.state, "prev_stamp_t3", stamp.to_owned());
    }

    /// The timestamp of the snapshot that was published last; a state
    /// file without one is corrupt.
    pub fn get_previous_tigris_commit_stamp(&self) -> (r: Result<String, VaultError>)
        ensures
            r matches Ok(s) ==> self.value(key_stamp()) == Some(s@),
            r matches Err(e) ==> e == VaultError::StateCorruption && self.value(key_stamp())
                is None,
    {
        match find(&self.state, "prev_stamp_t3") {
            Some(v) => Ok(v.clone()),
            None => Err(VaultError::StateCorruption),
        }
    }

    /// The backend: `None` where none was configured; a name that no
    /// backend carries is a corrupt state file.
    pub fn get_remote_storage(&self) -> (r: Result<Option<SyncMethod>, VaultError>)
        ensures
            r matches Ok(None) ==> self.value(key_backend()) is None,
            r matches Ok(Some(m)) ==> self.value(key_backend()) is Some && SyncMethod::named(
                self.value(key_backend())->0,
            ) == Some(m),
            r matches Err(e) ==> e == VaultError::StateCorruption && self.value(key_backend())
                is Some && SyncMethod::named(self.value(key_backend())->0) is None,
    {
        match find(&self.state, "remote_backend") {
            None => Ok(None),
            Some(v) => match SyncMethod::from_str(v.as_str()) {
                Ok(m) => Ok(Some(m)),
                Err(e) => Err(e),
            },
        }
    }

    pub fn get_remote(&self) -> (r: Option<String>)
        ensures
            r matches Some(s) ==> self.value(key_remote()) == Some(s@),
            r is None ==> self.value(key_remote()) is None,
    {
        match find(&self.state, "remote") {
            Some(v) => Some(v.clone()),
            None => None,
        }
    }

    /// Records the wrapped master key, in hexadecimal.
    pub fn set_master_key(&mut self, key: &WrappedKey)
        ensures
            final(self).root() == old(self).root(),
            final(self).entries() == upsert(
                old(self).entries(),
                key_wrapped(),
                hex_of(wrapped_bytes(key@)),
            ),
            wrapped_in(final(self).entries()) == Some(key@),
    {
        proof {
            lemma_wrapped_key_is_read_back(self.entries(), *key);
        }
        put(&mut self.state, "wrapped", key.to_hex());
    }

    /// The wrapped master key; a state file without one, or with one that
    /// cannot be read, is corrupt.
    pub fn get_wrapped_key(&self) -> (r: Result<WrappedKey, VaultError>)
        ensures
            r matches Ok(w) ==> wrapped_in(self.entries()) == Some(w@),
            r matches Err(e) ==> e == VaultError::StateCorruption && wrapped_in(self.entries())
                is None,
    {
        match find(&self.state, "wrapped") {
            None => Err(VaultError::StateCorruption),
            Some(v) => WrappedKey::from_hex(v.as_str()),
        }
    }

    /// The state the file names: `Uninit` where it names none; a name that
    /// no state carries is a corrupt state file. The handle is left as it was.
    pub fn get_state(&mut self) -> (r: Result<VaultState, VaultError>)
        ensures
            *final(self) == *old(self),
            r matches Ok(s) ==> state_in(old(self).entries()) == Some(s),
            r matches Err(e) ==> e == VaultError::StateCorruption && state_in(old(self).entries())
                is None,
    {
        self.peek_state()
    }

    /// The state the file names, as `get_state` gives it, for a handle that
    /// is only read.
    pub fn peek_state(&self) -> (r: Result<VaultState, VaultError>)
        ensures
            r matches Ok(s) ==> state_in(self.entries()) == Some(s),
            r matches Err(e) ==> e == VaultError::StateCorruption && state_in(self.entries())
                is None,
    {
        match find(&self.state, "state") {
            None => Ok(VaultState::Uninit),
            Some(v) => {
                let r = VaultState::from_str(v.as_str());
                proof {
                    if let Ok(s) = r {
                        crate::states::lemma_state_names_distinct(s, s);
                    }
                }
                r
            },
        }
    }

    /// The text that must replace the state file, in one atomic step, to
    /// commit what the handle holds.
    pub fn writeback(&self) -> (contents: String)
        ensures
            contents@ == render(self.entries()),
    {
        render_state(&self.state)
    }
}

/// Whether an entry survives being written and read: neither part holds a
/// line break, the key holds no `=`, the key does not start with white
/// space and the value does not end with it.
pub open spec fn clean_entry(key: Seq<char>, value: Seq<char>) -> bool {
    &&& !key.contains('=') && !key.contains('\n')
    &&& !value.contains('\n')
    &&& key.len() > 0 ==> !is_space(key[0])
    &&& value.len() > 0 ==> !is_space(value.last())
}

/// Whether every entry of `e` is clean.
pub open spec fn clean(e: Entries) -> bool {
    forall|i: int| 0 <= i < e.len() ==> clean_entry(#[trigger] e[i].0, e[i].1)
}

/// Whether no key occurs twice in `e`.
pub open spec fn unique_keys(e: Entries) -> bool {
    forall|i: int, j: int| 0 <= i < j < e.len() ==> (#[trigger] e[i]).0 != (#[trigger] e[j]).0
}

/// The line written for a clean entry is read back as that entry.
pub proof fn lemma_entry_of_line(key: Seq<char>, value: Seq<char>)
    requires
        clean_entry(key, value),
    ensures
        entry_of_line(key + seq!['='] + value) == Some((key, value)),
        !(key + seq!['='] + value).contains('\n'),
{
    let line = key + seq!['='] + value;
    assert(line.len() > 0);
    assert(line[key.len() as int] == '=');
    assert(!is_space('='));
    if key.len() > 0 {
        assert(line[0] == key[0]);
    }
    if value.len() > 0 {
        assert(line.last() == value.last());
    }
    lemma_trim_nothing(line);
    assert forall|k: int| 0 <= k < key.len() implies line[k] != '=' by {
        if key[k] == '=' {
            assert(key.contains('='));
        }
    }
    lemma_first_at_is(line, 0, '=', key.len() as int);
    assert(line.subrange(0, key.len() as int) =~= key);
    assert(line.skip(key.len() as int + 1) =~= value);
    assert forall|k: int| 0 <= k < line.len() implies line[k] != '\n' by {
        if k < key.len() {
            if key[k] == '\n' {
                assert(key.contains('\n'));
            }
        } else if k > key.len() {
            if value[k - key.len() - 1] == '\n' {
                assert(value.contains('\n'));
            }
        }
    }
}

proof fn lemma_parse_render(acc: Entries, e: Entries)
    requires
        clean(e),
        unique_keys(e),
        forall|i: int, j: int| 0 <= i < acc.len() && 0 <= j < e.len() ==> (#[trigger] acc[i]).0 != (
        #[trigger] e[j]).0,
    ensures
        parse_lines(acc, split_on(render(e), '\n')) == acc + e,
    decreases e.len(),
{
    if e.len() == 0 {
        let empty = Seq::<char>::empty();
        assert(render(e) == empty);
        assert(split_on(empty, '\n') =~= seq![empty]) by {
            assert(empty.subrange(0, 0) =~= empty);
        }
        let lines = seq![empty];
        assert(trim(empty) == empty);
        assert(entry_of_line(lines[0]) is None);
        assert(lines.skip(1).len() == 0);
        assert(parse_lines(acc, lines) == parse_lines(acc, lines.skip(1)));
        assert(acc + e =~= acc);
    } else {
        let k = e[0].0;
        let v = e[0].1;
        let line = k + seq!['='] + v;
        let rest = render(e.skip(1));
        assert(clean_entry(e[0].0, e[0].1));
        lemma_entry_of_line(k, v);
        assert(render(e) == line + seq!['\n'] + rest);
        lemma_split_prepend(line, rest, '\n');
        let lines = split_on(render(e), '\n');
        assert(lines[0] == line);
        assert(lines.skip(1) =~= split_on(rest, '\n'));
        assert forall|i: int| 0 <= i < acc.len() implies acc[i].0 != k by {
            assert(acc[i].0 != e[0].0);
        }
        lemma_key_at_is(acc, 0, k, acc.len() as int);
        let next = acc.push((k, v));
        assert(upsert(acc, k, v) == next);
        let tail = e.skip(1);
        assert forall|i: int| 0 <= i < tail.len() implies clean_entry(
            #[trigger] tail[i].0,
            tail[i].1,
        ) by {
            assert(tail[i] == e[i + 1]);
            assert(clean_entry(e[i + 1].0, e[i + 1].1));
        }
        assert forall|i: int, j: int| 0 <= i < j < tail.len() implies (#[trigger] tail[i]).0 != (
        #[trigger] tail[j]).0 by {
            assert(tail[i] == e[i + 1] && tail[j] == e[j + 1]);
        }
        assert forall|i: int, j: int| 0 <= i < next.len() && 0 <= j < tail.len() implies (
        #[trigger] next[i]).0 != (#[trigger] tail[j]).0 by {
            assert(tail[j] == e[j + 1]);
            if i < acc.len() {
                assert(next[i] == acc[i]);
            } else {
                assert(next[i] == e[0]);
            }
        }
        lemma_parse_render(next, tail);
        assert(next + tail =~= acc + e);
    }
}

/// A state file is always loadable: the text written for clean entries with
/// distinct keys is read back as exactly those entries, in their order.
pub proof fn lemma_state_file_roundtrip(e: Entries)
    requires
        clean(e),
        unique_keys(e),
    ensures
        parse_state(render(e)) == e,
{
    lemma_parse_render(Seq::empty(), e);
    assert(Seq::<(Seq<char>, Seq<char>)>::empty() + e =~= e);
}

/// Recording a value keeps the keys distinct.
pub proof fn lemma_upsert_keeps_unique(e: Entries, key: Seq<char>, value: Seq<char>)
    requires
        unique_keys(e),
    ensures
        unique_keys(upsert(e, key, value)),
{
    let n = upsert(e, key, value);
    let at = key_at(e, 0, key);
    lemma_key_at(e, 0, key);
    assert forall|i: int, j: int| 0 <= i < j < n.len() implies (#[trigger] n[i]).0 != (
    #[trigger] n[j]).0 by {
        if at < e.len() {
            if i != at && j != at {
                assert(n[i] == e[i] && n[j] == e[j]);
            } else if i == at {
                assert(n[j] == e[j]);
                assert(e[i].0 != e[j].0);
            } else {
                assert(n[i] == e[i]);
                assert(e[i].0 != e[j].0);
            }
        } else {
            if j < e.len() {
                assert(n[i] == e[i] && n[j] == e[j]);
            } else {
                assert(n[i] == e[i]);
            }
        }
    }
}

/// Recording a clean entry keeps the entries clean.
pub proof fn lemma_upsert_keeps_clean(e: Entries, key: Seq<char>, value: Seq<char>)
    requires
        clean(e),
        clean_entry(key, value),
    ensures
        clean(upsert(e, key, value)),
{
    let n = upsert(e, key, value);
    let at = key_at(e, 0, key);
    lemma_key_at(e, 0, key);
    assert forall|i: int| 0 <= i < n.len() implies clean_entry(#[trigger] n[i].0, n[i].1) by {
        if i < e.len() && i != at {
            assert(n[i] == e[i]);
            assert(clean_entry(e[i].0, e[i].1));
        }
    }
}

proof fn lemma_parse_lines_unique(acc: Entries, lines: Seq<Seq<char>>)
    requires
        unique_keys(acc),
    ensures
        unique_keys(parse_lines(acc, lines)),
    decreases lines.len(),
{
    if lines.len() > 0 {
        match entry_of_line(lines[0]) {
            Some((k, v)) => {
                lemma_upsert_keeps_unique(acc, k, v);
                lemma_parse_lines_unique(upsert(acc, k, v), lines.skip(1));
            },
            None => {
                lemma_parse_lines_unique(acc, lines.skip(1));
            },
        }
    }
}

/// Whatever a state file holds, no key occurs twice in what is read from it.
pub proof fn lemma_parse_unique(text: Seq<char>)
    ensures
        unique_keys(parse_state(text)),
{
    lemma_parse_lines_unique(Seq::empty(), split_on(text, '\n'));
}

/// What the library itself records under its keys survives being written
/// and read: the name of a state, a flag, the name of a backend, and a
/// wrapped key in hexadecimal.
pub proof fn lemma_recorded_values_are_clean(
    state: VaultState,
    flag: bool,
    method: SyncMethod,
    wrapped: Seq<u8>,
)
    ensures
        clean_entry(key_state(), state.name()),
        clean_entry(key_init(), flag_text(flag)),
        clean_entry(key_backend(), method.name()),
        clean_entry(key_wrapped(), hex_of(wrapped)),
{
    reveal_strlit("state");
    reveal_strlit("init");
    reveal_strlit("wrapped");
    reveal_strlit("remote_backend");
    reveal_strlit("true");
    reveal_strlit("false");
    reveal_strlit("Git");
    reveal_strlit("TigrisS3");
    lemma_word(key_state());
    lemma_word(key_init());
    lemma_word(key_wrapped());
    lemma_word(key_backend());
    lemma_word(flag_text(flag));
    lemma_word(method.name());
    lemma_state_name_is_word(state);
    lemma_word(state.name());
    let h = hex_of(wrapped);
    assert forall|i: int| 0 <= i < h.len() implies is_word_char(#[trigger] h[i]) by {
        reveal_strlit("0123456789abcdef");
        let n = if i % 2 == 0 {
            wrapped[i / 2] as int / 16
        } else {
            wrapped[i / 2] as int % 16
        };
        assert(h[i] == hex_digit(n));
        assert(0 <= n < 16);
        let t = "0123456789abcdef"@;
        assert(t[0] == '0' && t[1] == '1' && t[2] == '2' && t[3] == '3');
        assert(t[4] == '4' && t[5] == '5' && t[6] == '6' && t[7] == '7');
        assert(t[8] == '8' && t[9] == '9' && t[10] == 'a' && t[11] == 'b');
        assert(t[12] == 'c' && t[13] == 'd' && t[14] == 'e' && t[15] == 'f');
    }
    lemma_word(h);
}

/// A letter, a digit or an underscore.
pub open spec fn is_word_char(c: char) -> bool {
    let n = c as u32;
    (0x30 <= n <= 0x39) || (0x41 <= n <= 0x5A) || (0x61 <= n <= 0x7A) || n == 0x5F
}

/// Whether `s` is made of letters, digits and underscores alone.
pub open spec fn is_word(s: Seq<char>) -> bool {
    forall|i: int| 0 <= i < s.len() ==> is_word_char(#[trigger] s[i])
}

proof fn lemma_word(s: Seq<char>)
    requires
        is_word(s),
    ensures
        !s.contains('='),
        !s.contains('\n'),
        s.len() > 0 ==> !is_space(s[0]) && !is_space(s.last()),
{
    if s.contains('=') {
        let k = choose|k: int| 0 <= k < s.len() && s[k] == '=';
        assert(is_word_char(s[k]));
    }
    if s.contains('\n') {
        let k = choose|k: int| 0 <= k < s.len() && s[k] == '\n';
        assert(is_word_char(s[k]));
    }
    if s.len() > 0 {
        assert(is_word_char(s[0]));
        assert(is_word_char(s[s.len() - 1]));
    }
}

proof fn lemma_state_name_is_word(state: VaultState)
    ensures
        is_word(state.name()),
{
    reveal_strlit("Uninit");
    reveal_strlit("Seed");
    reveal_strlit("InitFileSystem");
    reveal_strlit("MakeExternalGitRepo");
    reveal_strlit("MarkInitDone");
    reveal_strlit("RecreatingDirectories");
    reveal_strlit("Encrypting");
    reveal_strlit("UnlinkPostSeal");
    reveal_strlit("RelocateEncryptedBinaries");
    reveal_strlit("WriteMandatoryPostSealFiles");
    reveal_strlit("RestoreVaultGit");
    reveal_strlit("Sealed");
    reveal_strlit("DecryptMainVault");
    reveal_strlit("DecryptLocallySecuredVault");
    reveal_strlit("StashExternalGitRepo");
    reveal_strlit("DeleteSealedGitFiles");
    reveal_strlit("ExpandMainVault");
    reveal_strlit("ExpandLocalVault");
    reveal_strlit("CleanupOldBinaries");
    reveal_strlit("RestoreUnsecureFiles");
    reveal_strlit("Unsealed");
}

} // verus!
