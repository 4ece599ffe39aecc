//! An append-only store of events, commands and snapshots per aggregate,
//! kept as JSON files under a root directory.
use vstd::prelude::*;

use crate::aggregate::{lemma_replay_settled, rebuilt, replay, Aggregate, InitFailure};
use crate::names::{ascending, holds_chars, sorted_matching};
use crate::paths::{join, joined, key_file_name, key_name, lemma_key_name_injective, StoreKey};
use crate::storage::{is_component, Storage};

verus! {

/// The text that `serde_json` writes for a JSON string.
pub uninterp spec fn json_text_of(s: Seq<char>) -> Seq<u8>;

/// The string that a JSON text holds, if it holds one.
pub uninterp spec fn json_string_in(b: Seq<u8>) -> Option<Seq<char>>;

/// Relies on `serde_json::to_string_pretty` on a `str`: the JSON text of a
/// string.
#[verifier::external_body]
fn json_text(s: &str) -> (r: Vec<u8>)
    ensures
        r@ == json_text_of(s@),
        json_string_in(r@) == Some(s@),
{
    match serde_json::to_string_pretty(s) {
        Ok(t) => t.into_bytes(),
        Err(_) => Vec::new(),
    }
}

/// Relies on `serde_json::from_slice::<String>`: the string a JSON text holds.
#[verifier::external_body]
fn json_string(b: &Vec<u8>) -> (r: Option<String>)
    ensures
        r matches Some(s) ==> json_string_in(b@) == Some(s@),
        r is None ==> json_string_in(b@) is None,
{
    serde_json::from_slice::<String>(b).ok()
}

/// The layout version of a key store.
#[derive(Clone, Copy, Debug, PartialEq, Eq, Structural)]
pub enum KeyStoreVersion {
    Pre0_6,
    V0_6,
}

/// The name under which a layout version is recorded.
pub open spec fn version_name(v: KeyStoreVersion) -> Seq<char> {
    match v {
        KeyStoreVersion::Pre0_6 => seq!['P', 'r', 'e', '0', '_', '6'],
        KeyStoreVersion::V0_6 => seq!['V', '0', '_', '6'],
    }
}

/// The layout version recorded under a name, if any.
pub open spec fn version_named(s: Seq<char>) -> Option<KeyStoreVersion> {
    if s == version_name(KeyStoreVersion::Pre0_6) {
        Some(KeyStoreVersion::Pre0_6)
    } else if s == version_name(KeyStoreVersion::V0_6) {
        Some(KeyStoreVersion::V0_6)
    } else {
        None
    }
}

/// The layout version that a version record names, if it is a JSON string
/// naming one.
pub open spec fn recorded_version(b: Seq<u8>) -> Option<KeyStoreVersion> {
    match json_string_in(b) {
        Some(s) => version_named(s),
        None => None,
    }
}

/// Why a key store operation failed.
#[derive(Debug)]
pub enum KeyStoreError {
    IoError(String),
    JsonError(String),
    KeyExists(String),
    KeyUnknown(String),
    InitError,
    NoHistory(String),
    NotInitialised,
    CommandNotFound,
    CommandOffSetError,
}

/// Bookkeeping kept per aggregate.
#[derive(Clone, Copy, Debug, PartialEq, Eq, Structural)]
pub struct StoredValueInfo {
    pub snapshot_version: u64,
    pub last_event: u64,
    pub last_command: u64,
    /// Seconds since the Unix epoch.
    pub last_update: i64,
}

/// Relies on `rpki::repository::x509::Time::now`: the current time, in
/// seconds since the Unix epoch. Nothing is known of its value.
#[verifier::external_body]
fn now_seconds() -> (r: i64) {
    rpki::repository::x509::Time::now().timestamp()
}

impl StoredValueInfo {
    /// No snapshot, event or command yet; updated at `last_update`.
    pub fn fresh_at(last_update: i64) -> (r: StoredValueInfo)
        ensures
            r.snapshot_version == 0,
            r.last_event == 0,
            r.last_command == 0,
            r.last_update == last_update,
    {
        StoredValueInfo { snapshot_version: 0, last_event: 0, last_command: 0, last_update }
    }
}

impl Default for StoredValueInfo {
    /// No snapshot, event or command yet; updated now.
    fn default() -> (r: StoredValueInfo)
        ensures
            r.snapshot_version == 0,
            r.last_event == 0,
            r.last_command == 0,
    {
        StoredValueInfo::fresh_at(now_seconds())
    }
}

/// An event of an aggregate: its handle, its version and its JSON text.
pub struct Event {
    pub handle: String,
    pub version: u64,
    pub payload: Vec<u8>,
}

/// A command as stored: its handle, its sequence number and its JSON text.
pub struct StoredCommand {
    pub handle: String,
    pub sequence: u64,
    pub payload: Vec<u8>,
}

/// A key store on a directory tree: one directory per aggregate under the
/// root, one JSON file per slot.
pub struct DiskKeyStore {
    dir: String,
}

impl DiskKeyStore {
    /// The root directory.
    pub closed spec fn root(&self) -> Seq<char> {
        self.dir@
    }

    /// The directory of an aggregate.
    pub open spec fn aggregate_dir(&self, id: Seq<char>) -> Seq<char> {
        joined(self.root(), id)
    }

    /// The file of a slot of an aggregate.
    pub open spec fn slot_path(&self, id: Seq<char>, key: StoreKey) -> Seq<char> {
        joined(self.aggregate_dir(id), key_name(key))
    }

    /// The file of the layout version.
    pub open spec fn version_file(&self) -> Seq<char> {
        joined(self.root(), seq!['v', 'e', 'r', 's', 'i', 'o', 'n'])
    }

    pub fn new(work_dir: &String, name_space: &str) -> (r: DiskKeyStore)
        ensures
            r.root() == joined(work_dir@, name_space@),
    {
        DiskKeyStore { dir: join(work_dir, name_space) }
    }

    pub fn key_for_info() -> (r: StoreKey)
        ensures
            r == StoreKey::Info,
    {
        StoreKey::Info
    }

    pub fn key_for_snapshot() -> (r: StoreKey)
        ensures
            r == StoreKey::Snapshot,
    {
        StoreKey::Snapshot
    }

    pub fn key_for_event(version: u64) -> (r: StoreKey)
        ensures
            r == StoreKey::Event(version),
    {
        StoreKey::Event(version)
    }

    pub fn key_for_command(seq: u64) -> (r: StoreKey)
        ensures
            r == StoreKey::Command(seq),
    {
        StoreKey::Command(seq)
    }

    pub fn version_path(&self) -> (r: String)
        ensures
            r@ == self.version_file(),
    {
        proof {
            reveal_strlit("version");
        }
        join(&self.dir, "version")
    }

    pub fn dir_for_aggregate(&self, id: &String) -> (r: String)
        ensures
            r@ == self.aggregate_dir(id@),
    {
        join(&self.dir, id.as_str())
    }

    pub fn file_path(&self, id: &String, key: &StoreKey) -> (r: String)
        ensures
            r@ == self.slot_path(id@, *key),
    {
        let dir = self.dir_for_aggregate(id);
        let name = key_file_name(key);
        join(&dir, name.as_str())
    }

    pub fn path_for_event(&self, id: &String, version: u64) -> (r: String)
        ensures
            r@ == self.slot_path(id@, StoreKey::Event(version)),
    {
        self.file_path(id, &StoreKey::Event(version))
    }

    /// The layout version: an error where the root is missing, `Pre0_6`
    /// where no version is recorded.
    pub fn get_version<S: Storage>(&self, fs: &S) -> (r: Result<KeyStoreVersion, KeyStoreError>)
        ensures
            !fs.dirs().contains(self.root()) ==> r matches Err(KeyStoreError::NotInitialised),
            fs.dirs().contains(self.root()) && !fs.files().contains_key(self.version_file()) ==> r
                == Ok::<KeyStoreVersion, KeyStoreError>(KeyStoreVersion::Pre0_6),
            fs.dirs().contains(self.root()) && fs.files().contains_key(self.version_file()) ==> (
            r matches Ok(v) ==> json_string_in(fs.files()[self.version_file()]) matches Some(s)
                && version_named(s) == Some(v)),
            fs.dirs().contains(self.root()) && fs.files().contains_key(self.version_file()) && !(
            json_string_in(fs.files()[self.version_file()]) matches Some(s) && version_named(s)
                is Some) ==> (r matches Err(KeyStoreError::JsonError(_)) || r matches Err(
                KeyStoreError::IoError(_),
            )),
            fs.dirs().contains(self.root()) && fs.files().contains_key(self.version_file())
                && recorded_version(fs.files()[self.version_file()]) is Some ==> (r
                == Ok::<KeyStoreVersion, KeyStoreError>(
                recorded_version(fs.files()[self.version_file()])->Some_0,
            ) || r matches Err(KeyStoreError::IoError(_))),
            r matches Err(KeyStoreError::NotInitialised) ==> !fs.dirs().contains(self.root()),
    {
        if !fs.is_dir(&self.dir) {
            return Err(KeyStoreError::NotInitialised);
        }
        let path = self.version_path();
        if !fs.is_file(&path) {
            return Ok(KeyStoreVersion::Pre0_6);
        }
        let bytes = match fs.read(&path) {
            Ok(b) => b,
            Err(e) => return Err(KeyStoreError::IoError(e)),
        };
        match json_string(&bytes) {
            None => Err(KeyStoreError::JsonError(path)),
            Some(s) => {
                proof {
                    reveal_strlit("Pre0_6");
                    reveal_strlit("V0_6");
                }
                assert("Pre0_6"@ == version_name(KeyStoreVersion::Pre0_6));
                assert("V0_6"@ == version_name(KeyStoreVersion::V0_6));
                if s == String::from_str("Pre0_6") {
                    Ok(KeyStoreVersion::Pre0_6)
                } else if s == String::from_str("V0_6") {
                    Ok(KeyStoreVersion::V0_6)
                } else {
                    Err(KeyStoreError::JsonError(path))
                }
            },
        }
    }

    /// Records the layout version, replacing any earlier record.
    pub fn set_version<S: Storage>(&self, fs: &mut S, version: &KeyStoreVersion) -> (r: Result<(), KeyStoreError>)
        ensures
            r is Ok ==> final(fs).files() == old(fs).files().insert(
                self.version_file(),
                json_text_of(version_name(*version)),
            ),
            r is Ok ==> final(fs).dirs().contains(self.root()),
            r is Ok ==> recorded_version(final(fs).files()[self.version_file()]) == Some(*version),
            r is Err ==> final(fs).files() == old(fs).files(),
            r is Err ==> final(fs).dirs() == old(fs).dirs(),
            r matches Err(e) ==> e is IoError,
    {
        proof {
            reveal_strlit("version");
            reveal_strlit("Pre0_6");
            reveal_strlit("V0_6");
        }
        let name = match version {
            KeyStoreVersion::Pre0_6 => "Pre0_6",
            KeyStoreVersion::V0_6 => "V0_6",
        };
        assert(name@ == version_name(*version));
        assert("version"@ == seq!['v', 'e', 'r', 's', 'i', 'o', 'n']);
        let json = json_text(name);
        match fs.write(&self.dir, &String::from_str("version"), &json) {
            Ok(()) => Ok(()),
            Err(e) => Err(KeyStoreError::IoError(e)),
        }
    }

    /// The names of the files of an aggregate that hold `matching`, in
    /// ascending order of their characters. Versions are not zero-padded,
    /// so this is not the order of event versions.
    pub fn keys_ascending_matching<S: Storage>(&self, fs: &S, id: &String, matching: &str) -> (r: Vec<String>)
        ensures
            ascending(r@),
            forall|i: int| 0 <= i < r.len() ==> holds_chars((#[trigger] r@[i])@, matching@)
                && fs.files().contains_key(joined(self.aggregate_dir(id@), r@[i]@)),
            forall|n: Seq<char>|
                is_component(n) && holds_chars(n, matching@) && #[trigger] fs.files().contains_key(
                    joined(self.aggregate_dir(id@), n),
                ) ==> exists|i: int| 0 <= i < r.len() && r@[i]@ == n,
            forall|i: int, j: int| 0 <= i < j < r.len() ==> r@[i]@ != r@[j]@,
    {
        let dir = self.dir_for_aggregate(id);
        let names = fs.file_names(&dir);
        let r = sorted_matching(&names, matching);
        assert forall|i: int| 0 <= i < r.len() implies holds_chars((#[trigger] r@[i])@, matching@)
            && fs.files().contains_key(joined(self.aggregate_dir(id@), r@[i]@)) by {
            let j = choose|j: int| 0 <= j < names.len() && names@[j] == r@[i];
            assert(fs.files().contains_key(joined(dir@, names@[j]@)));
        }
        assert forall|n: Seq<char>|
            is_component(n) && holds_chars(n, matching@) && #[trigger] fs.files().contains_key(
                joined(self.aggregate_dir(id@), n),
            ) implies exists|i: int| 0 <= i < r.len() && r@[i]@ == n by {
            let m = choose|m: int| 0 <= m < names.len() && names@[m]@ == n;
            assert(holds_chars(names@[m]@, matching@));
            assert(r@.contains(names@[m]));
        }
        r
    }

    pub fn has_key<S: Storage>(&self, fs: &S, id: &String, key: &StoreKey) -> (r: bool)
        ensures
            r == fs.files().contains_key(self.slot_path(id@, *key)),
    {
        fs.is_file(&self.file_path(id, key))
    }

    pub fn has_aggregate<S: Storage>(&self, fs: &S, id: &String) -> (r: bool)
        ensures
            r == fs.dirs().contains(self.aggregate_dir(id@)),
    {
        fs.is_dir(&self.dir_for_aggregate(id))
    }

    /// The handles of the aggregates present, each once.
    pub fn aggregates<S: Storage>(&self, fs: &S) -> (r: Vec<String>)
        ensures
            forall|i: int| 0 <= i < r.len() ==> fs.dirs().contains(self.aggregate_dir(#[trigger] r[i]@))
                && is_component(r[i]@),
            forall|i: int, j: int| 0 <= i < j < r.len() ==> r[i]@ != r[j]@,
            forall|h: Seq<char>| is_component(h) && #[trigger] fs.dirs().contains(self.aggregate_dir(h))
                ==> exists|i: int| 0 <= i < r.len() && r[i]@ == h,
    {
        fs.sub_dirs(&self.dir)
    }

    /// Writes a slot, replacing what it held.
    pub fn store<S: Storage>(&self, fs: &mut S, id: &String, key: &StoreKey, value: &Vec<u8>) -> (r: Result<(), KeyStoreError>)
        ensures
            r is Ok ==> final(fs).files() == old(fs).files().insert(self.slot_path(id@, *key), value@),
            r is Ok ==> final(fs).dirs() == old(fs).dirs().insert(self.aggregate_dir(id@)),
            r is Err ==> final(fs).files() == old(fs).files(),
            r is Err ==> final(fs).dirs() == old(fs).dirs(),
            r matches Err(e) ==> e is IoError,
    {
        let dir = self.dir_for_aggregate(id);
        let name = key_file_name(key);
        match fs.write(&dir, &name, value) {
            Ok(()) => Ok(()),
            Err(e) => Err(KeyStoreError::IoError(e)),
        }
    }

    /// The content of a slot: `None` where it is absent.
    pub fn get<S: Storage>(&self, fs: &S, id: &String, key: &StoreKey) -> (r: Result<Option<Vec<u8>>, KeyStoreError>)
        ensures
            slot_read(fs.files(), self.slot_path(id@, *key), r),
    {
        let path = self.file_path(id, key);
        if !fs.is_file(&path) {
            return Ok(None);
        }
        match fs.read(&path) {
            Ok(b) => Ok(Some(b)),
            Err(e) => Err(KeyStoreError::IoError(e)),
        }
    }

    /// Removes a slot; an error where it is absent.
    pub fn drop<S: Storage>(&self, fs: &mut S, id: &String, key: &StoreKey) -> (r: Result<(), KeyStoreError>)
        ensures
            !old(fs).files().contains_key(self.slot_path(id@, *key)) ==> (r matches Err(
                KeyStoreError::KeyUnknown(name),
            ) && name@ == key_name(*key)),
            old(fs).files().contains_key(self.slot_path(id@, *key)) ==> (r is Ok || (r matches Err(
                e,
            ) && e is IoError)),
            r is Ok ==> final(fs).files() == old(fs).files().remove(self.slot_path(id@, *key)),
            r is Err ==> final(fs).files() == old(fs).files(),
            final(fs).dirs() == old(fs).dirs(),
    {
        let path = self.file_path(id, key);
        if !fs.is_file(&path) {
            return Err(KeyStoreError::KeyUnknown(key_file_name(key)));
        }
        match fs.remove(&path) {
            Ok(()) => Ok(()),
            Err(e) => Err(KeyStoreError::IoError(e)),
        }
    }

    /// The JSON text of an event: `None` where the log ends before it.
    pub fn get_event<S: Storage>(&self, fs: &S, id: &String, version: u64) -> (r: Result<Option<Vec<u8>>, KeyStoreError>)
        ensures
            slot_read(fs.files(), self.slot_path(id@, StoreKey::Event(version)), r),
    {
        self.get(fs, id, &StoreKey::Event(version))
    }

    /// Stores an event; an error where its version is stored already.
    pub fn store_event<S: Storage>(&self, fs: &mut S, event: &Event) -> (r: Result<(), KeyStoreError>)
        ensures
            slot_written(
                old(fs).files(),
                final(fs).files(),
                self.slot_path(event.handle@, StoreKey::Event(event.version)),
                event.payload@,
                r,
            ),
            r matches Err(KeyStoreError::KeyExists(k)) ==> k@ == key_name(StoreKey::Event(event.version)),
    {
        let key = StoreKey::Event(event.version);
        if self.has_key(fs, &event.handle, &key) {
            Err(KeyStoreError::KeyExists(key_file_name(&key)))
        } else {
            self.store(fs, &event.handle, &key, &event.payload)
        }
    }

    /// Stores a command; an error where its sequence number is stored already.
    pub fn store_command<S: Storage>(&self, fs: &mut S, command: &StoredCommand) -> (r: Result<(), KeyStoreError>)
        ensures
            slot_written(
                old(fs).files(),
                final(fs).files(),
                self.slot_path(command.handle@, StoreKey::Command(command.sequence)),
                command.payload@,
                r,
            ),
            r matches Err(KeyStoreError::KeyExists(k)) ==> k@ == key_name(StoreKey::Command(command.sequence)),
    {
        let key = StoreKey::Command(command.sequence);
        if self.has_key(fs, &command.handle, &key) {
            Err(KeyStoreError::KeyExists(key_file_name(&key)))
        } else {
            self.store(fs, &command.handle, &key, &command.payload)
        }
    }

    /// The events of an aggregate, by version.
    pub open spec fn event_log(&self, files: Map<Seq<char>, Seq<u8>>, id: Seq<char>) -> Map<u64, Seq<u8>> {
        Map::new(
            |v: u64| files.contains_key(self.slot_path(id, StoreKey::Event(v))),
            |v: u64| files[self.slot_path(id, StoreKey::Event(v))],
        )
    }

    /// The snapshot of an aggregate, if one is stored.
    pub open spec fn snapshot_in(&self, files: Map<Seq<char>, Seq<u8>>, id: Seq<char>) -> Option<Seq<u8>> {
        let p = self.slot_path(id, StoreKey::Snapshot);
        if files.contains_key(p) {
            Some(files[p])
        } else {
            None
        }
    }

    /// The aggregate that the stored files rebuild (see `rebuilt`).
    pub open spec fn loaded<A: Aggregate>(&self, files: Map<Seq<char>, Seq<u8>>, id: Seq<char>) -> Option<Option<A>> {
        rebuilt::<A>(self.snapshot_in(files, id), self.event_log(files, id))
    }

    /// No snapshot restores the aggregate, and the aggregate refuses its
    /// stored init event.
    pub open spec fn init_refused<A: Aggregate>(&self, files: Map<Seq<char>, Seq<u8>>, id: Seq<char>) -> bool {
        let log = self.event_log(files, id);
        &&& !(self.snapshot_in(files, id) matches Some(s) && A::restored(s) is Some)
        &&& log.contains_key(0)
        &&& A::initialised(log[0]) == Err::<A, InitFailure>(InitFailure::Rejected)
    }

    /// Applies the stored events from the aggregate's version on, until the
    /// log ends. Nothing is written.
    pub fn update_aggregate<S: Storage, A: Aggregate>(&self, fs: &S, id: &String, aggregate: &mut A) -> (r: Result<(), KeyStoreError>)
        ensures
            r is Ok ==> replay(*old(aggregate), self.event_log(fs.files(), id@)) == Some(*final(aggregate)),
            replay(*old(aggregate), self.event_log(fs.files(), id@)) is None ==> r is Err,
            replay(*old(aggregate), self.event_log(fs.files(), id@)) is Some ==> r is Ok,
            r matches Err(e) ==> e is IoError || (e is JsonError && replay(
                *old(aggregate),
                self.event_log(fs.files(), id@),
            ) is None),
    {
        let ghost log = self.event_log(fs.files(), id@);
        let ghost start = *aggregate;
        loop
            invariant
                log == self.event_log(fs.files(), id@),
                replay(*aggregate, log) == replay(start, log),
                start == *old(aggregate),
            decreases u64::MAX - aggregate.spec_version(),
        {
            let v = aggregate.version();
            if v == u64::MAX {
                assert(replay(*aggregate, log) == Some(*aggregate));
                return Ok(());
            }
            match self.get_event(fs, id, v) {
                Err(e) => return Err(e),
                Ok(None) => {
                    assert(!log.contains_key(v));
                    assert(replay(*aggregate, log) == Some(*aggregate));
                    return Ok(());
                },
                Ok(Some(event)) => {
                    assert(log.contains_key(v) && log[v] == event@);
                    if !aggregate.apply(&event) {
                        assert(replay(*aggregate, log) is None);
                        return Err(KeyStoreError::JsonError(self.path_for_event(id, v)));
                    }
                },
            }
        }
    }

    /// The aggregate rebuilt from its snapshot, or from its init event, and
    /// the events after it; `None` where neither is stored. A snapshot that
    /// does not parse is passed over. Nothing is written.
    pub fn get_aggregate<S: Storage, A: Aggregate>(&self, fs: &S, id: &String) -> (r: Result<Option<A>, KeyStoreError>)
        ensures
            r matches Ok(a) ==> self.loaded::<A>(fs.files(), id@) == Some(a),
            self.loaded::<A>(fs.files(), id@) is None ==> r is Err,
            r matches Err(KeyStoreError::InitError) ==> self.init_refused::<A>(fs.files(), id@),
            self.loaded::<A>(fs.files(), id@) matches Some(x) ==> (r matches Ok(a) && a == x),
            r matches Err(e) ==> e is IoError || self.loaded::<A>(fs.files(), id@) is None,
            self.init_refused::<A>(fs.files(), id@) ==> (r matches Err(KeyStoreError::InitError)
                || r matches Err(KeyStoreError::IoError(_))),
            self.loaded::<A>(fs.files(), id@) is None && !self.init_refused::<A>(fs.files(), id@) ==> (
            r matches Err(KeyStoreError::JsonError(_)) || r matches Err(KeyStoreError::IoError(_))),
    {
        let snapshot = match self.get(fs, id, &StoreKey::Snapshot) {
            Ok(Some(bytes)) => A::restore(&bytes),
            Ok(None) => None,
            Err(e) => return Err(e),
        };
        let mut aggregate = match snapshot {
            Some(a) => a,
            None => match self.get_event(fs, id, 0) {
                Err(e) => return Err(e),
                Ok(None) => return Ok(None),
                Ok(Some(event)) => match A::init(&event) {
                    Ok(a) => a,
                    Err(InitFailure::Unparsable) => return Err(
                        KeyStoreError::JsonError(self.path_for_event(id, 0)),
                    ),
                    Err(InitFailure::Rejected) => return Err(KeyStoreError::InitError),
                },
            },
        };
        match self.update_aggregate(fs, id, &mut aggregate) {
            Ok(()) => Ok(Some(aggregate)),
            Err(e) => Err(e),
        }
    }

    /// Stores the snapshot of an aggregate, replacing any earlier one.
    pub fn store_snapshot<S: Storage, A: Aggregate>(&self, fs: &mut S, id: &String, aggregate: &A) -> (r: Result<(), KeyStoreError>)
        ensures
            r is Ok ==> final(fs).files() == old(fs).files().insert(
                self.slot_path(id@, StoreKey::Snapshot),
                aggregate.snapshot(),
            ),
            r is Err ==> final(fs).files() == old(fs).files(),
    {
        let bytes = aggregate.to_snapshot();
        self.store(fs, id, &StoreKey::Snapshot, &bytes)
    }
}

/// What reading the file at `path` gives: nothing where it is absent, its
/// content where it is present.
pub open spec fn slot_read(
    files: Map<Seq<char>, Seq<u8>>,
    path: Seq<char>,
    r: Result<Option<Vec<u8>>, KeyStoreError>,
) -> bool {
    match r {
        Ok(None) => !files.contains_key(path),
        Ok(Some(b)) => files.contains_key(path) && b@ == files[path],
        Err(_) => false,
    }
}

/// What a write-once store of `bytes` at `path` may do: refuse where the
/// file exists and change nothing; else write it, or fail on I/O and change
/// nothing.
pub open spec fn slot_written(
    before: Map<Seq<char>, Seq<u8>>,
    after: Map<Seq<char>, Seq<u8>>,
    path: Seq<char>,
    bytes: Seq<u8>,
    r: Result<(), KeyStoreError>,
) -> bool {
    match r {
        Ok(()) => !before.contains_key(path) && after == before.insert(path, bytes),
        Err(e) => after == before && (if before.contains_key(path) {
            e is KeyExists
        } else {
            e is IoError
        }),
    }
}

/// A path names its last component: the same base with two different
/// components gives two different paths.
pub proof fn lemma_joined_injective(base: Seq<char>, a: Seq<char>, b: Seq<char>)
    requires
        joined(base, a) == joined(base, b),
    ensures
        a == b,
{
    let n = base.len() + 1;
    assert(a == joined(base, a).subrange(n as int, joined(base, a).len() as int));
    assert(b == joined(base, b).subrange(n as int, joined(base, b).len() as int));
}

impl DiskKeyStore {
    /// Two slots of one aggregate lie in two different files.
    pub proof fn lemma_slot_path_injective(&self, id: Seq<char>, a: StoreKey, b: StoreKey)
        requires
            self.slot_path(id, a) == self.slot_path(id, b),
        ensures
            a == b,
    {
        lemma_joined_injective(self.aggregate_dir(id), key_name(a), key_name(b));
        lemma_key_name_injective(a, b);
    }

    /// The versions of the stored events of an aggregate.
    pub open spec fn event_versions(&self, files: Map<Seq<char>, Seq<u8>>, id: Seq<char>) -> Set<u64> {
        Set::new(|v: u64| files.contains_key(self.slot_path(id, StoreKey::Event(v))))
    }

    /// Where the stored versions of an aggregate run from 0 with no gap, a
    /// successful store of the event that comes next keeps them so.
    pub proof fn lemma_events_stay_gapless(
        &self,
        before: Map<Seq<char>, Seq<u8>>,
        after: Map<Seq<char>, Seq<u8>>,
        id: Seq<char>,
        version: u64,
        payload: Seq<u8>,
    )
        requires
            self.event_versions(before, id) == Set::new(|v: u64| v < version),
            slot_written(
                before,
                after,
                self.slot_path(id, StoreKey::Event(version)),
                payload,
                Ok::<(), KeyStoreError>(()),
            ),
        ensures
            self.event_versions(after, id) == Set::new(|v: u64| v <= version),
    {
        assert forall|v: u64| #[trigger]
            self.event_versions(after, id).contains(v) <==> v <= version by {
            if self.slot_path(id, StoreKey::Event(v)) == self.slot_path(id, StoreKey::Event(version)) {
                self.lemma_slot_path_injective(id, StoreKey::Event(v), StoreKey::Event(version));
            }
            assert(self.event_versions(before, id).contains(v) <==> v < version);
        }
        assert(self.event_versions(after, id) =~= Set::new(|v: u64| v <= version));
    }

    /// Loading twice from the same files gives the same aggregate.
    pub proof fn lemma_load_deterministic<A: Aggregate>(
        &self,
        files: Map<Seq<char>, Seq<u8>>,
        id: Seq<char>,
        x: Option<A>,
        y: Option<A>,
    )
        requires
            self.loaded::<A>(files, id) == Some(x),
            self.loaded::<A>(files, id) == Some(y),
        ensures
            x == y,
    {
    }

    /// Storing as snapshot the aggregate just loaded loads the same
    /// aggregate again.
    pub proof fn lemma_snapshot_reloads<A: Aggregate>(
        &self,
        files: Map<Seq<char>, Seq<u8>>,
        id: Seq<char>,
        a: A,
    )
        requires
            self.loaded::<A>(files, id) == Some(Some(a)),
        ensures
            self.loaded::<A>(files.insert(self.slot_path(id, StoreKey::Snapshot), a.snapshot()), id)
                == Some(Some(a)),
    {
        let snap = self.slot_path(id, StoreKey::Snapshot);
        let after = files.insert(snap, a.snapshot());
        a.lemma_snapshot_restores();
        self.lemma_snapshot_leaves_log(files, id, a.snapshot());
        let log = self.event_log(files, id);
        let base = match self.snapshot_in(files, id) {
            Some(s) => A::restored(s),
            None => None,
        };
        match base {
            Some(b) => lemma_replay_settled(b, log, a),
            None => lemma_replay_settled(A::initialised(log[0])->Ok_0, log, a),
        }
        assert(self.snapshot_in(after, id) == Some(a.snapshot()));
    }

    /// A snapshot that does not parse is passed over: loading gives what the
    /// events alone give.
    pub proof fn lemma_corrupt_snapshot_ignored<A: Aggregate>(
        &self,
        files: Map<Seq<char>, Seq<u8>>,
        id: Seq<char>,
        corrupt: Seq<u8>,
    )
        requires
            A::restored(corrupt) is None,
        ensures
            self.loaded::<A>(files.insert(self.slot_path(id, StoreKey::Snapshot), corrupt), id)
                == self.loaded::<A>(files.remove(self.slot_path(id, StoreKey::Snapshot)), id),
    {
        let snap = self.slot_path(id, StoreKey::Snapshot);
        self.lemma_snapshot_leaves_log(files, id, corrupt);
        self.lemma_snapshot_leaves_log_removed(files, id);
        assert(!files.remove(snap).contains_key(snap));
    }

    proof fn lemma_snapshot_leaves_log(&self, files: Map<Seq<char>, Seq<u8>>, id: Seq<char>, bytes: Seq<u8>)
        ensures
            self.event_log(files.insert(self.slot_path(id, StoreKey::Snapshot), bytes), id)
                == self.event_log(files, id),
    {
        let snap = self.slot_path(id, StoreKey::Snapshot);
        assert forall|v: u64| self.slot_path(id, StoreKey::Event(v)) != snap by {
            if self.slot_path(id, StoreKey::Event(v)) == snap {
                self.lemma_slot_path_injective(id, StoreKey::Event(v), StoreKey::Snapshot);
            }
        }
        assert(self.event_log(files.insert(snap, bytes), id) =~= self.event_log(files, id));
    }

    proof fn lemma_snapshot_leaves_log_removed(&self, files: Map<Seq<char>, Seq<u8>>, id: Seq<char>)
        ensures
            self.event_log(files.remove(self.slot_path(id, StoreKey::Snapshot)), id)
                == self.event_log(files, id),
    {
        let snap = self.slot_path(id, StoreKey::Snapshot);
        assert forall|v: u64| self.slot_path(id, StoreKey::Event(v)) != snap by {
            if self.slot_path(id, StoreKey::Event(v)) == snap {
                self.lemma_slot_path_injective(id, StoreKey::Event(v), StoreKey::Snapshot);
            }
        }
        assert(self.event_log(files.remove(snap), id) =~= self.event_log(files, id));
    }

    /// Storing an event a second time under the same handle and version is
    /// refused with `KeyExists`, and the stored files stay as they were.
    pub proof fn lemma_duplicate_event_refused(
        &self,
        first: Map<Seq<char>, Seq<u8>>,
        stored: Map<Seq<char>, Seq<u8>>,
        last: Map<Seq<char>, Seq<u8>>,
        id: Seq<char>,
        version: u64,
        payload: Seq<u8>,
        again: Seq<u8>,
        r: Result<(), KeyStoreError>,
    )
        requires
            slot_written(
                first,
                stored,
                self.slot_path(id, StoreKey::Event(version)),
                payload,
                Ok::<(), KeyStoreError>(()),
            ),
            slot_written(stored, last, self.slot_path(id, StoreKey::Event(version)), again, r),
        ensures
            r matches Err(e) && e is KeyExists,
            last == stored,
    {
    }
}

} // verus!
