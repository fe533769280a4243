//! Storage-facing records: read warnings, collections read with warnings,
//! the file-storage handle and the keys of per-resource locks.
use vstd::prelude::*;
use crate::text::{concat_str, strs};

verus! {

/// A file that could not be read while listing a collection.
#[derive(Debug, Clone, PartialEq, Eq)]
pub struct StorageReadWarning {
    pub collection: String,
    pub path: String,
    pub error: String,
}

pub open spec fn warning_note(w: StorageReadWarning) -> Seq<char> {
    "skipped unreadable "@ + w.collection@ + " file: "@ + w.path@ + " ("@ + w.error@ + ")"@
}

impl StorageReadWarning {
    /// `skipped unreadable {collection} file: {path} ({error})`.
    pub fn note(&self) -> (r: String)
        ensures
            r@ == warning_note(*self),
    {
        let mut s = String::new();
        s.append("skipped unreadable ");
        s.append(self.collection.as_str());
        s.append(" file: ");
        s.append(self.path.as_str());
        s.append(" (");
        s.append(self.error.as_str());
        s.append(")");
        s
    }
}

/// The items of a collection together with the files that were skipped.
#[derive(Debug, Clone, PartialEq)]
pub struct StorageCollection<T> {
    pub items: Vec<T>,
    pub warnings: Vec<StorageReadWarning>,
}

impl<T> StorageCollection<T> {
    /// A collection read without warnings.
    pub fn clean(items: Vec<T>) -> (r: Self)
        ensures
            r.items@ == items@,
            r.warnings@.len() == 0,
    {
        StorageCollection { items, warnings: Vec::new() }
    }

    /// The items, warnings dropped.
    pub fn into_items(self) -> (r: Vec<T>)
        ensures
            r@ == self.items@,
    {
        self.items
    }
}

/// The notes of read warnings, in order.
pub fn storage_warning_notes(warnings: &Vec<StorageReadWarning>) -> (r: Vec<String>)
    ensures
        strs(r@) == warnings@.map_values(|w: StorageReadWarning| warning_note(w)),
{
    let mut out: Vec<String> = Vec::new();
    let mut i: usize = 0;
    while i < warnings.len()
        invariant
            i <= warnings@.len(),
            strs(out@) == warnings@.take(i as int).map_values(|w: StorageReadWarning| warning_note(w)),
        decreases warnings@.len() - i,
    {
        let n = warnings[i].note();
        let ghost prev = out@;
        let ghost nv = n@;
        out.push(n);
        assert(strs(out@) =~= strs(prev).push(nv));
        assert(warnings@.take(i + 1) =~= warnings@.take(i as int).push(warnings@[i as int]));
        assert(warnings@.take(i + 1).map_values(|w: StorageReadWarning| warning_note(w))
            =~= warnings@.take(i as int).map_values(|w: StorageReadWarning| warning_note(w)).push(nv));
        i = i + 1;
    }
    assert(warnings@.take(warnings@.len() as int) =~= warnings@);
    out
}

// ---------------------------------------------------------------- file storage handle

#[verifier::external_type_specification]
#[verifier::external_body]
pub struct ExPathBuf(std::path::PathBuf);

/// Where a file-backed store keeps its memory, and which host writes it.
#[derive(Debug)]
pub struct FileStorage {
    root: std::path::PathBuf,
    host_id: String,
}

impl FileStorage {
    pub closed spec fn root_spec(self) -> std::path::PathBuf {
        self.root
    }

    pub closed spec fn host_spec(self) -> Seq<char> {
        self.host_id@
    }

    /// A store under `root` written by an unknown host.
    pub fn new(root: std::path::PathBuf) -> (r: Self)
        ensures
            r.root_spec() == root,
            r.host_spec() == "unknown"@,
    {
        FileStorage { root, host_id: "unknown".to_owned() }
    }

    /// A store under `root` written by `host_id`.
    pub fn with_host_id(root: std::path::PathBuf, host_id: String) -> (r: Self)
        ensures
            r.root_spec() == root,
            r.host_spec() == host_id@,
    {
        FileStorage { root, host_id }
    }

    /// The store's root directory.
    pub fn root(&self) -> (r: &std::path::PathBuf)
        ensures
            *r == self.root_spec(),
    {
        &self.root
    }

    /// The host recorded in new session files.
    pub fn host_id(&self) -> (r: &str)
        ensures
            r@ == self.host_spec(),
    {
        self.host_id.as_str()
    }
}

// ---------------------------------------------------------------- lock keys

/// Key of the lock that serializes work on one session.
pub fn session_lock_key(session_id: &str) -> (r: String)
    ensures
        r@ == "session:"@ + session_id@,
{
    concat_str("session:", session_id)
}

/// Key of the lock of one Core Store category.
pub fn core_lock_key(category: &str) -> (r: String)
    ensures
        r@ == "core:"@ + category@,
{
    concat_str("core:", category)
}

/// Key of the lock of one archive entry.
pub fn archive_lock_key(archive_id: &str) -> (r: String)
    ensures
        r@ == "archive:"@ + archive_id@,
{
    concat_str("archive:", archive_id)
}

/// Key of the lock of one candidate belief.
pub fn candidate_lock_key(candidate_id: &str) -> (r: String)
    ensures
        r@ == "candidate:"@ + candidate_id@,
{
    concat_str("candidate:", candidate_id)
}

/// Keys of different kinds never collide: each kind has its own prefix,
/// and none of the prefixes extends another.
pub proof fn lemma_lock_keys_distinct(a: Seq<char>, b: Seq<char>)
    ensures
        "session:"@ + a != "core:"@ + b,
        "session:"@ + a != "archive:"@ + b,
        "core:"@ + a != "archive:"@ + b,
        "core:"@ + a != "candidate:"@ + b,
        "archive:"@ + a != "candidate:"@ + b,
        "session:"@ + a != "candidate:"@ + b,
{
    reveal_strlit("session:");
    reveal_strlit("core:");
    reveal_strlit("archive:");
    reveal_strlit("candidate:");
    assert(("session:"@ + a)[0] != ("core:"@ + b)[0]);
    assert(("session:"@ + a)[0] != ("archive:"@ + b)[0]);
    assert(("core:"@ + a)[1] != ("archive:"@ + b)[1]);
    assert(("core:"@ + a)[1] != ("candidate:"@ + b)[1]);
    assert(("archive:"@ + a)[0] != ("candidate:"@ + b)[0]);
    assert(("session:"@ + a)[0] != ("candidate:"@ + b)[0]);
}

} // verus!
