//! The notebook kept next to the index: for every file indexed, its
//! modification time, its Maildir flag suffix and its message id.

use vstd::prelude::*;
use crate::string_map::StringMap;
use crate::text::str_eq;
use crate::setup::{path_join, join_path};

verus! {

/// What is remembered of one indexed file.
#[derive(Debug)]
pub struct FileMeta {
    pub mtime: u64,
    /// The Maildir flag suffix the file had.
    pub flags: String,
    /// The message id it was indexed under.
    pub message_id: String,
}

impl FileMeta {
    /// A field-by-field copy.
    pub fn copy(&self) -> (r: Self)
        ensures
            r == *self,
    {
        FileMeta { mtime: self.mtime, flags: self.flags.clone(), message_id: self.message_id.clone() }
    }
}

impl Default for FileMeta {
    fn default() -> (r: Self)
        ensures
            r.mtime == 0,
            r.flags@ == Seq::<char>::empty(),
            r.message_id@ == Seq::<char>::empty(),
    {
        FileMeta { mtime: 0, flags: String::new(), message_id: String::new() }
    }
}

/// Where the notebook lives inside the index directory.
pub open spec fn meta_file(index_dir: Seq<char>) -> Seq<char> {
    path_join(index_dir, "hamster_meta.json"@)
}

/// A file must be indexed again when it is new, or its modification time
/// or its flags changed.
pub open spec fn reindex_needed(states: Map<Seq<char>, FileMeta>, path: Seq<char>, mtime: u64, flags: Seq<char>) -> bool {
    !states.dom().contains(path) || states[path].mtime != mtime || states[path].flags@ != flags
}

/// The notebook: when the last run finished, and the state of each file.
pub struct IndexMeta {
    pub last_indexed: u64,
    pub file_states: StringMap<FileMeta>,
}

impl IndexMeta {
    pub open spec fn wf(&self) -> bool {
        self.file_states.wf()
    }

    pub fn new() -> (r: Self)
        ensures
            r.wf(),
            r.last_indexed == 0,
            r.file_states@ == Map::<Seq<char>, FileMeta>::empty(),
    {
        IndexMeta { last_indexed: 0, file_states: StringMap::new() }
    }

    /// The notebook file inside `index_dir`.
    pub fn meta_path(index_dir: &str) -> (r: String)
        ensures
            r@ == meta_file(index_dir@),
    {
        join_path(index_dir, "hamster_meta.json")
    }

    /// Whether a file is new, modified, or its flags changed.
    pub fn needs_reindex(&self, path: &str, mtime: u64, flags: &str) -> (r: bool)
        requires
            self.wf(),
        ensures
            r == reindex_needed(self.file_states@, path@, mtime, flags@),
    {
        match self.file_states.get(path) {
            None => true,
            Some(prev) => prev.mtime != mtime || !str_eq(prev.flags.as_str(), flags),
        }
    }
}

impl Default for IndexMeta {
    fn default() -> (r: Self)
        ensures
            r.wf(),
            r.last_indexed == 0,
            r.file_states@ == Map::<Seq<char>, FileMeta>::empty(),
    {
        IndexMeta::new()
    }
}

} // verus!
