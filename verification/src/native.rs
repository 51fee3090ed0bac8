//! The local-disk backend core. The OS performs the actual reads and
//! writes; this module decides, verified, which on-disk path each
//! operation touches, which kind of call it makes, and how the metadata
//! the OS reports is normalized into the shared record.

use vstd::prelude::*;

use crate::capability::Provider;
use crate::filesystem::File;
use crate::filesystem::FileType;
use crate::filesystem::Metadata;
use crate::filesystem::ObjectId;
use crate::filesystem::Permissions;
use crate::filesystem::User;
use crate::filesystem::UserId;
use crate::objectstore::directory_requested;
use crate::objectstore::is_directory_descriptor;
use crate::paths::child_path;
use crate::paths::child_path_of;
use crate::paths::last_segment;
use crate::paths::last_segment_of;
use crate::paths::renamed_path;
use crate::paths::renamed_path_of;
use crate::paths::strip_prefix_of;

verus! {

/// The local-disk backend: objects are addressed by paths relative to a
/// configured root directory.
#[derive(Debug, Clone, PartialEq, Eq)]
pub struct NativeFs {
    pub root: String,
}

/// What the OS reports about one on-disk object, as plain values:
/// kind flags, Unix ownership and mode, size, and timestamps in seconds
/// since the Unix epoch (absent where the filesystem does not track them).
#[derive(Debug, Clone, PartialEq, Eq)]
pub struct RawMetadata {
    pub is_dir: bool,
    pub is_symlink: bool,
    pub uid: u32,
    pub gid: u32,
    pub mode: u32,
    pub size: u64,
    pub created: Option<i64>,
    pub modified: Option<i64>,
    pub meta_changed: Option<i64>,
    pub accessed: Option<i64>,
}

/// One directory entry as the OS reports it: the full on-disk path, the
/// entry's file name, and its metadata.
#[derive(Debug, Clone, PartialEq, Eq)]
pub struct RawDirEntry {
    pub full_path: String,
    pub name: String,
    pub meta: RawMetadata,
}

/// The kind of an on-disk object: directories first, then symlinks,
/// everything else a plain file.
pub open spec fn native_file_type(m: RawMetadata) -> FileType {
    if m.is_dir {
        FileType::Directory
    } else if m.is_symlink {
        FileType::Symlink
    } else {
        FileType::File
    }
}

/// The normalized metadata of one directory entry: timestamps and size as
/// reported, Unix ownership and mode bits, no MIME guess and no open
/// path.
pub open spec fn native_entry_metadata(m: RawMetadata) -> Metadata {
    Metadata {
        mime_type: None,
        open_path: None,
        modified_at: m.modified,
        created_at: m.created,
        meta_changed_at: m.meta_changed,
        accessed_at: m.accessed,
        size: Some(m.size),
        owner: Some(User { id: UserId::UserAndGroup(m.uid, m.gid), name: None }),
        permissions: Some(Permissions::Unix(m.mode)),
    }
}

/// The backend-relative path of an entry: its full path with the root
/// stripped; an entry outside the root keeps its full path.
pub open spec fn native_entry_path(root: Seq<char>, full: Seq<char>) -> Seq<char> {
    if root.is_prefix_of(full) {
        full.skip(root.len() as int)
    } else {
        full
    }
}

/// What the normalized entry for `e` under `root` must hold.
pub open spec fn native_entry_ok(root: Seq<char>, e: RawDirEntry, f: File) -> bool {
    &&& f.id@ == (native_entry_path(root, e.full_path@), native_file_type(e.meta))
    &&& f.name@ == e.name@
    &&& f.metadata == Some(native_entry_metadata(e.meta))
}

impl NativeFs {
    pub fn new(root: String) -> (r: NativeFs)
        ensures
            r == (NativeFs { root }),
            r.root@ == root@,
    {
        NativeFs { root }
    }

    /// The on-disk path of an object: the configured root followed by the
    /// object's backend-relative path.
    pub fn full_path(&self, object_id: &ObjectId) -> (r: String)
        ensures
            r@ == self.root@ + object_id@.0,
    {
        let mut r = self.root.clone();
        r.append(object_id.as_str());
        r
    }

    /// Where `rename` moves an object: the source and target on-disk
    /// paths, and the id of the renamed object (only its last path segment
    /// changes).
    pub fn rename_paths(&self, object_id: &ObjectId, new_name: &str) -> (r: (
        String,
        String,
        ObjectId,
    ))
        ensures
            r.0@ == self.root@ + object_id@.0,
            r.1@ == self.root@ + renamed_path(object_id@.0, new_name@),
            r.2@ == (renamed_path(object_id@.0, new_name@), object_id@.1),
    {
        let from = self.full_path(object_id);
        let relative = renamed_path_of(object_id.as_str(), new_name);
        let mut to = self.root.clone();
        to.append(relative.as_str());
        let new_id = ObjectId::new(relative, object_id.file_type());
        (from, to, new_id)
    }

    /// Where `move_to` puts an object: the source and target on-disk
    /// paths, and the id of the moved object, which keeps its name under
    /// the new parent directory.
    pub fn move_paths(&self, object_id: &ObjectId, new_parent_id: &ObjectId) -> (r: (
        String,
        String,
        ObjectId,
    ))
        ensures
            r.0@ == self.root@ + object_id@.0,
            r.1@ == self.root@ + child_path(new_parent_id@.0, last_segment(object_id@.0)),
            r.2@ == (child_path(new_parent_id@.0, last_segment(object_id@.0)), object_id@.1),
    {
        let from = self.full_path(object_id);
        let name = last_segment_of(object_id.as_str());
        let relative = child_path_of(new_parent_id.as_str(), name.as_str());
        let mut to = self.root.clone();
        to.append(relative.as_str());
        let new_id = ObjectId::new(relative, object_id.file_type());
        (from, to, new_id)
    }

    /// What `create` does for a descriptor: make a directory when the
    /// descriptor asks for one (a `"directory"` MIME hint or a directory
    /// type tag), otherwise create an empty file, both at the child's
    /// on-disk path under the parent.
    pub fn create_plan(&self, parent_id: &ObjectId, file: &File) -> (r: (bool, String))
        ensures
            r.0 == directory_requested(*file),
            r.1@ == self.root@ + child_path(parent_id@.0, file.name@),
    {
        let relative = child_path_of(parent_id.as_str(), file.name.as_str());
        let mut path = self.root.clone();
        path.append(relative.as_str());
        (is_directory_descriptor(file), path)
    }

    /// The on-disk path a symlink is created at, and the id of the new
    /// link under its parent.
    pub fn link_paths(&self, parent_id: &ObjectId, name: &str) -> (r: (String, ObjectId))
        ensures
            r.0@ == self.root@ + child_path(parent_id@.0, name@),
            r.1@ == (child_path(parent_id@.0, name@), FileType::Symlink),
    {
        let relative = child_path_of(parent_id.as_str(), name);
        let mut path = self.root.clone();
        path.append(relative.as_str());
        let id = ObjectId::new(relative, FileType::Symlink);
        (path, id)
    }

    /// Normalize the metadata record of one object, answering a direct
    /// metadata query: the on-disk path is reported as the openable path.
    pub fn metadata_from_raw(&self, object_id: &ObjectId, m: &RawMetadata) -> (r: Metadata)
        ensures
            r.mime_type is None,
            r.open_path matches Some(p) && p@ == self.root@ + object_id@.0,
            r.modified_at == m.modified,
            r.created_at == m.created,
            r.meta_changed_at == m.meta_changed,
            r.accessed_at == m.accessed,
            r.size == Some(m.size),
            r.owner == Some(User { id: UserId::UserAndGroup(m.uid, m.gid), name: None }),
            r.permissions == Some(Permissions::Unix(m.mode)),
    {
        let mut md = self.metadata_of_entry(m);
        md.open_path = Some(self.full_path(object_id));
        md
    }

    /// Normalize the metadata of one directory entry.
    fn metadata_of_entry(&self, m: &RawMetadata) -> (r: Metadata)
        ensures
            r == native_entry_metadata(*m),
    {
        Metadata {
            mime_type: None,
            open_path: None,
            modified_at: m.modified,
            created_at: m.created,
            meta_changed_at: m.meta_changed,
            accessed_at: m.accessed,
            size: Some(m.size),
            owner: Some(User { id: UserId::UserAndGroup(m.uid, m.gid), name: None }),
            permissions: Some(Permissions::Unix(m.mode)),
        }
    }

    /// Normalize a directory listing: one entry per object the OS
    /// reported, each under its backend-relative path with its kind and
    /// metadata.
    pub fn files_from_entries(&self, entries: &Vec<RawDirEntry>) -> (r: Vec<File>)
        ensures
            r@.len() == entries@.len(),
            forall|i: int|
                #![auto]
                0 <= i < entries@.len() ==> native_entry_ok(self.root@, entries@[i], r@[i]),
    {
        let n = entries.len();
        let mut r: Vec<File> = Vec::new();
        let mut i: usize = 0;
        while i < n
            invariant
                0 <= i <= n,
                n == entries@.len(),
                r@.len() == i,
                forall|j: int|
                    #![auto]
                    0 <= j < i ==> native_entry_ok(self.root@, entries@[j], r@[j]),
            decreases n - i,
        {
            let e = &entries[i];
            let rel = match strip_prefix_of(e.full_path.as_str(), self.root.as_str()) {
                Some(s) => s,
                None => e.full_path.clone(),
            };
            let ft = if e.meta.is_dir {
                FileType::Directory
            } else if e.meta.is_symlink {
                FileType::Symlink
            } else {
                FileType::File
            };
            let md = self.metadata_of_entry(&e.meta);
            let f = File { id: ObjectId::new(rel, ft), name: e.name.clone(), metadata: Some(md) };
            r.push(f);
            i += 1;
        }
        r
    }
}

impl Provider for NativeFs {
    open spec fn filesystem_capable(&self) -> bool {
        true
    }

    open spec fn trash_capable(&self) -> bool {
        true
    }

    fn as_filesystem(&self) -> (r: Option<&Self>) {
        Some(self)
    }

    fn as_trash(&self) -> (r: Option<&Self>) {
        Some(self)
    }
}

} // verus!
