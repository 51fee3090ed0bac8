//! The normalized object model: typed identifiers for backend objects.

use vstd::prelude::*;

verus! {

/// The kind of object an identifier points at. Backends that only know MIME
/// types report a directory MIME type as `Directory` and anything else as
/// `File`.
#[derive(Debug, Clone, Copy, PartialEq, Eq, Structural)]
pub enum FileType {
    Directory,
    File,
    Symlink,
}

/// Normalized address of an object inside one backend: an opaque
/// backend-relative path (or item id) together with the object's kind.
/// An empty path always denotes the backend's root directory.
#[derive(Debug, Clone, PartialEq, Eq)]
pub struct ObjectId {
    path: String,
    file_type: FileType,
}

impl View for ObjectId {
    type V = (Seq<char>, FileType);

    closed spec fn view(&self) -> (Seq<char>, FileType) {
        (self.path@, self.file_type)
    }
}

impl ObjectId {
    pub fn new(path: String, file_type: FileType) -> (r: ObjectId)
        ensures
            r@ == (path@, file_type),
    {
        ObjectId { path, file_type }
    }

    /// The backend's root directory: the empty path.
    pub fn root() -> (r: ObjectId)
        ensures
            r@.0 == Seq::<char>::empty(),
            r@.1 == FileType::Directory,
    {
        ObjectId { path: String::new(), file_type: FileType::Directory }
    }

    pub fn directory(path: String) -> (r: ObjectId)
        ensures
            r@ == (path@, FileType::Directory),
    {
        ObjectId { path, file_type: FileType::Directory }
    }

    pub fn plain_text(path: String) -> (r: ObjectId)
        ensures
            r@ == (path@, FileType::File),
    {
        ObjectId { path, file_type: FileType::File }
    }

    /// The path rendered as the backend query key.
    pub fn as_str(&self) -> (r: &str)
        ensures
            r@ == self@.0,
    {
        self.path.as_str()
    }

    pub fn file_type(&self) -> (r: FileType)
        ensures
            r == self@.1,
    {
        self.file_type
    }

    pub fn is_directory(&self) -> (r: bool)
        ensures
            r == (self@.1 == FileType::Directory),
    {
        match self.file_type {
            FileType::Directory => true,
            _ => false,
        }
    }
}

/// The error taxonomy every backend reports through. Adapters translate
/// backend-specific failures into these kinds at the adapter boundary.
#[derive(Debug, Clone, Copy, PartialEq, Eq, Structural)]
pub enum FsError {
    /// The object id does not resolve.
    NotFound,
    /// The operation requires a directory and the id denotes a file.
    NotADirectory,
    /// The operation requires a file and the id denotes a directory.
    NotAFile,
    /// No valid credential is held and interactive authorization is needed.
    AuthRequired,
    /// The backend rejected the current access credential.
    AuthExpired,
    /// The backend does not implement this capability.
    Unsupported,
    /// The destination already exists or a precondition failed.
    Conflict,
    /// A network or backend-side failure unrelated to authorization.
    Transport,
    /// An unknown provider id was passed to the registry.
    ProviderNotFound,
}

/// Ownership as a backend reports it.
#[derive(Debug, Clone, PartialEq, Eq)]
pub enum UserId {
    UserAndGroup(u32, u32),
    UniqueId(String),
    NotApplicable,
}

#[derive(Debug, Clone, PartialEq, Eq)]
pub struct User {
    pub id: UserId,
    pub name: Option<String>,
}

#[derive(Debug, Clone, PartialEq, Eq)]
pub enum Permissions {
    Unix(u32),
}

/// Backend-sparse metadata record. Every field is independently optional:
/// absence means "unknown", never "zero". Timestamps are seconds since the
/// Unix epoch.
#[derive(Debug, Clone, PartialEq, Eq)]
pub struct Metadata {
    pub mime_type: Option<String>,
    pub open_path: Option<String>,
    pub modified_at: Option<i64>,
    pub created_at: Option<i64>,
    pub meta_changed_at: Option<i64>,
    pub accessed_at: Option<i64>,
    pub size: Option<u64>,
    pub owner: Option<User>,
    pub permissions: Option<Permissions>,
}

impl Metadata {
    /// A record with every field unknown.
    pub fn unknown() -> (r: Metadata)
        ensures
            r.mime_type is None,
            r.open_path is None,
            r.modified_at is None,
            r.created_at is None,
            r.meta_changed_at is None,
            r.accessed_at is None,
            r.size is None,
            r.owner is None,
            r.permissions is None,
    {
        Metadata {
            mime_type: None,
            open_path: None,
            modified_at: None,
            created_at: None,
            meta_changed_at: None,
            accessed_at: None,
            size: None,
            owner: None,
            permissions: None,
        }
    }
}

impl Default for Metadata {
    /// A record with every field unknown.
    fn default() -> (r: Metadata)
        ensures
            r.mime_type is None,
            r.open_path is None,
            r.modified_at is None,
            r.created_at is None,
            r.meta_changed_at is None,
            r.accessed_at is None,
            r.size is None,
            r.owner is None,
            r.permissions is None,
    {
        Metadata::unknown()
    }
}

/// A directory entry as every backend reports it: the normalized id, the
/// name the backend shows, and whatever metadata it supplied.
#[derive(Debug, Clone, PartialEq, Eq)]
pub struct File {
    pub id: ObjectId,
    pub name: String,
    pub metadata: Option<Metadata>,
}

} // verus!
