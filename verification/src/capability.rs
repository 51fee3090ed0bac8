//! Capability probing: a provider instance advertises the capabilities it
//! supports through accessors that return the instance itself, or nothing.
//! Callers ask "does this provider support X" instead of knowing the
//! concrete backend type.

use vstd::prelude::*;

use crate::filesystem::FsError;
use crate::filesystem::ObjectId;

verus! {

/// A configured backend instance, seen only through its capabilities.
pub trait Provider: Sized {
    /// Whether this instance can serve filesystem operations.
    spec fn filesystem_capable(&self) -> bool;

    /// Whether this instance can move objects to a recoverable trash.
    spec fn trash_capable(&self) -> bool;

    /// The filesystem capability, if this backend supports it.
    fn as_filesystem(&self) -> (r: Option<&Self>)
        ensures
            r is Some <==> self.filesystem_capable(),
            r is Some ==> r == Some(self);

    /// The trash capability, if this backend supports it. A backend with no
    /// trash concept returns `None` rather than failing later.
    fn as_trash(&self) -> (r: Option<&Self>)
        ensures
            r is Some <==> self.trash_capable(),
            r is Some ==> r == Some(self);
}

/// The trash capability: move an object to a recoverable trash instead of
/// deleting it permanently.
pub trait Trash: Sized {
    /// Validity of the backend's state; constructors establish it and
    /// every operation preserves it.
    spec fn trash_inv(&self) -> bool;

    /// The live objects of the backend, by key.
    spec fn trash_live(&self) -> Map<Seq<char>, Seq<u8>>;

    /// What has been sent to the trash so far, oldest first.
    spec fn trash_contents(&self) -> Seq<(Seq<char>, Seq<u8>)>;

    /// Move `object_id` from the live store to the trash. Nothing is ever
    /// dropped: a success moves exactly the addressed object, a failure
    /// leaves both sides unchanged.
    fn send_to_trash(&mut self, object_id: &ObjectId) -> (r: Result<(), FsError>)
        requires
            old(self).trash_inv(),
        ensures
            final(self).trash_inv(),
            match r {
                Ok(()) => old(self).trash_live().contains_key(object_id@.0)
                    && final(self).trash_live() == old(self).trash_live().remove(object_id@.0)
                    && final(self).trash_contents() == old(self).trash_contents().push(
                    (object_id@.0, old(self).trash_live()[object_id@.0]),
                ),
                Err(e) => final(self).trash_live() == old(self).trash_live()
                    && final(self).trash_contents() == old(self).trash_contents() && (e
                    == FsError::NotFound ==> !old(self).trash_live().contains_key(object_id@.0)),
            };
}

} // verus!
