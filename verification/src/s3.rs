//! The object-store (S3-compatible) adapter core. The bucket calls happen
//! outside; this module decides, verified, which keys each operation
//! addresses, how a copy-then-delete move is settled, and how a raw
//! bucket listing is turned into the pseudo-directory entries of a query
//! prefix.

use vstd::prelude::*;

use crate::capability::Provider;
use crate::filesystem::File;
use crate::filesystem::FileType;
use crate::filesystem::FsError;
use crate::filesystem::Metadata;
use crate::filesystem::ObjectId;
use crate::objectstore::child_entry;
use crate::objectstore::is_child_key;
use crate::objectstore::listing_prefix;
use crate::objectstore::listing_prefix_of;
use crate::paths::find_first_slash;
use crate::paths::first_segment;
use crate::paths::has_subpath;
use crate::paths::lemma_first_slash_properties;
use crate::paths::renamed_path;
use crate::paths::renamed_path_of;
use crate::paths::str_equal;
use crate::paths::strip_leading_slash;
use crate::paths::strip_prefix_of;
use crate::time::rfc3339_seconds;
use crate::time::parse_rfc3339_seconds;

verus! {

/// Credentials of one S3-compatible endpoint.
#[derive(Debug, Clone, PartialEq, Eq)]
pub struct S3Credentials {
    pub region: String,
    pub endpoint: String,
    pub access_key: String,
    pub secret_key: String,
}

/// One configured S3-compatible backend instance: a bucket behind an
/// endpoint.
#[derive(Debug, Clone, PartialEq, Eq)]
pub struct S3 {
    pub credentials: S3Credentials,
    pub bucket: String,
}

impl S3 {
    pub fn new(bucket: String, credentials: S3Credentials) -> (r: S3)
        ensures
            r.bucket == bucket,
            r.credentials == credentials,
    {
        S3 { credentials, bucket }
    }
}

impl Provider for S3 {
    open spec fn filesystem_capable(&self) -> bool {
        true
    }

    /// An object store has no native trash: the capability is not
    /// advertised.
    open spec fn trash_capable(&self) -> bool {
        false
    }

    fn as_filesystem(&self) -> (r: Option<&Self>) {
        Some(self)
    }

    fn as_trash(&self) -> (r: Option<&Self>) {
        None
    }
}

/// One object as a bucket listing reports it: its key, its last-modified
/// instant as an RFC 3339 string, and its size in bytes.
#[derive(Debug, Clone, PartialEq, Eq)]
pub struct RawObject {
    pub key: String,
    pub last_modified: String,
    pub size: u64,
}

/// A key as the bucket addresses it: object ids may carry a leading `/`,
/// keys never do.
pub open spec fn bucket_key(p: Seq<char>) -> Seq<char> {
    if p.len() > 0 && p[0] == '/' {
        p.skip(1)
    } else {
        p
    }
}

/// Exec counterpart of [`bucket_key`].
pub fn bucket_key_of(p: &str) -> (r: String)
    ensures
        r@ == bucket_key(p@),
{
    strip_leading_slash(p)
}

/// The source and destination keys of a rename, performed on the bucket
/// as copy-then-delete: the object keeps its place and only the last
/// segment changes.
pub fn rename_keys(object_id: &ObjectId, new_name: &str) -> (r: (String, String))
    ensures
        r.0@ == bucket_key(object_id@.0),
        r.1@ == renamed_path(bucket_key(object_id@.0), bucket_key(new_name@)),
{
    let src = bucket_key_of(object_id.as_str());
    let stripped = bucket_key_of(new_name);
    let dst = renamed_path_of(src.as_str(), stripped.as_str());
    (src, dst)
}

/// Settle a copy-then-delete move from what the two bucket calls
/// reported: a failed copy leaves the source untouched and is a transport
/// failure; a failed delete after a successful copy leaves both objects
/// present and is reported as a conflict, never ignored.
pub fn settle_copy_then_delete(copy_ok: bool, delete_ok: bool, new_id: ObjectId) -> (r: Result<
    ObjectId,
    FsError,
>)
    ensures
        match r {
            Ok(id) => copy_ok && delete_ok && id == new_id,
            Err(e) => (!copy_ok && e == FsError::Transport) || (copy_ok && !delete_ok && e
                == FsError::Conflict),
        },
{
    if !copy_ok {
        Err(FsError::Transport)
    } else if !delete_ok {
        Err(FsError::Conflict)
    } else {
        Ok(new_id)
    }
}

/// The pseudo-directory entries the raw objects contribute under prefix
/// `p`: each key below the prefix yields its first segment, a directory
/// when the key reaches deeper.
pub open spec fn raw_entry_set(objs: Seq<RawObject>, p: Seq<char>) -> Set<(Seq<char>, bool)> {
    Set::new(
        |e: (Seq<char>, bool)|
            exists|i: int|
                #![auto]
                0 <= i < objs.len() && is_child_key(objs[i].key@, p) && child_entry(objs[i].key@, p)
                    == e,
    )
}

/// Whether the listing `files` shows entry `e`.
pub open spec fn shows_pair(files: Seq<File>, e: (Seq<char>, bool)) -> bool {
    exists|i: int|
        #![auto]
        0 <= i < files.len() && files[i].name@ == e.0 && ((files[i].id@.1 == FileType::Directory)
            == e.1)
}

/// What one listing entry must hold: it is an entry some raw object
/// contributes, its id is the prefixed name with the right type tag, its
/// MIME hint tells files from directories, and a file entry carries the
/// size and parsed last-modified instant of a contributing object.
pub open spec fn raw_listing_entry_ok(objs: Seq<RawObject>, p: Seq<char>, f: File) -> bool {
    let name = f.name@;
    let d = (f.id@.1 == FileType::Directory);
    &&& raw_entry_set(objs, p).contains((name, d))
    &&& f.id@.0 == p + name
    &&& (f.id@.1 == FileType::Directory || f.id@.1 == FileType::File)
    &&& match f.metadata {
        Some(md) => {
            &&& md.open_path is None
            &&& md.created_at is None
            &&& md.meta_changed_at is None
            &&& md.accessed_at is None
            &&& md.owner is None
            &&& md.permissions is None
            &&& if d {
                (md.mime_type matches Some(s) && s@ == "directory"@) && md.size is None
                    && md.modified_at is None
            } else {
                (md.mime_type matches Some(s) && s@ == "file"@) && exists|i: int|
                    #![auto]
                    0 <= i < objs.len() && objs[i].key@ == p + name && md.size == Some(objs[i].size)
                        && md.modified_at == rfc3339_seconds(objs[i].last_modified@)
            }
        },
        None => false,
    }
}

/// Turn a raw bucket listing into the pseudo-directory entries of a
/// directory id: keys below the prefix are grouped by their first
/// segment, names are stripped of the prefix, and no entry repeats even
/// when several keys share a pseudo-directory.
pub fn list_folder_entries(objects: &Vec<RawObject>, object_id: &ObjectId) -> (r: Result<
    Vec<File>,
    FsError,
>)
    ensures
        match r {
            Ok(files) => object_id@.1 == FileType::Directory && (forall|t: int|
                #![auto]
                0 <= t < files@.len() ==> raw_listing_entry_ok(
                    objects@,
                    listing_prefix(bucket_key(object_id@.0)),
                    files@[t],
                )) && (forall|e: (Seq<char>, bool)|
                #[trigger] raw_entry_set(
                    objects@,
                    listing_prefix(bucket_key(object_id@.0)),
                ).contains(e) ==> shows_pair(files@, e)) && (forall|t: int, u: int|
                #![auto]
                0 <= t < u < files@.len() ==> !(files@[t].name@ == files@[u].name@ && ((
                files@[t].id@.1 == FileType::Directory) == (files@[u].id@.1
                    == FileType::Directory)))),
            Err(e) => e == FsError::NotADirectory && object_id@.1 != FileType::Directory,
        },
{
    if !object_id.is_directory() {
        return Err(FsError::NotADirectory);
    }
    let stripped = bucket_key_of(object_id.as_str());
    let p = listing_prefix_of(stripped.as_str());
    let ghost pv = p@;
    let mut files: Vec<File> = Vec::new();
    let n = objects.len();
    let mut i: usize = 0;
    while i < n
        invariant
            0 <= i <= n,
            n == objects@.len(),
            pv == p@,
            pv == listing_prefix(bucket_key(object_id@.0)),
            forall|t: int|
                #![auto]
                0 <= t < files@.len() ==> raw_listing_entry_ok(objects@, pv, files@[t]),
            forall|t: int, u: int|
                #![auto]
                0 <= t < u < files@.len() ==> !(files@[t].name@ == files@[u].name@ && ((
                files@[t].id@.1 == FileType::Directory) == (files@[u].id@.1
                    == FileType::Directory))),
            forall|j: int|
                #![auto]
                0 <= j < i && is_child_key(objects@[j].key@, pv) ==> shows_pair(
                    files@,
                    child_entry(objects@[j].key@, pv),
                ),
        decreases n - i,
    {
        let o = &objects[i];
        let ghost kv = o.key@;
        if let Some(rem) = strip_prefix_of(o.key.as_str(), p.as_str()) {
            if rem.as_str().unicode_len() > 0 {
                let slash = find_first_slash(rem.as_str());
                proof {
                    lemma_first_slash_properties(rem@);
                }
                let ghost rv = rem@;
                let (name, is_dir): (String, bool) = match slash {
                    Some(j) => (rem.as_str().substring_char(0, j).to_owned(), true),
                    None => (rem, false),
                };
                proof {
                    assert(name@ == first_segment(rv));
                    assert(is_dir == has_subpath(rv));
                }
                if name.as_str().unicode_len() > 0 {
                    if !shows_entry(&files, name.as_str(), is_dir) {
                        let mut id_path = p.clone();
                        id_path.append(name.as_str());
                        let ft = if is_dir {
                            FileType::Directory
                        } else {
                            FileType::File
                        };
                        let mut md = Metadata::unknown();
                        if is_dir {
                            md.mime_type = Some(String::from_str("directory"));
                        } else {
                            md.mime_type = Some(String::from_str("file"));
                            md.size = Some(o.size);
                            md.modified_at = parse_rfc3339_seconds(o.last_modified.as_str());
                            proof {
                                assert(kv =~= pv + name@);
                            }
                        }
                        let entry = File {
                            id: ObjectId::new(id_path, ft),
                            name,
                            metadata: Some(md),
                        };
                        let ghost ev = entry;
                        let ghost files0 = files@;
                        files.push(entry);
                        proof {
                            assert(raw_entry_set(objects@, pv).contains((ev.name@, is_dir))) by {
                                assert(0 <= i < objects@.len() && is_child_key(kv, pv)
                                    && child_entry(kv, pv) == (ev.name@, is_dir));
                            }
                            assert(raw_listing_entry_ok(objects@, pv, ev));
                            assert forall|j: int|
                                #![auto]
                                0 <= j < i + 1 && is_child_key(objects@[j].key@, pv)
                                    implies shows_pair(
                                files@,
                                child_entry(objects@[j].key@, pv),
                            ) by {
                                if j < i {
                                    let e = child_entry(objects@[j].key@, pv);
                                    let t = choose|t: int|
                                        #![auto]
                                        0 <= t < files0.len() && files0[t].name@ == e.0 && ((
                                        files0[t].id@.1 == FileType::Directory) == e.1);
                                    assert(files@[t] == files0[t]);
                                } else {
                                    assert(files@[files@.len() - 1] == ev);
                                }
                            }
                        }
                    }
                }
            }
        }
        i += 1;
    }
    proof {
        assert forall|e: (Seq<char>, bool)| #[trigger]
            raw_entry_set(objects@, pv).contains(e) implies shows_pair(files@, e) by {
            let j = choose|j: int|
                #![auto]
                0 <= j < objects@.len() && is_child_key(objects@[j].key@, pv) && child_entry(
                    objects@[j].key@,
                    pv,
                ) == e;
        }
    }
    Ok(files)
}

/// Whether the listing already shows the entry `(name, is_dir)`.
fn shows_entry(files: &Vec<File>, name: &str, is_dir: bool) -> (r: bool)
    ensures
        r == shows_pair(files@, (name@, is_dir)),
{
    let n = files.len();
    let mut i: usize = 0;
    while i < n
        invariant
            0 <= i <= n,
            n == files@.len(),
            forall|j: int|
                #![auto]
                0 <= j < i ==> !(files@[j].name@ == name@ && ((files@[j].id@.1
                    == FileType::Directory) == is_dir)),
        decreases n - i,
    {
        if str_equal(files[i].name.as_str(), name) && files[i].id.is_directory() == is_dir {
            return true;
        }
        i += 1;
    }
    false
}

} // verus!
