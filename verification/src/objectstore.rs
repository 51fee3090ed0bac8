//! The key-addressed object store. An object-store backend has no real
//! directories: objects live under `/`-separated keys, directories are
//! synthesized from key prefixes, a directory is materialized by a marker
//! key ending in `/`, and "move" is copy-then-delete. This module holds the
//! store state the adapter is specified against, with every operation
//! verified against a map view of the keys.

use vstd::prelude::*;

use crate::capability::Provider;
use crate::capability::Trash;
use crate::filesystem::File;
use crate::filesystem::FileType;
use crate::filesystem::FsError;
use crate::filesystem::Metadata;
use crate::filesystem::ObjectId;
use crate::paths::first_segment;
use crate::paths::first_slash;
use crate::paths::find_first_slash;
use crate::paths::has_subpath;
use crate::paths::last_segment;
use crate::paths::last_segment_of;
use crate::paths::lemma_first_slash_is;
use crate::paths::lemma_first_slash_properties;
use crate::paths::lemma_last_slash_is;
use crate::paths::lemma_last_slash_properties;
use crate::paths::lemma_no_slash;
use crate::paths::last_slash;
use crate::paths::renamed_path;
use crate::paths::renamed_path_of;
use crate::paths::str_equal;
use crate::paths::strip_prefix_of;

verus! {

/// The key prefix a directory path lists: the root lists every key, any
/// other directory lists the keys below `path/`.
pub open spec fn listing_prefix(p: Seq<char>) -> Seq<char> {
    if p.len() == 0 {
        p
    } else if p[p.len() - 1] == '/' {
        p
    } else {
        p + seq!['/']
    }
}

/// Whether key `k` contributes an entry to the listing of prefix `p`.
pub open spec fn is_child_key(k: Seq<char>, p: Seq<char>) -> bool {
    p.is_prefix_of(k) && k.len() > p.len() && first_segment(k.skip(p.len() as int)).len() > 0
}

/// The entry key `k` contributes under prefix `p`: the first segment after
/// the prefix, and whether the key reaches deeper (a pseudo-directory).
pub open spec fn child_entry(k: Seq<char>, p: Seq<char>) -> (Seq<char>, bool) {
    (first_segment(k.skip(p.len() as int)), has_subpath(k.skip(p.len() as int)))
}

/// The pseudo-directory listing of prefix `p` over the keys of `m`: each
/// key below `p` contributes its first segment, as a file when the key ends
/// there and as a directory when it reaches deeper, deduplicated.
pub open spec fn dir_entries(m: Map<Seq<char>, Seq<u8>>, p: Seq<char>) -> Set<(Seq<char>, bool)> {
    Set::new(
        |e: (Seq<char>, bool)|
            exists|k: Seq<char>|
                #![auto]
                m.contains_key(k) && is_child_key(k, p) && child_entry(k, p) == e,
    )
}

/// Whether the listing `files` shows entry `e` (a name and its dirness).
pub open spec fn contains_pair(files: Seq<File>, e: (Seq<char>, bool)) -> bool {
    exists|i: int|
        #![auto]
        0 <= i < files.len() && files[i].name@ == e.0 && ((files[i].id@.1 == FileType::Directory)
            == e.1)
}

/// What one listing entry of prefix `p` over store contents `m` must hold:
/// it names a real child, its id is the prefixed name with the right type
/// tag, and its metadata reports exactly the kind and (for files) the size.
pub open spec fn listing_entry_ok(m: Map<Seq<char>, Seq<u8>>, p: Seq<char>, f: File) -> bool {
    let name = f.name@;
    let d = (f.id@.1 == FileType::Directory);
    &&& dir_entries(m, p).contains((name, d))
    &&& f.id@.0 == p + name
    &&& (f.id@.1 == FileType::Directory || f.id@.1 == FileType::File)
    &&& match f.metadata {
        Some(md) => {
            &&& md.open_path is None
            &&& md.modified_at is None
            &&& md.created_at is None
            &&& md.meta_changed_at is None
            &&& md.accessed_at is None
            &&& md.owner is None
            &&& md.permissions is None
            &&& if d {
                (md.mime_type matches Some(s) && s@ == "directory"@) && md.size is None
            } else {
                (md.mime_type matches Some(s) && s@ == "file"@) && m.contains_key(f.id@.0)
                    && md.size == Some(m[f.id@.0].len() as u64)
            }
        },
        None => false,
    }
}

/// Whether the directory at `p` exists in the store: it is the root, its
/// marker key is present, or some key lies below it.
pub open spec fn directory_present(m: Map<Seq<char>, Seq<u8>>, p: Seq<char>) -> bool {
    ||| p.len() == 0
    ||| m.contains_key(listing_prefix(p))
    ||| exists|k: Seq<char>| #![auto] m.contains_key(k) && is_child_key(k, listing_prefix(p))
}

/// One stored object: a key and its bytes.
pub struct StoredObject {
    pub key: String,
    pub data: Vec<u8>,
}

/// No two objects share a key.
pub open spec fn keys_unique(s: Seq<StoredObject>) -> bool {
    forall|i: int, j: int| 0 <= i < j < s.len() ==> s[i].key@ != s[j].key@
}

/// The map view of a sequence of stored objects.
pub open spec fn as_map(s: Seq<StoredObject>) -> Map<Seq<char>, Seq<u8>>
    decreases s.len(),
{
    if s.len() == 0 {
        Map::empty()
    } else {
        as_map(s.drop_last()).insert(s.last().key@, s.last().data@)
    }
}

/// A key is in the map view exactly when some object holds it.
pub proof fn lemma_as_map_dom(s: Seq<StoredObject>)
    ensures
        forall|k: Seq<char>|
            #[trigger] as_map(s).contains_key(k) <==> exists|i: int|
                0 <= i < s.len() && s[i].key@ == k,
    decreases s.len(),
{
    if s.len() > 0 {
        lemma_as_map_dom(s.drop_last());
        assert forall|k: Seq<char>| #[trigger]
            as_map(s).contains_key(k) implies exists|i: int| 0 <= i < s.len() && s[i].key@ == k by {
            if k == s.last().key@ {
                assert(s[s.len() - 1].key@ == k);
            } else {
                assert(as_map(s.drop_last()).contains_key(k));
                let i = choose|i: int| 0 <= i < s.drop_last().len() && s.drop_last()[i].key@ == k;
                assert(s.drop_last()[i] == s[i]);
                assert(s[i].key@ == k);
            }
        }
        assert forall|k: Seq<char>|
            (exists|i: int| 0 <= i < s.len() && s[i].key@ == k) implies #[trigger]
            as_map(s).contains_key(k) by {
            let i = choose|i: int| 0 <= i < s.len() && s[i].key@ == k;
            if i == s.len() - 1 {
            } else {
                assert(s.drop_last()[i] == s[i]);
                assert(0 <= i < s.drop_last().len() && s.drop_last()[i].key@ == k);
                assert(as_map(s.drop_last()).contains_key(k));
            }
        }
    }
}

/// With unique keys, the map view sends each object's key to its bytes.
pub proof fn lemma_as_map_index(s: Seq<StoredObject>, i: int)
    requires
        keys_unique(s),
        0 <= i < s.len(),
    ensures
        as_map(s).contains_key(s[i].key@),
        as_map(s)[s[i].key@] == s[i].data@,
    decreases s.len(),
{
    if i < s.len() - 1 {
        assert(s.drop_last()[i] == s[i]);
        lemma_as_map_index(s.drop_last(), i);
        assert(s[i].key@ != s.last().key@);
    }
}

/// The store: live objects plus a recoverable trash, each a keyed byte
/// sequence. Live keys are unique; the trash keeps every version sent to it.
pub struct ObjectStore {
    objects: Vec<StoredObject>,
    trash: Vec<StoredObject>,
}

impl ObjectStore {
    /// What the store holds, as a map from key to bytes.
    pub closed spec fn contents(&self) -> Map<Seq<char>, Seq<u8>> {
        as_map(self.objects@)
    }

    /// What has been sent to the trash, oldest first.
    pub closed spec fn trashed(&self) -> Seq<(Seq<char>, Seq<u8>)> {
        self.trash@.map_values(|o: StoredObject| (o.key@, o.data@))
    }

    /// Validity of the store: live keys are unique. Every constructor
    /// establishes it and every operation preserves it.
    pub closed spec fn wf(&self) -> bool {
        keys_unique(self.objects@)
    }

    pub fn new() -> (r: ObjectStore)
        ensures
            r.wf(),
            r.contents() == Map::<Seq<char>, Seq<u8>>::empty(),
            r.trashed() == Seq::<(Seq<char>, Seq<u8>)>::empty(),
    {
        let r = ObjectStore { objects: Vec::new(), trash: Vec::new() };
        proof {
            assert(r.trashed() =~= Seq::<(Seq<char>, Seq<u8>)>::empty());
        }
        r
    }

    /// Index of the object holding `key`, if any.
    fn find_index(&self, key: &str) -> (r: Option<usize>)
        ensures
            match r {
                Some(i) => i < self.objects@.len() && self.objects@[i as int].key@ == key@,
                None => forall|i: int| 0 <= i < self.objects@.len() ==> self.objects@[i].key@ != key@,
            },
    {
        let n = self.objects.len();
        let mut i: usize = 0;
        while i < n
            invariant
                0 <= i <= n,
                n == self.objects@.len(),
                forall|j: int| 0 <= j < i ==> self.objects@[j].key@ != key@,
            decreases n - i,
        {
            if str_equal(self.objects[i].key.as_str(), key) {
                return Some(i);
            }
            i += 1;
        }
        None
    }

    /// Whether `key` is held by the store.
    fn holds_key(&self, key: &str) -> (r: bool)
        ensures
            r == self.contents().contains_key(key@),
    {
        proof {
            lemma_as_map_dom(self.objects@);
        }
        match self.find_index(key) {
            Some(_) => true,
            None => false,
        }
    }

    /// Store `data` under `key`, replacing any previous bytes: the
    /// unconditional overwrite every backend's `write_file` performs.
    fn put(&mut self, key: String, data: Vec<u8>)
        requires
            old(self).wf(),
        ensures
            final(self).wf(),
            final(self).contents() == old(self).contents().insert(key@, data@),
            final(self).trashed() == old(self).trashed(),
    {
        proof {
            lemma_as_map_dom(self.objects@);
        }
        let ghost s0 = self.objects@;
        match self.find_index(key.as_str()) {
            Some(i) => {
                self.objects[i] = StoredObject { key, data };
                proof {
                    let s1 = self.objects@;
                    assert(keys_unique(s1)) by {
                        assert forall|a: int, b: int|
                            0 <= a < b < s1.len() implies s1[a].key@ != s1[b].key@ by {
                            assert(s0[a].key@ == s1[a].key@ && s0[b].key@ == s1[b].key@);
                        }
                    }
                    lemma_as_map_dom(s1);
                    assert(as_map(s1) =~= as_map(s0).insert(s0[i as int].key@, data@)) by {
                        assert forall|k: Seq<char>| #[trigger]
                            as_map(s1).contains_key(k) implies as_map(s0).insert(
                            s0[i as int].key@,
                            data@,
                        ).contains_key(k) by {
                            let j = choose|j: int| 0 <= j < s1.len() && s1[j].key@ == k;
                            assert(s0[j].key@ == k);
                        }
                        assert forall|k: Seq<char>|
                            as_map(s0).insert(s0[i as int].key@, data@).contains_key(
                                k,
                            ) implies #[trigger] as_map(s1).contains_key(k) by {
                            if k == s0[i as int].key@ {
                                assert(s1[i as int].key@ == k);
                            } else {
                                let j = choose|j: int| 0 <= j < s0.len() && s0[j].key@ == k;
                                assert(s1[j].key@ == k);
                            }
                        }
                        assert forall|k: Seq<char>| #[trigger]
                            as_map(s1).contains_key(k) implies as_map(s1)[k] == as_map(s0).insert(
                            s0[i as int].key@,
                            data@,
                        )[k] by {
                            let j = choose|j: int| 0 <= j < s1.len() && s1[j].key@ == k;
                            lemma_as_map_index(s1, j);
                            if j == i {
                                assert(k == s0[i as int].key@);
                            } else {
                                assert(s1[j] == s0[j]);
                                lemma_as_map_index(s0, j);
                                assert(k != s0[i as int].key@);
                            }
                        }
                    }
                }
            },
            None => {
                self.objects.push(StoredObject { key, data });
                proof {
                    let s1 = self.objects@;
                    assert(s1.drop_last() =~= s0);
                    assert(keys_unique(s1)) by {
                        assert forall|a: int, b: int|
                            0 <= a < b < s1.len() implies s1[a].key@ != s1[b].key@ by {
                            if b < s1.len() - 1 {
                                assert(s0[a].key@ != s0[b].key@);
                            }
                        }
                    }
                }
            },
        }
    }

    /// Remove and return the bytes under `key`, if present.
    fn take(&mut self, key: &str) -> (r: Option<Vec<u8>>)
        requires
            old(self).wf(),
        ensures
            final(self).wf(),
            match r {
                Some(d) => old(self).contents().contains_key(key@) && d@ == old(self).contents()[key@]
                    && final(self).contents() == old(self).contents().remove(key@),
                None => !old(self).contents().contains_key(key@) && final(self).contents() == old(self).contents(),
            },
            final(self).trashed() == old(self).trashed(),
    {
        proof {
            lemma_as_map_dom(self.objects@);
        }
        let ghost s0 = self.objects@;
        match self.find_index(key) {
            Some(i) => {
                proof {
                    lemma_as_map_index(s0, i as int);
                }
                let removed = self.objects.remove(i);
                proof {
                    let s1 = self.objects@;
                    assert(keys_unique(s1)) by {
                        assert forall|a: int, b: int|
                            0 <= a < b < s1.len() implies s1[a].key@ != s1[b].key@ by {
                            let a0 = if a < i as int {
                                a
                            } else {
                                a + 1
                            };
                            let b0 = if b < i as int {
                                b
                            } else {
                                b + 1
                            };
                            assert(s1[a] == s0[a0] && s1[b] == s0[b0]);
                            assert(s0[a0].key@ != s0[b0].key@);
                        }
                    }
                    lemma_as_map_dom(s1);
                    assert(as_map(s1) =~= as_map(s0).remove(key@)) by {
                        assert forall|k: Seq<char>| #[trigger]
                            as_map(s1).contains_key(k) implies as_map(s0).remove(key@).contains_key(
                            k,
                        ) by {
                            let j = choose|j: int| 0 <= j < s1.len() && s1[j].key@ == k;
                            let j0 = if j < i as int {
                                j
                            } else {
                                j + 1
                            };
                            assert(s1[j] == s0[j0]);
                            assert(s0[j0].key@ == k);
                            assert(k != key@) by {
                                if j0 < i as int {
                                    assert(s0[j0].key@ != s0[i as int].key@);
                                } else {
                                    assert(s0[i as int].key@ != s0[j0].key@);
                                }
                            }
                        }
                        assert forall|k: Seq<char>|
                            as_map(s0).remove(key@).contains_key(k) implies #[trigger] as_map(
                            s1,
                        ).contains_key(k) by {
                            let j0 = choose|j0: int| 0 <= j0 < s0.len() && s0[j0].key@ == k;
                            assert(j0 != i as int);
                            let j = if j0 < i as int {
                                j0
                            } else {
                                j0 - 1
                            };
                            assert(s1[j] == s0[j0]);
                            assert(s1[j].key@ == k);
                        }
                        assert forall|k: Seq<char>| #[trigger]
                            as_map(s1).contains_key(k) implies as_map(s1)[k] == as_map(s0).remove(
                            key@,
                        )[k] by {
                            let j = choose|j: int| 0 <= j < s1.len() && s1[j].key@ == k;
                            let j0 = if j < i as int {
                                j
                            } else {
                                j + 1
                            };
                            assert(s1[j] == s0[j0]);
                            lemma_as_map_index(s1, j);
                            lemma_as_map_index(s0, j0);
                            assert(k != key@) by {
                                if j0 < i as int {
                                    assert(s0[j0].key@ != s0[i as int].key@);
                                } else if j0 > i as int {
                                    assert(s0[i as int].key@ != s0[j0].key@);
                                }
                            }
                        }
                    }
                }
                Some(removed.data)
            },
            None => None,
        }
    }

    /// Read the bytes stored under a file id. Fails `NotAFile` for a
    /// directory id and `NotFound` when the key does not resolve.
    pub fn read_file(&self, object_id: ObjectId) -> (r: Result<Vec<u8>, FsError>)
        requires
            self.wf(),
        ensures
            match r {
                Ok(d) => object_id@.1 != FileType::Directory && self.contents().contains_key(
                    object_id@.0,
                ) && d@ == self.contents()[object_id@.0],
                Err(e) => (e == FsError::NotAFile && object_id@.1 == FileType::Directory) || (e
                    == FsError::NotFound && object_id@.1 != FileType::Directory
                    && !self.contents().contains_key(object_id@.0)),
            },
    {
        if object_id.is_directory() {
            return Err(FsError::NotAFile);
        }
        proof {
            lemma_as_map_dom(self.objects@);
        }
        match self.find_index(object_id.as_str()) {
            Some(i) => {
                proof {
                    lemma_as_map_index(self.objects@, i as int);
                }
                let d = self.objects[i].data.clone();
                proof {
                    assert(d@ =~= self.objects@[i as int].data@);
                }
                Ok(d)
            },
            None => Err(FsError::NotFound),
        }
    }

    /// Store `content` under a file id, overwriting unconditionally.
    pub fn write_file(&mut self, object_id: ObjectId, content: Vec<u8>) -> (r: Result<
        (),
        FsError,
    >)
        requires
            old(self).wf(),
        ensures
            final(self).wf(),
            final(self).trashed() == old(self).trashed(),
            match r {
                Ok(()) => object_id@.1 != FileType::Directory && final(self).contents() == old(self).contents().insert(object_id@.0, content@),
                Err(e) => e == FsError::NotAFile && object_id@.1 == FileType::Directory
                    && final(self).contents() == old(self).contents(),
            },
    {
        if object_id.is_directory() {
            return Err(FsError::NotAFile);
        }
        let key = object_id.as_str().to_owned();
        self.put(key, content);
        Ok(())
    }

    /// Create an empty child under `parent_id`: a marker key ending in `/`
    /// when the descriptor asks for a directory, an empty object otherwise.
    /// The descriptor asks for a directory through its id's type tag or a
    /// `"directory"` MIME hint.
    pub fn create(&mut self, parent_id: ObjectId, file: File) -> (r: Result<(), FsError>)
        requires
            old(self).wf(),
        ensures
            final(self).wf(),
            final(self).trashed() == old(self).trashed(),
            match r {
                Ok(()) => parent_id@.1 == FileType::Directory && file.name@.len() > 0
                    && first_slash(file.name@) is None && final(self).contents() == old(self).contents().insert(
                    if directory_requested(file) {
                        listing_prefix(parent_id@.0) + file.name@ + seq!['/']
                    } else {
                        listing_prefix(parent_id@.0) + file.name@
                    },
                    Seq::empty(),
                ),
                Err(e) => final(self).contents() == old(self).contents() && ((e
                    == FsError::NotADirectory && parent_id@.1 != FileType::Directory) || (e
                    == FsError::Conflict && parent_id@.1 == FileType::Directory && (file.name@.len()
                    == 0 || first_slash(file.name@) is Some))),
            },
    {
        if !parent_id.is_directory() {
            return Err(FsError::NotADirectory);
        }
        if file.name.as_str().unicode_len() == 0 {
            return Err(FsError::Conflict);
        }
        if let Some(_) = find_first_slash(file.name.as_str()) {
            return Err(FsError::Conflict);
        }
        let mut key = listing_prefix_of(parent_id.as_str());
        key.append(file.name.as_str());
        let dir = is_directory_descriptor(&file);
        if dir {
            key.append("/");
            proof {
                reveal_strlit("/");
                assert(key@ =~= listing_prefix(parent_id@.0) + file.name@ + seq!['/']);
            }
        }
        self.put(key, Vec::new());
        Ok(())
    }

    /// Remove the object under a file id, or an empty directory (its marker
    /// key). A directory that still has children is refused as `Conflict`.
    pub fn delete(&mut self, object_id: ObjectId) -> (r: Result<(), FsError>)
        requires
            old(self).wf(),
        ensures
            final(self).wf(),
            final(self).trashed() == old(self).trashed(),
            match r {
                Ok(()) => {
                    let key = if object_id@.1 == FileType::Directory {
                        listing_prefix(object_id@.0)
                    } else {
                        object_id@.0
                    };
                    &&& old(self).contents().contains_key(key)
                    &&& final(self).contents() == old(self).contents().remove(key)
                    &&& (object_id@.1 == FileType::Directory ==> object_id@.0.len() > 0 && (forall|
                        k: Seq<char>,
                    |
                        #[trigger] old(self).contents().contains_key(k) ==> !is_child_key(
                            k,
                            listing_prefix(object_id@.0),
                        )))
                },
                Err(e) => final(self).contents() == old(self).contents() && ((e == FsError::Conflict
                    && object_id@.1 == FileType::Directory) || (e == FsError::NotFound
                    && !old(self).contents().contains_key(
                    if object_id@.1 == FileType::Directory {
                        listing_prefix(object_id@.0)
                    } else {
                        object_id@.0
                    },
                ))),
            },
    {
        proof {
            lemma_as_map_dom(self.objects@);
        }
        if object_id.is_directory() {
            if object_id.as_str().unicode_len() == 0 {
                return Err(FsError::Conflict);
            }
            let p = listing_prefix_of(object_id.as_str());
            if self.has_child_under(p.as_str()) {
                return Err(FsError::Conflict);
            }
            match self.take(p.as_str()) {
                Some(_) => Ok(()),
                None => Err(FsError::NotFound),
            }
        } else {
            match self.take(object_id.as_str()) {
                Some(_) => Ok(()),
                None => Err(FsError::NotFound),
            }
        }
    }

    /// Whether any live key contributes a listing entry under prefix `p`.
    fn has_child_under(&self, p: &str) -> (r: bool)
        requires
            self.wf(),
        ensures
            r == exists|k: Seq<char>|
                #![auto]
                self.contents().contains_key(k) && is_child_key(k, p@),
    {
        proof {
            lemma_as_map_dom(self.objects@);
        }
        let n = self.objects.len();
        let mut i: usize = 0;
        while i < n
            invariant
                0 <= i <= n,
                self.wf(),
                n == self.objects@.len(),
                forall|j: int| 0 <= j < i ==> !is_child_key(self.objects@[j].key@, p@),
            decreases n - i,
        {
            let key = &self.objects[i].key;
            if let Some(rem) = strip_prefix_of(key.as_str(), p) {
                if rem.as_str().unicode_len() > 0 {
                    match find_first_slash(rem.as_str()) {
                        Some(j) => {
                            if j > 0 {
                                proof {
                                    lemma_first_slash_properties(rem@);
                                    lemma_child_witness(self.objects@, i as int, p@);
                                }
                                return true;
                            }
                            proof {
                                lemma_first_slash_properties(rem@);
                                assert(first_segment(rem@).len() == 0);
                            }
                        },
                        None => {
                            proof {
                                lemma_child_witness(self.objects@, i as int, p@);
                            }
                            return true;
                        },
                    }
                }
            }
            i += 1;
        }
        proof {
            assert forall|k: Seq<char>| #![auto]
                self.contents().contains_key(k) implies !is_child_key(k, p@) by {
                let j = choose|j: int| 0 <= j < self.objects@.len() && self.objects@[j].key@ == k;
            }
        }
        false
    }

    /// Rename an object in place: only the last segment of its key changes,
    /// by copying the bytes to the renamed key and deleting the original
    /// (the store has no atomic rename primitive). An existing object under
    /// the new key is overwritten, as a copy would.
    pub fn rename(&mut self, object_id: ObjectId, new_name: String) -> (r: Result<
        ObjectId,
        FsError,
    >)
        requires
            old(self).wf(),
        ensures
            final(self).wf(),
            final(self).trashed() == old(self).trashed(),
            match r {
                Ok(nid) => object_id@.1 != FileType::Directory && new_name@.len() > 0
                    && first_slash(new_name@) is None && old(self).contents().contains_key(
                    object_id@.0,
                ) && nid@ == (renamed_path(object_id@.0, new_name@), object_id@.1) && final(self).contents() == old(self).contents().remove(object_id@.0).insert(
                    renamed_path(object_id@.0, new_name@),
                    old(self).contents()[object_id@.0],
                ),
                Err(e) => final(self).contents() == old(self).contents() && ((e
                    == FsError::Unsupported && object_id@.1 == FileType::Directory) || (e
                    == FsError::Conflict && object_id@.1 != FileType::Directory && (new_name@.len()
                    == 0 || first_slash(new_name@) is Some)) || (e == FsError::NotFound
                    && object_id@.1 != FileType::Directory && !old(self).contents().contains_key(
                    object_id@.0,
                ))),
            },
    {
        if object_id.is_directory() {
            return Err(FsError::Unsupported);
        }
        if new_name.as_str().unicode_len() == 0 {
            return Err(FsError::Conflict);
        }
        if let Some(_) = find_first_slash(new_name.as_str()) {
            return Err(FsError::Conflict);
        }
        match self.take(object_id.as_str()) {
            Some(data) => {
                let new_key = renamed_path_of(object_id.as_str(), new_name.as_str());
                let nid = ObjectId::new(new_key.clone(), object_id.file_type());
                self.put(new_key, data);
                Ok(nid)
            },
            None => Err(FsError::NotFound),
        }
    }

    /// Move an object under a new parent directory, keeping its name:
    /// copy-then-delete on the keys, as the adapters implement it.
    pub fn move_to(&mut self, object_id: ObjectId, new_parent_id: ObjectId) -> (r: Result<
        ObjectId,
        FsError,
    >)
        requires
            old(self).wf(),
        ensures
            final(self).wf(),
            final(self).trashed() == old(self).trashed(),
            match r {
                Ok(nid) => object_id@.1 != FileType::Directory && new_parent_id@.1
                    == FileType::Directory && old(self).contents().contains_key(object_id@.0)
                    && nid@ == (
                    listing_prefix(new_parent_id@.0) + last_segment(object_id@.0),
                    object_id@.1,
                ) && final(self).contents() == old(self).contents().remove(object_id@.0).insert(
                    listing_prefix(new_parent_id@.0) + last_segment(object_id@.0),
                    old(self).contents()[object_id@.0],
                ),
                Err(e) => final(self).contents() == old(self).contents() && ((e
                    == FsError::Unsupported && object_id@.1 == FileType::Directory) || (e
                    == FsError::NotADirectory && object_id@.1 != FileType::Directory
                    && new_parent_id@.1 != FileType::Directory) || (e == FsError::NotFound
                    && object_id@.1 != FileType::Directory && new_parent_id@.1
                    == FileType::Directory && !old(self).contents().contains_key(object_id@.0))),
            },
    {
        if object_id.is_directory() {
            return Err(FsError::Unsupported);
        }
        if !new_parent_id.is_directory() {
            return Err(FsError::NotADirectory);
        }
        match self.take(object_id.as_str()) {
            Some(data) => {
                let name = last_segment_of(object_id.as_str());
                let mut new_key = listing_prefix_of(new_parent_id.as_str());
                new_key.append(name.as_str());
                let nid = ObjectId::new(new_key.clone(), object_id.file_type());
                self.put(new_key, data);
                Ok(nid)
            },
            None => Err(FsError::NotFound),
        }
    }

    /// Metadata of the object a file id resolves to, or of a synthesized
    /// directory: a directory exists when it is the root, its marker key is
    /// present, or some key lies below it.
    pub fn get_metadata(&self, object_id: ObjectId) -> (r: Result<Metadata, FsError>)
        requires
            self.wf(),
        ensures
            match r {
                Ok(md) => if object_id@.1 == FileType::Directory {
                    directory_present(self.contents(), object_id@.0) && (
                    md.mime_type matches Some(s) && s@ == "directory"@) && md.size is None
                        && md.open_path is None && md.owner is None && md.permissions is None
                } else {
                    self.contents().contains_key(object_id@.0) && (md.mime_type matches Some(s)
                        && s@ == "file"@) && md.size == Some(
                        self.contents()[object_id@.0].len() as u64,
                    ) && md.open_path is None && md.owner is None && md.permissions is None
                },
                Err(e) => e == FsError::NotFound && (if object_id@.1 == FileType::Directory {
                    !directory_present(self.contents(), object_id@.0)
                } else {
                    !self.contents().contains_key(object_id@.0)
                }),
            },
    {
        if object_id.is_directory() {
            if object_id.as_str().unicode_len() == 0 {
                let mut md = Metadata::unknown();
                md.mime_type = Some(String::from_str("directory"));
                return Ok(md);
            }
            let p = listing_prefix_of(object_id.as_str());
            if self.holds_key(p.as_str()) || self.has_child_under(p.as_str()) {
                let mut md = Metadata::unknown();
                md.mime_type = Some(String::from_str("directory"));
                Ok(md)
            } else {
                Err(FsError::NotFound)
            }
        } else {
            proof {
                lemma_as_map_dom(self.objects@);
            }
            match self.find_index(object_id.as_str()) {
                Some(i) => {
                    proof {
                        lemma_as_map_index(self.objects@, i as int);
                    }
                    let mut md = Metadata::unknown();
                    md.mime_type = Some(String::from_str("file"));
                    md.size = Some(self.objects[i].data.len() as u64);
                    Ok(md)
                },
                None => Err(FsError::NotFound),
            }
        }
    }

    /// Whether the listing `files` already shows the entry `(name, is_dir)`.
    fn contains_entry(files: &Vec<File>, name: &str, is_dir: bool) -> (r: bool)
        ensures
            r == contains_pair(files@, (name@, is_dir)),
    {
        let n = files.len();
        let mut i: usize = 0;
        while i < n
            invariant
                0 <= i <= n,
                n == files@.len(),
                forall|j: int|
                    #![auto]
                    0 <= j < i ==> !(files@[j].name@ == name@ && ((files@[j].id@.1
                        == FileType::Directory) == is_dir)),
            decreases n - i,
        {
            if str_equal(files[i].name.as_str(), name) && files[i].id.is_directory() == is_dir {
                return true;
            }
            i += 1;
        }
        false
    }

    /// List the pseudo-directory a directory id denotes: each key below the
    /// prefix contributes its first segment, files and synthesized
    /// directories are told apart, and no entry repeats.
    pub fn read_directory(&self, object_id: ObjectId) -> (r: Result<Vec<File>, FsError>)
        requires
            self.wf(),
        ensures
            match r {
                Ok(files) => object_id@.1 == FileType::Directory && (forall|t: int|
                    #![auto]
                    0 <= t < files@.len() ==> listing_entry_ok(
                        self.contents(),
                        listing_prefix(object_id@.0),
                        files@[t],
                    )) && (forall|e: (Seq<char>, bool)|
                    #[trigger] dir_entries(self.contents(), listing_prefix(object_id@.0)).contains(
                        e,
                    ) ==> contains_pair(files@, e)) && (forall|t: int, u: int|
                    #![auto]
                    0 <= t < u < files@.len() ==> !(files@[t].name@ == files@[u].name@ && ((
                    files@[t].id@.1 == FileType::Directory) == (files@[u].id@.1
                        == FileType::Directory)))),
                Err(e) => e == FsError::NotADirectory && object_id@.1 != FileType::Directory,
            },
    {
        if !object_id.is_directory() {
            return Err(FsError::NotADirectory);
        }
        let p = listing_prefix_of(object_id.as_str());
        let ghost m = self.contents();
        let ghost pv = p@;
        let mut files: Vec<File> = Vec::new();
        let n = self.objects.len();
        let mut i: usize = 0;
        proof {
            lemma_as_map_dom(self.objects@);
        }
        while i < n
            invariant
                0 <= i <= n,
                self.wf(),
                n == self.objects@.len(),
                m == self.contents(),
                pv == p@,
                pv == listing_prefix(object_id@.0),
                forall|t: int| #![auto] 0 <= t < files@.len() ==> listing_entry_ok(m, pv, files@[t]),
                forall|t: int, u: int|
                    #![auto]
                    0 <= t < u < files@.len() ==> !(files@[t].name@ == files@[u].name@ && ((
                    files@[t].id@.1 == FileType::Directory) == (files@[u].id@.1
                        == FileType::Directory))),
                forall|j: int|
                    #![auto]
                    0 <= j < i && is_child_key(self.objects@[j].key@, pv) ==> contains_pair(
                        files@,
                        child_entry(self.objects@[j].key@, pv),
                    ),
            decreases n - i,
        {
            let key = &self.objects[i].key;
            let ghost kv = key@;
            if let Some(rem) = strip_prefix_of(key.as_str(), p.as_str()) {
                if rem.as_str().unicode_len() > 0 {
                    let slash = find_first_slash(rem.as_str());
                    proof {
                        lemma_first_slash_properties(rem@);
                    }
                    let ghost rv = rem@;
                    proof {
                        assert(rv == kv.skip(pv.len() as int));
                    }
                    let (name, is_dir): (String, bool) = match slash {
                        Some(j) => {
                            let nm = rem.as_str().substring_char(0, j).to_owned();
                            proof {
                                assert(first_slash(rv) == Some(j as int));
                                assert(first_segment(rv) == rv.subrange(0, j as int));
                                assert(nm@ == first_segment(rv));
                            }
                            (nm, true)
                        },
                        None => (rem, false),
                    };
                    proof {
                        assert(name@ == first_segment(rv));
                        assert(is_dir == has_subpath(rv));
                        assert(name@ == first_segment(kv.skip(pv.len() as int)));
                        assert(is_dir == has_subpath(kv.skip(pv.len() as int)));
                    }
                    if name.as_str().unicode_len() > 0 {
                        if !Self::contains_entry(&files, name.as_str(), is_dir) {
                            proof {
                                lemma_as_map_index(self.objects@, i as int);
                            }
                            let mut id_path = p.clone();
                            id_path.append(name.as_str());
                            let ft = if is_dir {
                                FileType::Directory
                            } else {
                                FileType::File
                            };
                            let mut md = Metadata::unknown();
                            if is_dir {
                                md.mime_type = Some(String::from_str("directory"));
                            } else {
                                md.mime_type = Some(String::from_str("file"));
                                md.size = Some(self.objects[i].data.len() as u64);
                                proof {
                                    assert(kv =~= pv + name@);
                                }
                            }
                            let entry = File {
                                id: ObjectId::new(id_path, ft),
                                name,
                                metadata: Some(md),
                            };
                            let ghost ev = entry;
                            let ghost files0 = files@;
                            files.push(entry);
                            proof {
                                assert(dir_entries(m, pv).contains((ev.name@, is_dir))) by {
                                    assert(m.contains_key(kv) && is_child_key(kv, pv)
                                        && child_entry(kv, pv) == (ev.name@, is_dir));
                                }
                                assert(listing_entry_ok(m, pv, ev));
                                assert forall|j: int|
                                    #![auto]
                                    0 <= j < i + 1 && is_child_key(self.objects@[j].key@, pv)
                                        implies contains_pair(
                                    files@,
                                    child_entry(self.objects@[j].key@, pv),
                                ) by {
                                    if j < i {
                                        let e = child_entry(self.objects@[j].key@, pv);
                                        let t = choose|t: int|
                                            #![auto]
                                            0 <= t < files0.len() && files0[t].name@ == e.0 && ((
                                            files0[t].id@.1 == FileType::Directory) == e.1);
                                        assert(files@[t] == files0[t]);
                                    } else {
                                        assert(files@[files@.len() - 1] == ev);
                                    }
                                }
                            }
                        }
                    }
                }
            }
            i += 1;
        }
        proof {
            assert forall|e: (Seq<char>, bool)| #[trigger]
                dir_entries(m, pv).contains(e) implies contains_pair(files@, e) by {
                let k = choose|k: Seq<char>|
                    #![auto]
                    m.contains_key(k) && is_child_key(k, pv) && child_entry(k, pv) == e;
                let j = choose|j: int| 0 <= j < self.objects@.len() && self.objects@[j].key@ == k;
            }
        }
        Ok(files)
    }

    /// The object store has no symlinks: reading a link is reported as
    /// unsupported rather than attempted.
    pub fn read_link(&self, object_id: ObjectId) -> (r: Result<ObjectId, FsError>)
        ensures
            r == Err::<ObjectId, FsError>(FsError::Unsupported),
    {
        let _ = object_id;
        Err(FsError::Unsupported)
    }

    /// The object store has no symlinks: creating a link is reported as
    /// unsupported rather than attempted.
    pub fn create_link(&self, parent_id: ObjectId, name: &str, target_id: ObjectId) -> (r: Result<
        ObjectId,
        FsError,
    >)
        ensures
            r == Err::<ObjectId, FsError>(FsError::Unsupported),
    {
        let _ = parent_id;
        let _ = name;
        let _ = target_id;
        Err(FsError::Unsupported)
    }

    /// Move the object to the recoverable trash: it leaves the live keys
    /// and is appended to the trash.
    pub fn send_to_trash(&mut self, object_id: &ObjectId) -> (r: Result<(), FsError>)
        requires
            old(self).wf(),
        ensures
            final(self).wf(),
            match r {
                Ok(()) => object_id@.1 != FileType::Directory && old(self).contents().contains_key(
                    object_id@.0,
                ) && final(self).contents() == old(self).contents().remove(object_id@.0) && final(self).trashed() == old(self).trashed().push(
                    (object_id@.0, old(self).contents()[object_id@.0]),
                ),
                Err(e) => final(self).contents() == old(self).contents() && final(self).trashed()
                    == old(self).trashed() && ((e == FsError::Unsupported && object_id@.1
                    == FileType::Directory) || (e == FsError::NotFound && object_id@.1
                    != FileType::Directory && !old(self).contents().contains_key(object_id@.0))),
            },
    {
        if object_id.is_directory() {
            return Err(FsError::Unsupported);
        }
        let key = object_id.as_str().to_owned();
        match self.take(key.as_str()) {
            Some(data) => {
                self.trash.push(StoredObject { key, data });
                proof {
                    assert(self.trashed() =~= old(self).trashed().push(
                        (object_id@.0, old(self).contents()[object_id@.0]),
                    ));
                }
                Ok(())
            },
            None => Err(FsError::NotFound),
        }
    }
}

/// Whether a descriptor asks for a directory: an explicit type tag or a
/// `"directory"` MIME hint.
pub open spec fn directory_requested(file: File) -> bool {
    ||| file.id@.1 == FileType::Directory
    ||| (file.metadata matches Some(md) && md.mime_type matches Some(s) && s@ == "directory"@)
}

/// Exec counterpart of [`directory_requested`].
pub fn is_directory_descriptor(file: &File) -> (r: bool)
    ensures
        r == directory_requested(*file),
{
    if file.id.is_directory() {
        return true;
    }
    match &file.metadata {
        Some(md) => match &md.mime_type {
            Some(s) => str_equal(s.as_str(), "directory"),
            None => false,
        },
        None => false,
    }
}

/// Exec counterpart of [`listing_prefix`].
pub fn listing_prefix_of(p: &str) -> (r: String)
    ensures
        r@ == listing_prefix(p@),
{
    let n = p.unicode_len();
    if n == 0 {
        p.to_owned()
    } else if p.get_char(n - 1) == '/' {
        p.to_owned()
    } else {
        let mut r = p.to_owned();
        r.append("/");
        proof {
            reveal_strlit("/");
            assert(r@ =~= listing_prefix(p@));
        }
        r
    }
}

/// The object at `i` witnesses a child of prefix `p`.
proof fn lemma_child_witness(s: Seq<StoredObject>, i: int, p: Seq<char>)
    requires
        0 <= i < s.len(),
        is_child_key(s[i].key@, p),
    ensures
        exists|k: Seq<char>| #![auto] as_map(s).contains_key(k) && is_child_key(k, p),
{
    lemma_as_map_dom(s);
    assert(as_map(s).contains_key(s[i].key@));
}

impl Trash for ObjectStore {
    open spec fn trash_inv(&self) -> bool {
        self.wf()
    }

    open spec fn trash_live(&self) -> Map<Seq<char>, Seq<u8>> {
        self.contents()
    }

    open spec fn trash_contents(&self) -> Seq<(Seq<char>, Seq<u8>)> {
        self.trashed()
    }

    fn send_to_trash(&mut self, object_id: &ObjectId) -> (r: Result<(), FsError>) {
        ObjectStore::send_to_trash(self, object_id)
    }
}

impl Provider for ObjectStore {
    open spec fn filesystem_capable(&self) -> bool {
        true
    }

    open spec fn trash_capable(&self) -> bool {
        true
    }

    fn as_filesystem(&self) -> (r: Option<&Self>) {
        Some(self)
    }

    fn as_trash(&self) -> (r: Option<&Self>) {
        Some(self)
    }
}

/// Law (round trip): once a file has been created and bytes written under
/// its key, the key maps to exactly the bytes last written, and every
/// other key is untouched. `read_file` returns the key's bytes, so a read
/// after `create` and `write_file` yields what was last written.
pub proof fn lemma_write_read_round_trip(
    m: Map<Seq<char>, Seq<u8>>,
    key: Seq<char>,
    first: Seq<u8>,
    last: Seq<u8>,
)
    ensures
        m.insert(key, Seq::empty()).insert(key, first).insert(key, last).contains_key(key),
        m.insert(key, Seq::empty()).insert(key, first).insert(key, last)[key] == last,
        forall|k2: Seq<char>|
            k2 != key && m.contains_key(k2) ==> #[trigger] m.insert(key, Seq::empty()).insert(
                key,
                first,
            ).insert(key, last)[k2] == m[k2],
{
}

/// Law (listing consistency): after a file or directory called `name` is
/// created under a parent directory, the parent's listing contains an
/// entry carrying that name and kind, and the entry's id resolves: as a
/// key for a file, as a present directory for a directory. `name` must be
/// a plain segment (nonempty, no `/`), as `create` demands.
pub proof fn lemma_create_then_listed(
    m: Map<Seq<char>, Seq<u8>>,
    parent: Seq<char>,
    name: Seq<char>,
    dir: bool,
)
    requires
        name.len() > 0,
        first_slash(name) is None,
    ensures
        ({
            let p = listing_prefix(parent);
            let key = if dir {
                p + name + seq!['/']
            } else {
                p + name
            };
            let m1 = m.insert(key, Seq::empty());
            &&& dir_entries(m1, p).contains((name, dir))
            &&& (dir ==> directory_present(m1, p + name))
            &&& (!dir ==> m1.contains_key(p + name))
        }),
{
    let p = listing_prefix(parent);
    let key = if dir {
        p + name + seq!['/']
    } else {
        p + name
    };
    let m1 = m.insert(key, Seq::empty());
    lemma_first_slash_properties(name);
    assert(key.subrange(0, p.len() as int) =~= p);
    assert(p.is_prefix_of(key));
    let rest = key.skip(p.len() as int);
    if dir {
        assert(rest =~= name + seq!['/']);
        assert(rest[name.len() as int] == '/');
        assert forall|j: int| 0 <= j < name.len() implies rest[j] != '/' by {
            assert(rest[j] == name[j]);
        }
        lemma_first_slash_is(rest, name.len() as int);
        assert(first_segment(rest) =~= name);
        assert(m1.contains_key(key) && is_child_key(key, p) && child_entry(key, p) == (name, dir));
        assert((p + name).len() > 0);
        assert(name[name.len() - 1] != '/');
        assert((p + name)[(p + name).len() - 1] == name[name.len() - 1]);
        assert(listing_prefix(p + name) =~= key);
        assert(directory_present(m1, p + name));
    } else {
        assert(rest =~= name);
        assert(first_segment(rest) == rest);
        assert(m1.contains_key(key) && is_child_key(key, p) && child_entry(key, p) == (name, dir));
    }
}

/// Law (rename inverse): renaming an object and then renaming the result
/// back to its old name restores the original key, its bytes, and every
/// other object. It asks that the renamed key be free (an object already
/// there would be overwritten by the copy and lost) and that the object's
/// own name be nonempty (a directory marker key has none).
pub proof fn lemma_rename_round_trip(
    m: Map<Seq<char>, Seq<u8>>,
    key: Seq<char>,
    new_name: Seq<char>,
)
    requires
        m.contains_key(key),
        new_name.len() > 0,
        first_slash(new_name) is None,
        last_segment(key).len() > 0,
        renamed_path(key, new_name) == key || !m.contains_key(renamed_path(key, new_name)),
    ensures
        ({
            let k1 = renamed_path(key, new_name);
            let m1 = m.remove(key).insert(k1, m[key]);
            &&& renamed_path(k1, last_segment(key)) == key
            &&& m1.contains_key(k1)
            &&& m1.remove(k1).insert(renamed_path(k1, last_segment(key)), m1[k1]) == m
        }),
{
    let k1 = renamed_path(key, new_name);
    let m1 = m.remove(key).insert(k1, m[key]);
    lemma_last_slash_properties(key);
    lemma_first_slash_properties(new_name);
    match last_slash(key) {
        Some(i) => {
            assert(k1 == key.subrange(0, i + 1) + new_name);
            assert(k1[i] == '/') by {
                assert(k1[i] == key.subrange(0, i + 1)[i]);
            }
            assert forall|j: int| i < j < k1.len() implies k1[j] != '/' by {
                assert(k1[j] == new_name[j - i - 1]);
            }
            lemma_last_slash_is(k1, i);
            assert(renamed_path(k1, last_segment(key)) =~= key) by {
                assert(k1.subrange(0, i + 1) =~= key.subrange(0, i + 1));
            }
        },
        None => {
            assert(k1 == new_name);
            lemma_no_slash(new_name);
            assert(last_segment(key) == key);
        },
    }
    assert(m1.remove(k1).insert(renamed_path(k1, last_segment(key)), m1[k1]) =~= m);
}

} // verus!
