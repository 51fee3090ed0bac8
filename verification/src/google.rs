//! The first cloud-drive adapter core (a drive addressed by opaque item
//! ids, with tokens keyed by requested scopes). The REST calls happen
//! outside; this module holds the instance's configuration and verified
//! normalization: which collection a listing queries, and how a reported
//! file becomes the shared record.

use vstd::prelude::*;

use crate::capability::Provider;
use crate::filesystem::File;
use crate::filesystem::FileType;
use crate::filesystem::FsError;
use crate::filesystem::Metadata;
use crate::filesystem::ObjectId;
use crate::token::TokenStorageStrategy;

verus! {

/// A configured drive instance: the application's client secret (an
/// opaque configuration blob) and the scope-keyed token store.
pub struct GoogleDrive {
    api_key: String,
    tokens: TokenStorageStrategy,
}

impl GoogleDrive {
    /// The configured client secret.
    pub closed spec fn api_key_view(&self) -> Seq<char> {
        self.api_key@
    }

    /// The scope-keyed token store.
    pub closed spec fn tokens_view(&self) -> TokenStorageStrategy {
        self.tokens
    }

    pub fn new(api_key: String, tokens: TokenStorageStrategy) -> (r: GoogleDrive)
        ensures
            r.api_key_view() == api_key@,
            r.tokens_view() == tokens,
    {
        GoogleDrive { api_key, tokens }
    }

    /// The token store, for persistence.
    pub fn tokens_map(&self) -> (r: &TokenStorageStrategy)
        ensures
            *r == self.tokens_view(),
    {
        &self.tokens
    }

    /// Store a token for the given scopes: it shadows what those scopes
    /// resolved to before, and every other scope key is untouched.
    pub fn store_token(&mut self, scopes: &Vec<String>, token: crate::token::AuthToken)
        ensures
            final(self).api_key_view() == old(self).api_key_view(),
            crate::token::scope_lookup(
                final(self).tokens_view().entries_view(),
                crate::token::joined_scopes(scopes@.map_values(|s: String| s@)),
            ) == Some(token),
            forall|k: Seq<char>|
                k != crate::token::joined_scopes(scopes@.map_values(|s: String| s@))
                    ==> #[trigger] crate::token::scope_lookup(
                    final(self).tokens_view().entries_view(),
                    k,
                ) == crate::token::scope_lookup(old(self).tokens_view().entries_view(), k),
    {
        self.tokens.set(scopes, token);
    }

    /// The token stored last for the given scopes, if any.
    pub fn lookup_token(&self, scopes: &Vec<String>) -> (r: Option<crate::token::AuthToken>)
        ensures
            r == crate::token::scope_lookup(
                self.tokens_view().entries_view(),
                crate::token::joined_scopes(scopes@.map_values(|s: String| s@)),
            ),
    {
        self.tokens.get(scopes)
    }
}

impl Provider for GoogleDrive {
    open spec fn filesystem_capable(&self) -> bool {
        true
    }

    /// The drive's trash is not wired up: the capability is not
    /// advertised.
    open spec fn trash_capable(&self) -> bool {
        false
    }

    fn as_filesystem(&self) -> (r: Option<&Self>) {
        Some(self)
    }

    fn as_trash(&self) -> (r: Option<&Self>) {
        None
    }
}

/// The item id a drive call addresses: the empty path denotes the root
/// collection, which the API names `root`.
pub open spec fn drive_target_id(p: Seq<char>) -> Seq<char> {
    if p.len() == 0 {
        "root"@
    } else {
        p
    }
}

/// Exec counterpart of [`drive_target_id`].
pub fn drive_target_of(object_id: &ObjectId) -> (r: String)
    ensures
        r@ == drive_target_id(object_id@.0),
{
    if object_id.as_str().unicode_len() == 0 {
        String::from_str("root")
    } else {
        object_id.as_str().to_owned()
    }
}

/// The query that lists the children of a collection:
/// `'<id>' in parents`.
pub fn drive_children_query(object_id: &ObjectId) -> (r: String)
    ensures
        r@ == seq!['\''] + drive_target_id(object_id@.0) + "' in parents"@,
{
    let mut r = String::from_str("'");
    r.append(drive_target_of(object_id).as_str());
    r.append("' in parents");
    proof {
        reveal_strlit("'");
        assert(r@ =~= seq!['\''] + drive_target_id(object_id@.0) + "' in parents"@);
    }
    r
}

/// One file as the drive API reports it, as plain values: every field the
/// API leaves optional stays optional, timestamps are seconds since the
/// Unix epoch, the size is signed as the wire format has it.
#[derive(Debug, Clone, PartialEq, Eq)]
pub struct DriveRawFile {
    pub id: Option<String>,
    pub name: Option<String>,
    pub mime_type: Option<String>,
    pub created_time: Option<i64>,
    pub modified_time: Option<i64>,
    pub size: Option<i64>,
}

/// The magnitude of a reported size: the wire format is signed, the
/// shared record unsigned.
pub open spec fn size_magnitude(v: i64) -> u64 {
    if v >= 0 {
        v as u64
    } else {
        (-(v as int)) as u64
    }
}

/// Whether a reported MIME type marks the drive's folder objects.
pub open spec fn is_drive_folder_mime(m: Option<String>) -> bool {
    m matches Some(s) && s@ == "application/vnd.google-apps.folder"@
}

/// Normalize one reported file: the folder MIME type yields a directory
/// id, anything else a file id; a report without an id or a name is
/// malformed and refused as a transport failure.
pub fn file_from_drive(raw: DriveRawFile) -> (r: Result<File, FsError>)
    ensures
        match r {
            Ok(f) => raw.id is Some && raw.name is Some && f.id@ == (
                raw.id->0@,
                if is_drive_folder_mime(raw.mime_type) {
                    FileType::Directory
                } else {
                    FileType::File
                },
            ) && f.name == raw.name->0 && (f.metadata matches Some(md) && md.mime_type
                == raw.mime_type && md.created_at == raw.created_time && md.modified_at
                == raw.modified_time && md.size == Some(
                match raw.size {
                    Some(v) => size_magnitude(v),
                    None => 0u64,
                },
            ) && md.open_path is None && md.meta_changed_at is None && md.accessed_at is None
                && md.owner is None && md.permissions is None),
            Err(e) => e == FsError::Transport && (raw.id is None || raw.name is None),
        },
{
    let id = match raw.id {
        Some(s) => s,
        None => {
            return Err(FsError::Transport);
        },
    };
    let name = match raw.name {
        Some(s) => s,
        None => {
            return Err(FsError::Transport);
        },
    };
    let folder = match &raw.mime_type {
        Some(s) => crate::paths::str_equal(s.as_str(), "application/vnd.google-apps.folder"),
        None => false,
    };
    let ft = if folder {
        FileType::Directory
    } else {
        FileType::File
    };
    let size: u64 = match raw.size {
        Some(v) => if v >= 0 {
            v as u64
        } else if v == i64::MIN {
            9223372036854775808u64
        } else {
            (-v) as u64
        },
        None => 0u64,
    };
    let mut md = Metadata::unknown();
    md.mime_type = raw.mime_type;
    md.created_at = raw.created_time;
    md.modified_at = raw.modified_time;
    md.size = Some(size);
    Ok(File { id: ObjectId::new(id, ft), name, metadata: Some(md) })
}

} // verus!
