//! The second cloud-drive adapter core (a drive addressed by opaque item
//! ids, with a single token snapshot and resumable uploads). The REST
//! calls happen outside; this module holds the instance's credential
//! state and verified decisions: when the root collection is addressed,
//! how a reported item becomes the shared record, which URL an empty file
//! is created at, and what the token lifecycle does.

use vstd::prelude::*;

use crate::capability::Provider;
use crate::filesystem::File;
use crate::filesystem::FileType;
use crate::filesystem::FsError;
use crate::filesystem::Metadata;
use crate::filesystem::ObjectId;
use crate::time::parse_rfc3339_seconds;
use crate::time::rfc3339_seconds;
use crate::token::AuthToken;
use crate::token::RefreshPlan;
use crate::token::TokenStorage;

verus! {

/// A configured drive instance: the application's client id and the
/// mutable token snapshot.
pub struct OneDrive {
    token: TokenStorage,
    client_id: String,
}

impl OneDrive {
    /// The current token snapshot.
    pub closed spec fn token_snapshot(&self) -> Option<AuthToken> {
        self.token.snapshot()
    }

    /// The configured client id.
    pub closed spec fn client_id_view(&self) -> Seq<char> {
        self.client_id@
    }

    pub fn new(token: Option<AuthToken>, client_id: String) -> (r: OneDrive)
        ensures
            r.token_snapshot() == token,
            r.client_id_view() == client_id@,
    {
        OneDrive { token: TokenStorage::new(token), client_id }
    }

    pub fn client_id(&self) -> (r: &str)
        ensures
            r@ == self.client_id_view(),
    {
        self.client_id.as_str()
    }

    /// The current token snapshot, as the interactive flow and the
    /// registry persist it.
    pub fn get_token(&self) -> (r: Option<AuthToken>)
        ensures
            r == self.token_snapshot(),
    {
        self.token.get()
    }

    /// Replace the token snapshot, as the interactive flow does after the
    /// redirect handed back a fresh token.
    pub fn set_token(&mut self, token: Option<AuthToken>)
        ensures
            final(self).token_snapshot() == token,
            final(self).client_id_view() == old(self).client_id_view(),
    {
        self.token.set(token);
    }

    /// What a refresh does for this instance: exchange the held refresh
    /// token, or demand a fresh interactive authorization.
    pub fn refresh_plan(&self) -> (r: RefreshPlan)
        ensures
            match self.token_snapshot() {
                Some(t) => match t.refresh_token {
                    Some(rt) => r == RefreshPlan::UseRefreshToken(rt),
                    None => r == RefreshPlan::InteractiveRequired,
                },
                None => r == RefreshPlan::InteractiveRequired,
            },
    {
        self.token.refresh_plan()
    }

    /// Apply what the refresh exchange returned: a new token replaces the
    /// snapshot atomically; a failed refresh drops back to
    /// unauthenticated and reports `AuthRequired`.
    pub fn apply_refresh(&mut self, outcome: Option<AuthToken>) -> (r: Result<(), FsError>)
        ensures
            final(self).client_id_view() == old(self).client_id_view(),
            match outcome {
                Some(t) => final(self).token_snapshot() == Some(t) && r == Ok::<(), FsError>(()),
                None => final(self).token_snapshot() is None && r == Err::<(), FsError>(
                    FsError::AuthRequired,
                ),
            },
    {
        self.token.apply_refresh(outcome)
    }
}

impl Provider for OneDrive {
    open spec fn filesystem_capable(&self) -> bool {
        true
    }

    open spec fn trash_capable(&self) -> bool {
        true
    }

    fn as_filesystem(&self) -> (r: Option<&Self>) {
        Some(self)
    }

    fn as_trash(&self) -> (r: Option<&Self>) {
        Some(self)
    }
}

/// Whether a drive call addresses the root collection: the empty id does,
/// every other id names an item.
pub fn use_root_location(object_id: &ObjectId) -> (r: bool)
    ensures
        r == (object_id@.0.len() == 0),
{
    object_id.as_str().unicode_len() == 0
}

/// One item as the drive API reports it, as plain values: optional id and
/// name, a folder marker, timestamps as RFC 3339 strings, the size signed
/// as the wire format has it.
#[derive(Debug, Clone, PartialEq, Eq)]
pub struct DriveItemRaw {
    pub id: Option<String>,
    pub name: Option<String>,
    pub is_folder: bool,
    pub created: Option<String>,
    pub modified: Option<String>,
    pub size: Option<i64>,
}

/// Normalize one reported item: folders get a `directory` MIME hint,
/// timestamps are parsed from RFC 3339 (an unparsable one stays
/// unknown), and a report without an id or a name is malformed and
/// refused as a transport failure.
pub fn file_from_item(raw: DriveItemRaw) -> (r: Result<File, FsError>)
    ensures
        match r {
            Ok(f) => raw.id is Some && raw.name is Some && f.id@ == (
                raw.id->0@,
                if raw.is_folder {
                    FileType::Directory
                } else {
                    FileType::File
                },
            ) && f.name == raw.name->0 && (f.metadata matches Some(md) && (if raw.is_folder {
                md.mime_type matches Some(s) && s@ == "directory"@
            } else {
                md.mime_type is None
            }) && md.created_at == (match raw.created {
                Some(s) => rfc3339_seconds(s@),
                None => None,
            }) && md.modified_at == (match raw.modified {
                Some(s) => rfc3339_seconds(s@),
                None => None,
            }) && md.size == Some(
                match raw.size {
                    Some(v) => crate::google::size_magnitude(v),
                    None => 0u64,
                },
            ) && md.open_path is None && md.meta_changed_at is None && md.accessed_at is None
                && md.owner is None && md.permissions is None),
            Err(e) => e == FsError::Transport && (raw.id is None || raw.name is None),
        },
{
    let id = match raw.id {
        Some(s) => s,
        None => {
            return Err(FsError::Transport);
        },
    };
    let name = match raw.name {
        Some(s) => s,
        None => {
            return Err(FsError::Transport);
        },
    };
    let ft = if raw.is_folder {
        FileType::Directory
    } else {
        FileType::File
    };
    let size: u64 = match raw.size {
        Some(v) => if v >= 0 {
            v as u64
        } else if v == i64::MIN {
            9223372036854775808u64
        } else {
            (-v) as u64
        },
        None => 0u64,
    };
    let mut md = Metadata::unknown();
    if raw.is_folder {
        md.mime_type = Some(String::from_str("directory"));
    }
    md.created_at = match &raw.created {
        Some(s) => parse_rfc3339_seconds(s.as_str()),
        None => None,
    };
    md.modified_at = match &raw.modified {
        Some(s) => parse_rfc3339_seconds(s.as_str()),
        None => None,
    };
    md.size = Some(size);
    Ok(File { id: ObjectId::new(id, ft), name, metadata: Some(md) })
}

/// The metadata a direct item query yields: only the item's web URL, as
/// the openable path.
pub fn metadata_from_item_url(web_url: Option<String>) -> (r: Metadata)
    ensures
        r.open_path == web_url,
        r.mime_type is None,
        r.modified_at is None,
        r.created_at is None,
        r.meta_changed_at is None,
        r.accessed_at is None,
        r.size is None,
        r.owner is None,
        r.permissions is None,
{
    let mut md = Metadata::unknown();
    md.open_path = web_url;
    md
}

/// The URL an empty file is created at: the parent item's content path
/// with the new file's name.
pub fn upload_content_url(parent_id: &ObjectId, name: &str) -> (r: String)
    ensures
        r@ == "https://graph.microsoft.com/v1.0/me/drive/items/"@ + parent_id@.0 + ":/"@ + name@
            + ":/content"@,
{
    let mut r = String::from_str("https://graph.microsoft.com/v1.0/me/drive/items/");
    r.append(parent_id.as_str());
    r.append(":/");
    r.append(name);
    r.append(":/content");
    r
}

} // verus!
