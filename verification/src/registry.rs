//! The provider registry: it owns the configured backend instances, keyed
//! by a provider id, dispatches "add" requests to the right adapter by
//! provider type, and names the file each instance's credentials are
//! persisted under so that a restart can rebuild the registry from those
//! files.

use vstd::prelude::*;

use crate::capability::Provider;
use crate::filesystem::FsError;
use crate::google::GoogleDrive;
use crate::native::NativeFs;
use crate::onedrive::OneDrive;
use crate::paths::last_index_of;
use crate::paths::lemma_last_index_is;
use crate::paths::rfind_char;
use crate::paths::str_equal;
use crate::s3::S3;
use crate::s3::S3Credentials;
use crate::token::AuthToken;
use crate::token::TokenStorageStrategy;

verus! {

/// The API keys the registry hands to the cloud adapters it constructs.
#[derive(Debug, Clone, PartialEq, Eq)]
pub struct ProvidersOptions {
    pub google_api_key: Option<String>,
    pub onedrive_api_key: Option<String>,
}

impl Default for ProvidersOptions {
    /// No keys configured.
    fn default() -> (r: ProvidersOptions)
        ensures
            r.google_api_key is None,
            r.onedrive_api_key is None,
    {
        ProvidersOptions { google_api_key: None, onedrive_api_key: None }
    }
}

/// The closed set of backend kinds a provider instance can have.
#[derive(Debug, Clone, Copy, PartialEq, Eq, Structural, Hash)]
pub enum ProviderType {
    GoogleDrive,
    OneDrive,
    S3,
    NativeFs,
}

/// The name a provider type carries in persisted file names.
pub open spec fn provider_type_name(t: ProviderType) -> Seq<char> {
    match t {
        ProviderType::GoogleDrive => seq!['G', 'o', 'o', 'g', 'l', 'e', 'D', 'r', 'i', 'v', 'e'],
        ProviderType::OneDrive => seq!['O', 'n', 'e', 'D', 'r', 'i', 'v', 'e'],
        ProviderType::S3 => seq!['S', '3'],
        ProviderType::NativeFs => seq!['N', 'a', 't', 'i', 'v', 'e', 'F', 's'],
    }
}

/// The provider type a persisted name denotes, if any.
pub open spec fn type_of_name(s: Seq<char>) -> Option<ProviderType> {
    if s == provider_type_name(ProviderType::GoogleDrive) {
        Some(ProviderType::GoogleDrive)
    } else if s == provider_type_name(ProviderType::OneDrive) {
        Some(ProviderType::OneDrive)
    } else if s == provider_type_name(ProviderType::S3) {
        Some(ProviderType::S3)
    } else if s == provider_type_name(ProviderType::NativeFs) {
        Some(ProviderType::NativeFs)
    } else {
        None
    }
}

impl ProviderType {
    /// The configuration name of each backend kind, as users write it.
    pub fn from_str(s: &str) -> (r: Result<ProviderType, ()>)
        ensures
            match r {
                Ok(t) => (t == ProviderType::GoogleDrive && s@ == "googledrive"@) || (t
                    == ProviderType::OneDrive && s@ == "onedrive"@) || (t == ProviderType::S3 && s@
                    == "s3"@) || (t == ProviderType::NativeFs && s@ == "nativefs"@),
                Err(()) => s@ != "googledrive"@ && s@ != "onedrive"@ && s@ != "s3"@ && s@
                    != "nativefs"@,
            },
    {
        if str_equal(s, "googledrive") {
            Ok(ProviderType::GoogleDrive)
        } else if str_equal(s, "onedrive") {
            Ok(ProviderType::OneDrive)
        } else if str_equal(s, "s3") {
            Ok(ProviderType::S3)
        } else if str_equal(s, "nativefs") {
            Ok(ProviderType::NativeFs)
        } else {
            Err(())
        }
    }

    /// The name this type carries in persisted file names.
    pub fn name_string(&self) -> (r: String)
        ensures
            r@ == provider_type_name(*self),
    {
        match self {
            ProviderType::GoogleDrive => {
                let r = String::from_str("GoogleDrive");
                proof {
                    reveal_strlit("GoogleDrive");
                    assert(r@ =~= provider_type_name(ProviderType::GoogleDrive));
                }
                r
            },
            ProviderType::OneDrive => {
                let r = String::from_str("OneDrive");
                proof {
                    reveal_strlit("OneDrive");
                    assert(r@ =~= provider_type_name(ProviderType::OneDrive));
                }
                r
            },
            ProviderType::S3 => {
                let r = String::from_str("S3");
                proof {
                    reveal_strlit("S3");
                    assert(r@ =~= provider_type_name(ProviderType::S3));
                }
                r
            },
            ProviderType::NativeFs => {
                let r = String::from_str("NativeFs");
                proof {
                    reveal_strlit("NativeFs");
                    assert(r@ =~= provider_type_name(ProviderType::NativeFs));
                }
                r
            },
        }
    }
}

/// What uniquely identifies one configured backend instance: a
/// user-chosen id together with the backend kind, so that two providers
/// of different kinds may share a user-chosen id without ambiguity.
#[derive(Debug, PartialEq, Eq, Hash)]
pub struct ProviderId {
    pub id: String,
    pub provider_type: ProviderType,
}

impl Clone for ProviderId {
    fn clone(&self) -> (res: Self)
        ensures
            res == *self,
    {
        ProviderId { id: self.id.clone(), provider_type: self.provider_type }
    }
}

/// The registry key a provider id denotes.
pub open spec fn pid_view(p: ProviderId) -> (Seq<char>, ProviderType) {
    (p.id@, p.provider_type)
}

/// One live backend instance, over the closed set of backend kinds.
pub enum ProviderInstance {
    GoogleDrive(GoogleDrive),
    OneDrive(OneDrive),
    S3(S3),
    NativeFs(NativeFs),
}

impl Provider for ProviderInstance {
    open spec fn filesystem_capable(&self) -> bool {
        true
    }

    open spec fn trash_capable(&self) -> bool {
        match self {
            ProviderInstance::GoogleDrive(_) => false,
            ProviderInstance::OneDrive(_) => true,
            ProviderInstance::S3(_) => false,
            ProviderInstance::NativeFs(_) => true,
        }
    }

    fn as_filesystem(&self) -> (r: Option<&Self>) {
        Some(self)
    }

    fn as_trash(&self) -> (r: Option<&Self>) {
        match self {
            ProviderInstance::GoogleDrive(_) => None,
            ProviderInstance::OneDrive(_) => Some(self),
            ProviderInstance::S3(_) => None,
            ProviderInstance::NativeFs(_) => Some(self),
        }
    }
}

/// The backend-specific configuration an "add provider" request carries,
/// and the shape each instance's credentials are persisted in.
pub enum ProviderConfig {
    GoogleDrive { tokens: TokenStorageStrategy },
    OneDrive { token: Option<AuthToken> },
    S3 { bucket: String, credentials: S3Credentials },
    NativeFs { root: String },
}

/// Whether the registry accepts this configuration for this provider
/// type: the shape must match the type, and the cloud kinds need their
/// API key configured.
pub open spec fn config_accepted(keys: ProvidersOptions, t: ProviderType, c: ProviderConfig) -> bool {
    match (t, c) {
        (ProviderType::GoogleDrive, ProviderConfig::GoogleDrive { .. }) => keys.google_api_key
            is Some,
        (ProviderType::OneDrive, ProviderConfig::OneDrive { .. }) => keys.onedrive_api_key is Some,
        (ProviderType::S3, ProviderConfig::S3 { .. }) => true,
        (ProviderType::NativeFs, ProviderConfig::NativeFs { .. }) => true,
        _ => false,
    }
}

/// Whether `inst` is the instance that `keys` and `c` configure for
/// provider type `t`.
pub open spec fn instance_matches(
    keys: ProvidersOptions,
    t: ProviderType,
    c: ProviderConfig,
    inst: ProviderInstance,
) -> bool {
    match (t, c, inst) {
        (
            ProviderType::GoogleDrive,
            ProviderConfig::GoogleDrive { tokens },
            ProviderInstance::GoogleDrive(g),
        ) => keys.google_api_key matches Some(k) && g.api_key_view() == k@ && g.tokens_view()
            == tokens,
        (
            ProviderType::OneDrive,
            ProviderConfig::OneDrive { token },
            ProviderInstance::OneDrive(o),
        ) => keys.onedrive_api_key matches Some(k) && o.client_id_view() == k@ && o.token_snapshot()
            == token,
        (ProviderType::S3, ProviderConfig::S3 { bucket, credentials }, ProviderInstance::S3(s)) => s
            == S3 { bucket, credentials },
        (
            ProviderType::NativeFs,
            ProviderConfig::NativeFs { root },
            ProviderInstance::NativeFs(n),
        ) => n == NativeFs { root },
        _ => false,
    }
}

/// The instance a registry key resolves to: the entry stored last wins,
/// and with unique keys the only one.
pub open spec fn reg_lookup(
    s: Seq<(ProviderId, ProviderInstance)>,
    k: (Seq<char>, ProviderType),
) -> Option<int>
    decreases s.len(),
{
    if s.len() == 0 {
        None
    } else if pid_view(s.last().0) == k {
        Some(s.len() - 1)
    } else {
        reg_lookup(s.drop_last(), k)
    }
}

/// A key resolves exactly when some entry holds it, and the resolved
/// index holds the key.
pub proof fn lemma_reg_lookup_dom(s: Seq<(ProviderId, ProviderInstance)>, k: (Seq<char>, ProviderType))
    ensures
        match reg_lookup(s, k) {
            Some(i) => 0 <= i < s.len() && pid_view(s[i].0) == k,
            None => forall|i: int| 0 <= i < s.len() ==> pid_view(s[i].0) != k,
        },
    decreases s.len(),
{
    if s.len() > 0 && pid_view(s.last().0) != k {
        lemma_reg_lookup_dom(s.drop_last(), k);
        match reg_lookup(s.drop_last(), k) {
            Some(i) => {
                assert(s.drop_last()[i] == s[i]);
            },
            None => {
                assert forall|i: int| 0 <= i < s.len() implies pid_view(s[i].0) != k by {
                    if i < s.len() - 1 {
                        assert(s.drop_last()[i] == s[i]);
                    }
                }
            },
        }
    }
}

/// The name the credentials of a provider instance are persisted under:
/// the user-chosen id, a dot, and the provider type's name.
pub open spec fn provider_file_name_spec(id: ProviderId) -> Seq<char> {
    id.id@ + seq!['.'] + provider_type_name(id.provider_type)
}

/// Exec counterpart of [`provider_file_name_spec`].
pub fn provider_file_name(provider_id: &ProviderId) -> (r: String)
    ensures
        r@ == provider_file_name_spec(*provider_id),
{
    let mut r = provider_id.id.clone();
    r.append(".");
    r.append(provider_id.provider_type.name_string().as_str());
    proof {
        reveal_strlit(".");
        assert(r@ =~= provider_file_name_spec(*provider_id));
    }
    r
}

/// What a persisted file name denotes: everything before the last dot is
/// the user-chosen id, what follows it must be a provider type's name.
pub open spec fn parsed_provider_file(s: Seq<char>) -> Option<(Seq<char>, ProviderType)> {
    match last_index_of(s, '.') {
        Some(i) => match type_of_name(s.skip(i + 1)) {
            Some(t) => Some((s.subrange(0, i), t)),
            None => None,
        },
        None => None,
    }
}

/// Exec counterpart of [`parsed_provider_file`].
pub fn parse_provider_file_name(s: &str) -> (r: Option<ProviderId>)
    ensures
        match r {
            Some(pid) => parsed_provider_file(s@) == Some((pid.id@, pid.provider_type)),
            None => parsed_provider_file(s@) is None,
        },
{
    let n = s.unicode_len();
    match rfind_char(s, '.') {
        Some(i) => {
            proof {
                crate::paths::lemma_last_index_properties(s@, '.');
            }
            let tail = s.substring_char(i + 1, n);
            proof {
                assert(tail@ =~= s@.skip(i + 1));
            }
            let t = if str_equal(tail, "GoogleDrive") {
                proof {
                    reveal_strlit("GoogleDrive");
                    assert(tail@ =~= provider_type_name(ProviderType::GoogleDrive));
                }
                Some(ProviderType::GoogleDrive)
            } else if str_equal(tail, "OneDrive") {
                proof {
                    reveal_strlit("OneDrive");
                    assert(tail@ =~= provider_type_name(ProviderType::OneDrive));
                }
                Some(ProviderType::OneDrive)
            } else if str_equal(tail, "S3") {
                proof {
                    reveal_strlit("S3");
                    assert(tail@ =~= provider_type_name(ProviderType::S3));
                }
                Some(ProviderType::S3)
            } else if str_equal(tail, "NativeFs") {
                proof {
                    reveal_strlit("NativeFs");
                    assert(tail@ =~= provider_type_name(ProviderType::NativeFs));
                }
                Some(ProviderType::NativeFs)
            } else {
                proof {
                    reveal_strlit("GoogleDrive");
                    reveal_strlit("OneDrive");
                    reveal_strlit("S3");
                    reveal_strlit("NativeFs");
                    assert(type_of_name(tail@) is None) by {
                        if tail@ == provider_type_name(ProviderType::GoogleDrive) {
                            assert(tail@ =~= "GoogleDrive"@);
                        }
                        if tail@ == provider_type_name(ProviderType::OneDrive) {
                            assert(tail@ =~= "OneDrive"@);
                        }
                        if tail@ == provider_type_name(ProviderType::S3) {
                            assert(tail@ =~= "S3"@);
                        }
                        if tail@ == provider_type_name(ProviderType::NativeFs) {
                            assert(tail@ =~= "NativeFs"@);
                        }
                    }
                }
                None
            };
            match t {
                Some(pt) => {
                    let head = s.substring_char(0, i);
                    proof {
                        assert(head@ =~= s@.subrange(0, i as int));
                    }
                    Some(ProviderId { id: head.to_owned(), provider_type: pt })
                },
                None => None,
            }
        },
        None => None,
    }
}

/// Law (persistence naming): rendering a provider id into its file name
/// and parsing the name back restores the id, whatever the user-chosen
/// part holds: the type names hold no dot, so the last dot of the file
/// name always separates the two parts.
pub proof fn lemma_provider_file_name_round_trip(id: ProviderId)
    ensures
        parsed_provider_file(provider_file_name_spec(id)) == Some((id.id@, id.provider_type)),
{
    let s = provider_file_name_spec(id);
    let n = id.id@.len() as int;
    lemma_type_name_no_dot(id.provider_type);
    assert(s[n] == '.');
    assert forall|j: int| n < j < s.len() implies s[j] != '.' by {
        assert(s[j] == provider_type_name(id.provider_type)[j - n - 1]);
    }
    lemma_last_index_is(s, '.', n);
    assert(s.skip(n + 1) =~= provider_type_name(id.provider_type));
    assert(type_of_name(provider_type_name(id.provider_type)) == Some(id.provider_type));
    assert(s.subrange(0, n) =~= id.id@);
}

/// No provider type's name holds a dot.
proof fn lemma_type_name_no_dot(t: ProviderType)
    ensures
        forall|j: int|
            0 <= j < provider_type_name(t).len() ==> provider_type_name(t)[j] != '.',
{
}

/// The registry: one live instance per provider id, plus the API keys
/// used to construct cloud instances. Ids are unique.
pub struct ProvidersMap {
    providers: Vec<(ProviderId, ProviderInstance)>,
    keys: ProvidersOptions,
}

impl ProvidersMap {
    /// The entries held, oldest first.
    pub closed spec fn providers_view(&self) -> Seq<(ProviderId, ProviderInstance)> {
        self.providers@
    }

    /// The configured API keys.
    pub closed spec fn options(&self) -> ProvidersOptions {
        self.keys
    }

    /// Validity: no two entries share a registry key.
    pub closed spec fn wf(&self) -> bool {
        forall|i: int, j: int|
            0 <= i < j < self.providers@.len() ==> pid_view(self.providers@[i].0) != pid_view(
                self.providers@[j].0,
            )
    }

    pub fn new(keys: ProvidersOptions) -> (r: ProvidersMap)
        ensures
            r.wf(),
            r.providers_view() == Seq::<(ProviderId, ProviderInstance)>::empty(),
            r.options() == keys,
    {
        ProvidersMap { providers: Vec::new(), keys }
    }

    /// Index of the entry a provider id resolves to, if any.
    fn find_entry(&self, provider_id: &ProviderId) -> (r: Option<usize>)
        ensures
            match r {
                Some(i) => i < self.providers_view().len() && pid_view(
                    self.providers_view()[i as int].0,
                ) == pid_view(*provider_id),
                None => forall|i: int|
                    0 <= i < self.providers_view().len() ==> pid_view(self.providers_view()[i].0)
                        != pid_view(*provider_id),
            },
    {
        let n = self.providers.len();
        let mut i: usize = 0;
        while i < n
            invariant
                0 <= i <= n,
                n == self.providers@.len(),
                forall|j: int|
                    0 <= j < i ==> pid_view(self.providers@[j].0) != pid_view(*provider_id),
            decreases n - i,
        {
            let same_type = match (self.providers[i].0.provider_type, provider_id.provider_type) {
                (ProviderType::GoogleDrive, ProviderType::GoogleDrive) => true,
                (ProviderType::OneDrive, ProviderType::OneDrive) => true,
                (ProviderType::S3, ProviderType::S3) => true,
                (ProviderType::NativeFs, ProviderType::NativeFs) => true,
                _ => false,
            };
            if same_type && str_equal(self.providers[i].0.id.as_str(), provider_id.id.as_str()) {
                return Some(i);
            }
            i += 1;
        }
        None
    }

    /// The live instance a provider id resolves to.
    pub fn get_provider(&self, provider: ProviderId) -> (r: Result<&ProviderInstance, String>)
        requires
            self.wf(),
        ensures
            match r {
                Ok(inst) => reg_lookup(self.providers_view(), pid_view(provider)) matches Some(i)
                    && self.providers_view()[i].1 == *inst,
                Err(e) => reg_lookup(self.providers_view(), pid_view(provider)) is None && e@
                    == "Provider not found"@,
            },
    {
        proof {
            lemma_reg_lookup_dom(self.providers@, pid_view(provider));
        }
        match self.find_entry(&provider) {
            Some(i) => {
                proof {
                    lemma_reg_lookup_index(self.providers@, i as int);
                }
                Ok(&self.providers[i].1)
            },
            None => Err(String::from_str("Provider not found")),
        }
    }

    /// Every configured provider id, in storage order; callers may rely
    /// on the set of ids, not on the order.
    pub fn list_providers(&self) -> (r: Vec<ProviderId>)
        ensures
            r@.len() == self.providers_view().len(),
            forall|i: int|
                #![auto]
                0 <= i < r@.len() ==> r@[i] == self.providers_view()[i].0,
    {
        let n = self.providers.len();
        let mut r: Vec<ProviderId> = Vec::new();
        let mut i: usize = 0;
        while i < n
            invariant
                0 <= i <= n,
                n == self.providers@.len(),
                r@.len() == i,
                forall|j: int| #![auto] 0 <= j < i ==> r@[j] == self.providers@[j].0,
            decreases n - i,
        {
            let pid = self.providers[i].0.clone();
            r.push(pid);
            i += 1;
        }
        r
    }

    /// Insert a fresh entry. Refused when the id is already configured.
    fn insert_instance(&mut self, provider_id: ProviderId, instance: ProviderInstance) -> (r:
        Result<(), ()>)
        requires
            old(self).wf(),
        ensures
            final(self).wf(),
            final(self).options() == old(self).options(),
            match r {
                Ok(()) => reg_lookup(old(self).providers_view(), pid_view(provider_id)) is None
                    && final(self).providers_view() == old(self).providers_view().push(
                    (provider_id, instance),
                ),
                Err(()) => reg_lookup(old(self).providers_view(), pid_view(provider_id)) is Some
                    && final(self).providers_view() == old(self).providers_view(),
            },
    {
        proof {
            lemma_reg_lookup_dom(self.providers@, pid_view(provider_id));
        }
        match self.find_entry(&provider_id) {
            Some(i) => {
                proof {
                    lemma_reg_lookup_index(self.providers@, i as int);
                }
                Err(())
            },
            None => {
                let ghost s0 = self.providers@;
                self.providers.push((provider_id, instance));
                proof {
                    assert forall|i: int, j: int|
                        0 <= i < j < self.providers@.len() implies pid_view(self.providers@[i].0)
                        != pid_view(self.providers@[j].0) by {
                        if j < self.providers@.len() - 1 {
                            assert(self.providers@[i] == s0[i] && self.providers@[j] == s0[j]);
                        } else {
                            assert(self.providers@[i] == s0[i]);
                        }
                    }
                }
                Ok(())
            },
        }
    }

    /// Add a local-disk provider rooted at `root`.
    pub fn add_native_fs(&mut self, provider_id: ProviderId, root: String) -> (r: Result<(), ()>)
        requires
            old(self).wf(),
        ensures
            final(self).wf(),
            final(self).options() == old(self).options(),
            match r {
                Ok(()) => reg_lookup(old(self).providers_view(), pid_view(provider_id)) is None
                    && final(self).providers_view() == old(self).providers_view().push(
                    (provider_id, ProviderInstance::NativeFs(NativeFs { root })),
                ),
                Err(()) => reg_lookup(old(self).providers_view(), pid_view(provider_id)) is Some
                    && final(self).providers_view() == old(self).providers_view(),
            },
    {
        self.insert_instance(provider_id, ProviderInstance::NativeFs(NativeFs::new(root)))
    }

    /// Add an object-store provider for `bucket` with its credentials.
    pub fn add_s3(
        &mut self,
        provider_id: ProviderId,
        bucket: String,
        credentials: S3Credentials,
    ) -> (r: Result<(), ()>)
        requires
            old(self).wf(),
        ensures
            final(self).wf(),
            final(self).options() == old(self).options(),
            match r {
                Ok(()) => reg_lookup(old(self).providers_view(), pid_view(provider_id)) is None
                    && final(self).providers_view() == old(self).providers_view().push(
                    (provider_id, ProviderInstance::S3(S3 { bucket, credentials })),
                ),
                Err(()) => reg_lookup(old(self).providers_view(), pid_view(provider_id)) is Some
                    && final(self).providers_view() == old(self).providers_view(),
            },
    {
        self.insert_instance(provider_id, ProviderInstance::S3(S3::new(bucket, credentials)))
    }

    /// Add a drive provider holding the given scope-keyed tokens. Refused
    /// when no drive API key is configured.
    pub fn add_google_drive(&mut self, provider_id: ProviderId, tokens: TokenStorageStrategy) -> (r:
        Result<(), ()>)
        requires
            old(self).wf(),
        ensures
            final(self).wf(),
            final(self).options() == old(self).options(),
            match r {
                Ok(()) => old(self).options().google_api_key is Some && reg_lookup(
                    old(self).providers_view(),
                    pid_view(provider_id),
                ) is None && (final(self).providers_view().len() == old(self).providers_view().len() + 1 && final(self).providers_view().drop_last() == old(self).providers_view() && final(self).providers_view().last().0 == provider_id && (
                final(self).providers_view().last().1 matches ProviderInstance::GoogleDrive(g)
                    && g.api_key_view() == old(self).options().google_api_key->0@
                    && g.tokens_view() == tokens)),
                Err(()) => final(self).providers_view() == old(self).providers_view() && (old(self).options().google_api_key is None || reg_lookup(
                    old(self).providers_view(),
                    pid_view(provider_id),
                ) is Some),
            },
    {
        let key = match &self.keys.google_api_key {
            Some(k) => k.clone(),
            None => {
                return Err(());
            },
        };
        let instance = ProviderInstance::GoogleDrive(GoogleDrive::new(key, tokens));
        let r = self.insert_instance(provider_id, instance);
        proof {
            if r is Ok {
                assert(final(self).providers_view().drop_last() =~= old(self).providers_view());
            }
        }
        r
    }

    /// Add a drive provider holding the given token snapshot. Refused
    /// when no drive API key is configured.
    pub fn add_onedrive(&mut self, provider_id: ProviderId, token: Option<AuthToken>) -> (r: Result<
        (),
        (),
    >)
        requires
            old(self).wf(),
        ensures
            final(self).wf(),
            final(self).options() == old(self).options(),
            match r {
                Ok(()) => old(self).options().onedrive_api_key is Some && reg_lookup(
                    old(self).providers_view(),
                    pid_view(provider_id),
                ) is None && (final(self).providers_view().len() == old(self).providers_view().len() + 1 && final(self).providers_view().drop_last() == old(self).providers_view() && final(self).providers_view().last().0 == provider_id && (
                final(self).providers_view().last().1 matches ProviderInstance::OneDrive(o)
                    && o.client_id_view() == old(self).options().onedrive_api_key->0@
                    && o.token_snapshot() == token)),
                Err(()) => final(self).providers_view() == old(self).providers_view() && (old(self).options().onedrive_api_key is None || reg_lookup(
                    old(self).providers_view(),
                    pid_view(provider_id),
                ) is Some),
            },
    {
        let key = match &self.keys.onedrive_api_key {
            Some(k) => k.clone(),
            None => {
                return Err(());
            },
        };
        let instance = ProviderInstance::OneDrive(OneDrive::new(token, key));
        let r = self.insert_instance(provider_id, instance);
        proof {
            if r is Ok {
                assert(final(self).providers_view().drop_last() =~= old(self).providers_view());
            }
        }
        r
    }

    /// Add a provider from its persisted or user-supplied configuration,
    /// dispatching on the provider type. A configuration whose shape does
    /// not match the type is refused.
    pub fn add_provider(&mut self, provider_id: ProviderId, config: ProviderConfig) -> (r: Result<
        (),
        (),
    >)
        requires
            old(self).wf(),
        ensures
            final(self).wf(),
            final(self).options() == old(self).options(),
            match r {
                Ok(()) => config_accepted(
                    old(self).options(),
                    provider_id.provider_type,
                    config,
                ) && reg_lookup(old(self).providers_view(), pid_view(provider_id)) is None && (
                final(self).providers_view().len() == old(self).providers_view().len() + 1 && final(self).providers_view().drop_last() == old(self).providers_view() && final(self).providers_view().last().0 == provider_id && instance_matches(
                    old(self).options(),
                    provider_id.provider_type,
                    config,
                    final(self).providers_view().last().1,
                )),
                Err(()) => final(self).providers_view() == old(self).providers_view() && (
                !config_accepted(old(self).options(), provider_id.provider_type, config)
                    || reg_lookup(old(self).providers_view(), pid_view(provider_id)) is Some),
            },
    {
        let ghost s0 = self.providers@;
        match (provider_id.provider_type, config) {
            (ProviderType::NativeFs, ProviderConfig::NativeFs { root }) => {
                let r = self.add_native_fs(provider_id, root);
                proof {
                    if r is Ok {
                        assert(self.providers@.drop_last() =~= s0);
                    }
                }
                r
            },
            (ProviderType::S3, ProviderConfig::S3 { bucket, credentials }) => {
                let r = self.add_s3(provider_id, bucket, credentials);
                proof {
                    if r is Ok {
                        assert(self.providers@.drop_last() =~= s0);
                    }
                }
                r
            },
            (ProviderType::GoogleDrive, ProviderConfig::GoogleDrive { tokens }) => self
                .add_google_drive(provider_id, tokens),
            (ProviderType::OneDrive, ProviderConfig::OneDrive { token }) => self.add_onedrive(
                provider_id,
                token,
            ),
            _ => Err(()),
        }
    }

    /// Remove a provider from the live map. The persisted credential file
    /// named by [`provider_file_name`] is deleted alongside; data at the
    /// backend is not touched.
    pub fn remove_provider(&mut self, provider_id: &ProviderId) -> (r: Result<(), FsError>)
        requires
            old(self).wf(),
        ensures
            final(self).wf(),
            final(self).options() == old(self).options(),
            reg_lookup(final(self).providers_view(), pid_view(*provider_id)) is None,
            match r {
                Ok(()) => reg_lookup(old(self).providers_view(), pid_view(*provider_id)) is Some
                    && final(self).providers_view().len() == old(self).providers_view().len() - 1,
                Err(e) => e == FsError::ProviderNotFound && reg_lookup(
                    old(self).providers_view(),
                    pid_view(*provider_id),
                ) is None && final(self).providers_view() == old(self).providers_view(),
            },
            forall|k: (Seq<char>, ProviderType)|
                k != pid_view(*provider_id) ==> #[trigger] lookup_found(
                    final(self).providers_view(),
                    k,
                ) == lookup_found(old(self).providers_view(), k),
    {
        proof {
            lemma_reg_lookup_dom(self.providers@, pid_view(*provider_id));
        }
        let ghost s0 = self.providers@;
        match self.find_entry(provider_id) {
            Some(i) => {
                proof {
                    lemma_reg_lookup_index(self.providers@, i as int);
                }
                let _ = self.providers.remove(i);
                proof {
                    let s1 = self.providers@;
                    assert forall|a: int, b: int|
                        0 <= a < b < s1.len() implies pid_view(s1[a].0) != pid_view(s1[b].0) by {
                        let a0 = if a < i as int {
                            a
                        } else {
                            a + 1
                        };
                        let b0 = if b < i as int {
                            b
                        } else {
                            b + 1
                        };
                        assert(s1[a] == s0[a0] && s1[b] == s0[b0]);
                    }
                    lemma_reg_lookup_dom(s1, pid_view(*provider_id));
                    match reg_lookup(s1, pid_view(*provider_id)) {
                        Some(j) => {
                            let j0 = if j < i as int {
                                j
                            } else {
                                j + 1
                            };
                            assert(s1[j] == s0[j0]);
                            assert(pid_view(s0[j0].0) != pid_view(s0[i as int].0));
                        },
                        None => {},
                    }
                    assert forall|k: (Seq<char>, ProviderType)|
                        k != pid_view(*provider_id) implies #[trigger] lookup_found(s1, k)
                        == lookup_found(s0, k) by {
                        lemma_reg_lookup_dom(s1, k);
                        lemma_reg_lookup_dom(s0, k);
                        match reg_lookup(s1, k) {
                            Some(j) => {
                                let j0 = if j < i as int {
                                    j
                                } else {
                                    j + 1
                                };
                                assert(s1[j] == s0[j0]);
                            },
                            None => {},
                        }
                        match reg_lookup(s0, k) {
                            Some(j0) => {
                                assert(j0 != i as int);
                                let j = if j0 < i as int {
                                    j0
                                } else {
                                    j0 - 1
                                };
                                assert(s1[j] == s0[j0]);
                            },
                            None => {},
                        }
                    }
                }
                Ok(())
            },
            None => {
                proof {
                    lemma_reg_lookup_dom(self.providers@, pid_view(*provider_id));
                }
                Err(FsError::ProviderNotFound)
            },
        }
    }
}

/// Whether a registry key resolves at all.
pub open spec fn lookup_found(
    s: Seq<(ProviderId, ProviderInstance)>,
    k: (Seq<char>, ProviderType),
) -> bool {
    reg_lookup(s, k) is Some
}

/// With unique keys, an entry's own key resolves to it.
pub proof fn lemma_reg_lookup_index(s: Seq<(ProviderId, ProviderInstance)>, i: int)
    requires
        forall|a: int, b: int| 0 <= a < b < s.len() ==> pid_view(s[a].0) != pid_view(s[b].0),
        0 <= i < s.len(),
    ensures
        reg_lookup(s, pid_view(s[i].0)) == Some(i),
    decreases s.len(),
{
    if i < s.len() - 1 {
        assert(pid_view(s[i].0) != pid_view(s.last().0));
        assert(s.drop_last()[i] == s[i]);
        lemma_reg_lookup_index(s.drop_last(), i);
    }
}

/// A record whose name parses and whose configuration the registry
/// accepts is reachable in the rebuilt registry.
pub open spec fn record_reachable(
    keys: ProvidersOptions,
    records: Seq<(String, ProviderConfig)>,
    j: int,
    s: Seq<(ProviderId, ProviderInstance)>,
) -> bool {
    match parsed_provider_file(records[j].0@) {
        Some(k) => config_accepted(keys, k.1, records[j].1) ==> lookup_found(s, k),
        None => true,
    }
}

/// The first accepted record for a registry key determines the instance
/// the rebuilt registry resolves that key to.
pub open spec fn record_instance_ok(
    keys: ProvidersOptions,
    records: Seq<(String, ProviderConfig)>,
    j: int,
    s: Seq<(ProviderId, ProviderInstance)>,
) -> bool {
    match parsed_provider_file(records[j].0@) {
        Some(k) => (config_accepted(keys, k.1, records[j].1) && (forall|j2: int|
            0 <= j2 < j ==> parsed_provider_file(records[j2].0@) != Some(k)))
            ==> match reg_lookup(s, k) {
            Some(i) => 0 <= i < s.len() && instance_matches(keys, k.1, records[j].1, s[i].1),
            None => false,
        },
        None => true,
    }
}

impl ProvidersMap {
    /// Rebuild the registry from the persisted records, as a process
    /// restart does: each record's file name denotes a provider id and
    /// its configuration the instance. A record whose name does not parse
    /// or whose configuration is refused is skipped; the first record for
    /// an id wins.
    pub fn load_records(keys: ProvidersOptions, records: Vec<(String, ProviderConfig)>) -> (r:
        ProvidersMap)
        ensures
            r.wf(),
            r.options() == keys,
            forall|j: int|
                0 <= j < records@.len() ==> #[trigger] record_reachable(
                    keys,
                    records@,
                    j,
                    r.providers_view(),
                ),
            forall|j: int|
                0 <= j < records@.len() ==> #[trigger] record_instance_ok(
                    keys,
                    records@,
                    j,
                    r.providers_view(),
                ),
            forall|k: (Seq<char>, ProviderType)|
                #[trigger] lookup_found(r.providers_view(), k) ==> exists|j: int|
                    #![auto]
                    0 <= j < records@.len() && parsed_provider_file(records@[j].0@) == Some(k),
    {
        let ghost recs = records@;
        let mut rest = records;
        let mut reg = ProvidersMap::new(keys);
        let ghost mut j: int = 0;
        proof {
            assert(recs.skip(0) =~= rest@);
        }
        while rest.len() > 0
            invariant
                0 <= j <= recs.len(),
                rest@ == recs.skip(j),
                reg.wf(),
                reg.options() == keys,
                forall|jj: int|
                    0 <= jj < j ==> #[trigger] record_reachable(
                        keys,
                        recs,
                        jj,
                        reg.providers_view(),
                    ),
                forall|jj: int|
                    0 <= jj < j ==> #[trigger] record_instance_ok(
                        keys,
                        recs,
                        jj,
                        reg.providers_view(),
                    ),
                forall|k: (Seq<char>, ProviderType)|
                    #[trigger] lookup_found(reg.providers_view(), k) ==> exists|jj: int|
                        #![auto]
                        0 <= jj < j && parsed_provider_file(recs[jj].0@) == Some(k),
            decreases rest@.len(),
        {
            let record = rest.remove(0);
            proof {
                assert(recs.skip(j)[0] == recs[j]);
                assert(recs.skip(j).skip(1) =~= recs.skip(j + 1));
                assert(rest@ =~= recs.skip(j).skip(1));
            }
            let ghost s_before = reg.providers_view();
            let (name, config) = record;
            match parse_provider_file_name(name.as_str()) {
                Some(pid) => {
                    let ghost k = pid_view(pid);
                    proof {
                        assert(parsed_provider_file(recs[j].0@) == Some(k));
                    }
                    let added = reg.add_provider(pid, config);
                    proof {
                        let s_after = reg.providers_view();
                        match added {
                            Ok(()) => {
                                assert(s_after.drop_last() == s_before);
                                assert forall|k2: (Seq<char>, ProviderType)|
                                    k2 != k implies reg_lookup(s_after, k2) == reg_lookup(
                                    s_before,
                                    k2,
                                ) by {
                                    assert(pid_view(s_after.last().0) == k);
                                }
                                assert(reg_lookup(s_after, k) == Some(s_after.len() - 1));
                                lemma_load_step_preserved(keys, recs, j, s_before, s_after, k);
                                assert forall|k2: (Seq<char>, ProviderType)| #[trigger]
                                    lookup_found(s_after, k2) implies exists|jj: int|
                                    #![auto]
                                    0 <= jj < j + 1 && parsed_provider_file(recs[jj].0@) == Some(
                                    k2,
                                ) by {
                                    if k2 == k {
                                        assert(parsed_provider_file(recs[j].0@) == Some(k2));
                                    } else {
                                        assert(reg_lookup(s_after, k2) == reg_lookup(
                                            s_before,
                                            k2,
                                        ));
                                        assert(lookup_found(s_before, k2));
                                    }
                                }
                            },
                            Err(()) => {
                                assert(s_after == s_before);
                                if config_accepted(keys, k.1, recs[j].1) {
                                    assert(lookup_found(s_before, k));
                                }
                            },
                        }
                    }
                },
                None => {
                },
            }
            proof {
                j = j + 1;
            }
        }
        proof {
            assert(recs.skip(j) =~= Seq::<(String, ProviderConfig)>::empty());
            assert(j == recs.len());
        }
        reg
    }
}

/// After a record is added, every earlier record's guarantees still hold:
/// the push changed no other key's resolution.
proof fn lemma_load_step_preserved(
    keys: ProvidersOptions,
    recs: Seq<(String, ProviderConfig)>,
    j: int,
    s_before: Seq<(ProviderId, ProviderInstance)>,
    s_after: Seq<(ProviderId, ProviderInstance)>,
    k: (Seq<char>, ProviderType),
)
    requires
        0 <= j < recs.len(),
        s_after.len() == s_before.len() + 1,
        s_after.drop_last() == s_before,
        pid_view(s_after.last().0) == k,
        reg_lookup(s_before, k) is None,
        forall|jj: int| 0 <= jj < j ==> #[trigger] record_reachable(keys, recs, jj, s_before),
        forall|jj: int| 0 <= jj < j ==> #[trigger] record_instance_ok(keys, recs, jj, s_before),
    ensures
        forall|jj: int| 0 <= jj < j ==> #[trigger] record_reachable(keys, recs, jj, s_after),
        forall|jj: int| 0 <= jj < j ==> #[trigger] record_instance_ok(keys, recs, jj, s_after),
{
    assert forall|k2: (Seq<char>, ProviderType)|
        k2 != k implies reg_lookup(s_after, k2) == reg_lookup(s_before, k2) by {
        assert(pid_view(s_after.last().0) == k);
        assert(s_after.drop_last() == s_before);
    }
    assert forall|jj: int| 0 <= jj < j implies #[trigger] record_reachable(
        keys,
        recs,
        jj,
        s_after,
    ) by {
        assert(record_reachable(keys, recs, jj, s_before));
        match parsed_provider_file(recs[jj].0@) {
            Some(k2) => {
                if k2 == k {
                    assert(reg_lookup(s_after, k) == Some(s_after.len() - 1));
                } else {
                    assert(reg_lookup(s_after, k2) == reg_lookup(s_before, k2));
                }
            },
            None => {},
        }
    }
    assert forall|jj: int| 0 <= jj < j implies #[trigger] record_instance_ok(
        keys,
        recs,
        jj,
        s_after,
    ) by {
        assert(record_reachable(keys, recs, jj, s_before));
        assert(record_instance_ok(keys, recs, jj, s_before));
        match parsed_provider_file(recs[jj].0@) {
            Some(k2) => {
                if k2 == k {
                    if config_accepted(keys, k2.1, recs[jj].1) {
                        assert(lookup_found(s_before, k));
                        assert(false);
                    }
                } else {
                    assert(reg_lookup(s_after, k2) == reg_lookup(s_before, k2));
                    match reg_lookup(s_before, k2) {
                        Some(i) => {
                            lemma_reg_lookup_dom(s_before, k2);
                            assert(s_after.drop_last()[i] == s_before[i]);
                            assert(s_after[i] == s_before[i]);
                        },
                        None => {},
                    }
                }
            },
            None => {},
        }
    }
}

/// Law (registry persistence round trip): a provider added under `id`
/// with an accepted configuration is persisted under
/// [`provider_file_name`]; rebuilding the registry from exactly that
/// record yields a provider reachable under the same id whose instance
/// matches the configuration, hence with the same capabilities; and a
/// rebuild without the record (after `remove_provider` deleted it)
/// reaches nothing under the id.
pub proof fn lemma_registry_persistence_round_trip(
    keys: ProvidersOptions,
    id: ProviderId,
    config: ProviderConfig,
    records: Seq<(String, ProviderConfig)>,
    s: Seq<(ProviderId, ProviderInstance)>,
)
    requires
        records.len() == 1,
        records[0].0@ == provider_file_name_spec(id),
        records[0].1 == config,
        config_accepted(keys, id.provider_type, config),
        forall|j: int| 0 <= j < records.len() ==> #[trigger] record_reachable(keys, records, j, s),
        forall|j: int|
            0 <= j < records.len() ==> #[trigger] record_instance_ok(keys, records, j, s),
    ensures
        match reg_lookup(s, pid_view(id)) {
            Some(i) => 0 <= i < s.len() && instance_matches(keys, id.provider_type, config, s[i].1)
                && s[i].1.filesystem_capable() && s[i].1.trash_capable() == (id.provider_type
                == ProviderType::OneDrive || id.provider_type == ProviderType::NativeFs),
            None => false,
        },
        reg_lookup(Seq::<(ProviderId, ProviderInstance)>::empty(), pid_view(id)) is None,
{
    lemma_provider_file_name_round_trip(id);
    assert(record_reachable(keys, records, 0, s));
    assert(record_instance_ok(keys, records, 0, s));
    assert(parsed_provider_file(records[0].0@) == Some(pid_view(id)));
}


} // verus!
