//! The credential store and the token lifecycle: a per-backend snapshot
//! cell holding the current OAuth2 token, the decision the lifecycle makes
//! when a call hits an authorization failure, and the multi-scope token
//! map used by backends that key tokens by requested scopes.

use vstd::prelude::*;

use crate::filesystem::FsError;

verus! {

/// An OAuth2 token snapshot: the bearer access token and, when the
/// authorization server granted one, the refresh token.
#[derive(Debug, PartialEq, Eq)]
pub struct AuthToken {
    pub access_token: String,
    pub refresh_token: Option<String>,
}

impl Clone for AuthToken {
    fn clone(&self) -> (res: Self)
        ensures
            res == *self,
    {
        let refresh_token = match &self.refresh_token {
            Some(s) => Some(s.clone()),
            None => None,
        };
        AuthToken { access_token: self.access_token.clone(), refresh_token }
    }
}

/// The action the lifecycle takes when the backend reports an
/// authorization failure.
pub enum RefreshPlan {
    /// A refresh token is held: exchange it for a new access token.
    UseRefreshToken(String),
    /// No token, or no refresh token: a fresh interactive authorization is
    /// needed.
    InteractiveRequired,
}

/// The mutable holder of one backend instance's token. Readers see an
/// immutable snapshot; a writer replaces the whole snapshot atomically.
pub struct TokenStorage {
    token: Option<AuthToken>,
}

impl TokenStorage {
    /// The current snapshot.
    pub closed spec fn snapshot(&self) -> Option<AuthToken> {
        self.token
    }

    pub fn new(token: Option<AuthToken>) -> (r: TokenStorage)
        ensures
            r.snapshot() == token,
    {
        TokenStorage { token }
    }

    /// Read the current snapshot.
    pub fn get(&self) -> (r: Option<AuthToken>)
        ensures
            r == self.snapshot(),
    {
        let r = self.token.clone();
        proof {
            if self.token is Some {
                assert(r is Some);
            }
        }
        r
    }

    /// Replace the whole snapshot.
    pub fn set(&mut self, token: Option<AuthToken>)
        ensures
            final(self).snapshot() == token,
    {
        self.token = token;
    }

    /// Decide what a refresh does: with a refresh token in hand, exchange
    /// it; with none (or no token at all), interactive authorization is
    /// required.
    pub fn refresh_plan(&self) -> (r: RefreshPlan)
        ensures
            match self.snapshot() {
                Some(t) => match t.refresh_token {
                    Some(rt) => r == RefreshPlan::UseRefreshToken(rt),
                    None => r == RefreshPlan::InteractiveRequired,
                },
                None => r == RefreshPlan::InteractiveRequired,
            },
    {
        match &self.token {
            Some(t) => match &t.refresh_token {
                Some(rt) => RefreshPlan::UseRefreshToken(rt.clone()),
                None => RefreshPlan::InteractiveRequired,
            },
            None => RefreshPlan::InteractiveRequired,
        }
    }

    /// Apply what the refresh call returned: a new token replaces the
    /// snapshot atomically; a failed refresh drops the state back to
    /// unauthenticated and the operation that needed it fails with
    /// `AuthRequired`.
    pub fn apply_refresh(&mut self, outcome: Option<AuthToken>) -> (r: Result<(), FsError>)
        ensures
            match outcome {
                Some(t) => final(self).snapshot() == Some(t) && r == Ok::<(), FsError>(()),
                None => final(self).snapshot() is None && r == Err::<(), FsError>(
                    FsError::AuthRequired,
                ),
            },
    {
        match outcome {
            Some(t) => {
                self.token = Some(t);
                Ok(())
            },
            None => {
                self.token = None;
                Err(FsError::AuthRequired)
            },
        }
    }
}

/// One scope-keyed token entry of the multi-scope store.
pub struct ScopeEntry {
    pub scopes_key: String,
    pub token: AuthToken,
}

/// The token a scope key resolves to: the entry stored last shadows any
/// earlier one, as each store replaces the snapshot for its scopes.
pub open spec fn scope_lookup(s: Seq<ScopeEntry>, k: Seq<char>) -> Option<AuthToken>
    decreases s.len(),
{
    if s.len() == 0 {
        None
    } else if s.last().scopes_key@ == k {
        Some(s.last().token)
    } else {
        scope_lookup(s.drop_last(), k)
    }
}

/// The separator the scope key joins scope names with.
pub open spec fn scope_separator() -> Seq<char> {
    seq![' ', '_', ' ']
}

/// The key a list of scopes is stored under: the scope names joined by
/// the separator.
pub open spec fn joined_scopes(scopes: Seq<Seq<char>>) -> Seq<char>
    decreases scopes.len(),
{
    if scopes.len() == 0 {
        Seq::empty()
    } else if scopes.len() == 1 {
        scopes[0]
    } else {
        joined_scopes(scopes.drop_last()) + scope_separator() + scopes.last()
    }
}

/// Exec counterpart of [`joined_scopes`].
pub fn join_scopes(scopes: &Vec<String>) -> (r: String)
    ensures
        r@ == joined_scopes(scopes@.map_values(|s: String| s@)),
{
    let ghost sv = scopes@.map_values(|s: String| s@);
    let n = scopes.len();
    let mut r = String::new();
    let mut i: usize = 0;
    while i < n
        invariant
            0 <= i <= n,
            n == scopes@.len(),
            sv == scopes@.map_values(|s: String| s@),
            r@ == joined_scopes(sv.subrange(0, i as int)),
        decreases n - i,
    {
        if i > 0 {
            r.append(" _ ");
            proof {
                reveal_strlit(" _ ");
            }
        }
        r.append(scopes[i].as_str());
        proof {
            let pre = sv.subrange(0, i as int);
            let cur = sv.subrange(0, i + 1);
            assert(cur.drop_last() =~= pre);
            assert(cur.last() == sv[i as int]);
            if i == 0 {
                assert(r@ =~= joined_scopes(cur));
            } else {
                assert(r@ =~= joined_scopes(pre) + scope_separator() + sv[i as int]);
            }
        }
        i += 1;
    }
    proof {
        assert(sv.subrange(0, n as int) =~= sv);
    }
    r
}

/// The multi-scope token store: tokens keyed by the joined scope names.
/// A newly stored token shadows what was stored for the same scopes
/// before.
pub struct TokenStorageStrategy {
    entries: Vec<ScopeEntry>,
}

impl TokenStorageStrategy {
    /// The entries stored so far, oldest first.
    pub closed spec fn entries_view(&self) -> Seq<ScopeEntry> {
        self.entries@
    }

    pub fn new() -> (r: TokenStorageStrategy)
        ensures
            r.entries_view() == Seq::<ScopeEntry>::empty(),
    {
        TokenStorageStrategy { entries: Vec::new() }
    }

    /// The stored entries, oldest first, as the registry persists them.
    pub fn entries(&self) -> (r: &Vec<ScopeEntry>)
        ensures
            r@ == self.entries_view(),
    {
        &self.entries
    }

    /// Rebuild a store from persisted entries.
    pub fn from_entries(entries: Vec<ScopeEntry>) -> (r: TokenStorageStrategy)
        ensures
            r.entries_view() == entries@,
    {
        TokenStorageStrategy { entries }
    }

    /// Store `token` for the given scopes: the scope key now resolves to
    /// it, and every other key is untouched.
    pub fn set(&mut self, scopes: &Vec<String>, token: AuthToken)
        ensures
            scope_lookup(
                final(self).entries_view(),
                joined_scopes(scopes@.map_values(|s: String| s@)),
            ) == Some(token),
            forall|k: Seq<char>|
                k != joined_scopes(scopes@.map_values(|s: String| s@))
                    ==> #[trigger] scope_lookup(final(self).entries_view(), k) == scope_lookup(
                    old(self).entries_view(),
                    k,
                ),
    {
        let key = join_scopes(scopes);
        let entry = ScopeEntry { scopes_key: key, token };
        let ghost e0 = self.entries@;
        self.entries.push(entry);
        proof {
            assert(self.entries@.drop_last() =~= e0);
        }
    }

    /// The token stored last for the given scopes, if any.
    pub fn get(&self, scopes: &Vec<String>) -> (r: Option<AuthToken>)
        ensures
            r == scope_lookup(
                self.entries_view(),
                joined_scopes(scopes@.map_values(|s: String| s@)),
            ),
    {
        let key = join_scopes(scopes);
        let n = self.entries.len();
        let mut i: usize = n;
        proof {
            assert(self.entries@.subrange(0, n as int) =~= self.entries@);
        }
        while i > 0
            invariant
                0 <= i <= n,
                n == self.entries@.len(),
                key@ == joined_scopes(scopes@.map_values(|s: String| s@)),
                scope_lookup(self.entries@, key@) == scope_lookup(
                    self.entries@.subrange(0, i as int),
                    key@,
                ),
            decreases i,
    {
            let ghost pre = self.entries@.subrange(0, i as int);
            proof {
                assert(pre.drop_last() =~= self.entries@.subrange(0, i - 1));
                assert(pre.last() == self.entries@[i - 1]);
            }
            if crate::paths::str_equal(self.entries[i - 1].scopes_key.as_str(), key.as_str()) {
                let t = self.entries[i - 1].token.clone();
                return Some(t);
            }
            i -= 1;
        }
        proof {
            assert(self.entries@.subrange(0, 0) =~= Seq::<ScopeEntry>::empty());
        }
        None
    }
}

} // verus!
