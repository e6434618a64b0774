use vstd::prelude::*;

use crate::ids::{is_hyphenated_uuid, new_uuid, unix_now};
use crate::keys::{encrypt_key, encrypted_form, is_oauth_key, is_oauth_token, preview_key, preview_of};
use crate::text::{lemma_filter_step, cat, cat3, contains_text, copy_str, copy_strings, str_eq, strings_contain, without_char, remove_char};
use crate::types::{ApiKey, ApiKeyInfo, SpiderApiKey, SpiderError, SpiderState};

verus! {

broadcast use {vstd::std_specs::vec::group_vec_axioms, vstd::seq::group_seq_axioms};

/// `k` is the Spider key `key` and grants `perm`.
pub open spec fn grants(k: SpiderApiKey, key: Seq<char>, perm: Seq<char>) -> bool {
    k.key@ == key && contains_text(k.permissions@, perm)
}

/// Whether `keys` holds a Spider key whose string is `key`.
pub open spec fn spider_key_listed(keys: Seq<SpiderApiKey>, key: Seq<char>) -> bool {
    exists|i: int| 0 <= i < keys.len() && #[trigger] keys[i].key@ == key
}

/// `a` and `b` hold the same Spider key.
pub open spec fn same_spider_key(a: SpiderApiKey, b: SpiderApiKey) -> bool {
    &&& a.key@ == b.key@
    &&& a.name@ == b.name@
    &&& a.permissions@.len() == b.permissions@.len()
    &&& forall|i: int| 0 <= i < a.permissions@.len() ==> a.permissions@[i]@ == b.permissions@[i]@
    &&& a.created_at == b.created_at
}

/// `keys` without the Spider keys whose string is `key`, order kept.
pub open spec fn spider_keys_without(keys: Seq<SpiderApiKey>, key: Seq<char>) -> Seq<SpiderApiKey>
    decreases keys.len(),
{
    if keys.len() == 0 {
        keys
    } else if keys.last().key@ == key {
        spider_keys_without(keys.drop_last(), key)
    } else {
        spider_keys_without(keys.drop_last(), key).push(keys.last())
    }
}

/// `keys` without the provider keys filed under `provider`, order kept.
pub open spec fn provider_keys_without(keys: Seq<(String, ApiKey)>, provider: Seq<char>) -> Seq<(String, ApiKey)>
    decreases keys.len(),
{
    if keys.len() == 0 {
        keys
    } else if keys.last().0@ == provider {
        provider_keys_without(keys.drop_last(), provider)
    } else {
        provider_keys_without(keys.drop_last(), provider).push(keys.last())
    }
}

pub open spec fn provider_listed(keys: Seq<(String, ApiKey)>, provider: Seq<char>) -> bool {
    exists|i: int| 0 <= i < keys.len() && #[trigger] keys[i].0@ == provider
}

/// The name of the key that the GUI uses.
pub open spec fn admin_gui_name() -> Seq<char> {
    "Admin GUI Key"@
}

/// `k` is the GUI's admin key.
pub open spec fn is_admin_gui_key(k: SpiderApiKey) -> bool {
    k.name@ == admin_gui_name() && contains_text(k.permissions@, "admin"@)
}

pub proof fn lemma_spider_keys_without(keys: Seq<SpiderApiKey>, key: Seq<char>)
    ensures
        !spider_key_listed(spider_keys_without(keys, key), key),
        spider_keys_without(keys, key).len() <= keys.len(),
        spider_keys_without(keys, key).len() < keys.len() <==> spider_key_listed(keys, key),
        forall|j: int| 0 <= j < spider_keys_without(keys, key).len() ==>
            exists|i: int| 0 <= i < keys.len() && #[trigger] spider_keys_without(keys, key)[j] == keys[i],
    decreases keys.len(),
{
    if keys.len() > 0 {
        let init = keys.drop_last();
        lemma_spider_keys_without(init, key);
        let f = spider_keys_without(keys, key);
        if spider_key_listed(init, key) {
            let i = choose|i: int| 0 <= i < init.len() && #[trigger] init[i].key@ == key;
            assert(keys[i].key@ == key);
        }
        if keys.last().key@ != key && spider_key_listed(keys, key) {
            let i = choose|i: int| 0 <= i < keys.len() && #[trigger] keys[i].key@ == key;
            assert(init[i].key@ == key);
        }
        assert forall|j: int| 0 <= j < f.len() implies
            exists|i: int| 0 <= i < keys.len() && #[trigger] f[j] == keys[i] by {
            let g = spider_keys_without(init, key);
            if j < g.len() {
                let i = choose|i: int| 0 <= i < init.len() && #[trigger] g[j] == init[i];
                assert(f[j] == keys[i]);
            } else {
                assert(f[j] == keys[keys.len() - 1]);
            }
        }
    }
}

pub proof fn lemma_provider_keys_without(keys: Seq<(String, ApiKey)>, provider: Seq<char>)
    ensures
        !provider_listed(provider_keys_without(keys, provider), provider),
        provider_keys_without(keys, provider).len() <= keys.len(),
        provider_keys_without(keys, provider).len() < keys.len() <==> provider_listed(keys, provider),
    decreases keys.len(),
{
    if keys.len() > 0 {
        let init = keys.drop_last();
        lemma_provider_keys_without(init, provider);
        if provider_listed(init, provider) {
            let i = choose|i: int| 0 <= i < init.len() && #[trigger] init[i].0@ == provider;
            assert(keys[i].0@ == provider);
        }
        if keys.last().0@ != provider && provider_listed(keys, provider) {
            let i = choose|i: int| 0 <= i < keys.len() && #[trigger] keys[i].0@ == provider;
            assert(init[i].0@ == provider);
        }
        let f = provider_keys_without(keys, provider);
        if provider_listed(f, provider) {
            let j = choose|j: int| 0 <= j < f.len() && #[trigger] f[j].0@ == provider;
            assert(provider_keys_without(init, provider).len() > j ==> provider_keys_without(init, provider)[j].0@ == provider);
        }
    }
}

/// A copy of a Spider key.
pub fn copy_spider_key(k: &SpiderApiKey) -> (r: SpiderApiKey)
    ensures
        same_spider_key(r, *k),
{
    SpiderApiKey {
        key: copy_str(k.key.as_str()),
        name: copy_str(k.name.as_str()),
        permissions: copy_strings(&k.permissions),
        created_at: k.created_at,
    }
}

/// Creating a Spider key makes it listed; revoking it then removes it.
pub proof fn lemma_spider_key_lifecycle(keys: Seq<SpiderApiKey>, created: SpiderApiKey)
    ensures
        spider_key_listed(keys.push(created), created.key@),
        !spider_key_listed(spider_keys_without(keys.push(created), created.key@), created.key@),
{
    assert(keys.push(created)[keys.len() as int].key@ == created.key@);
    lemma_spider_keys_without(keys.push(created), created.key@);
}

impl SpiderState {
    /// `key` is an OAuth token or a registered Spider key.
    pub open spec fn key_is_valid(&self, key: Seq<char>) -> bool {
        is_oauth_key(key) || spider_key_listed(self.spider_api_keys@, key)
    }

    /// `key` is a Spider key with `admin`.
    pub open spec fn key_is_admin(&self, key: Seq<char>) -> bool {
        exists|i: int| 0 <= i < self.spider_api_keys@.len() && grants(#[trigger] self.spider_api_keys@[i], key, "admin"@)
    }

    /// `key` grants `perm`: OAuth tokens grant everything but `admin`.
    pub open spec fn key_permits(&self, key: Seq<char>, perm: Seq<char>) -> bool {
        if is_oauth_key(key) {
            perm != "admin"@
        } else {
            exists|i: int| 0 <= i < self.spider_api_keys@.len() && grants(#[trigger] self.spider_api_keys@[i], key, perm)
        }
    }

    pub fn validate_spider_key(&self, key: &str) -> (r: bool)
        ensures
            r == self.key_is_valid(key@),
    {
        if is_oauth_token(key) {
            return true;
        }
        let mut i: usize = 0;
        while i < self.spider_api_keys.len()
            invariant
                0 <= i <= self.spider_api_keys@.len(),
                forall|j: int| 0 <= j < i ==> self.spider_api_keys@[j].key@ != key@,
            decreases self.spider_api_keys@.len() - i,
        {
            if str_eq(self.spider_api_keys[i].key.as_str(), key) {
                return true;
            }
            i = i + 1;
        }
        false
    }

    fn any_key_grants(&self, key: &str, permission: &str) -> (r: bool)
        ensures
            r == exists|i: int| 0 <= i < self.spider_api_keys@.len() && grants(#[trigger] self.spider_api_keys@[i], key@, permission@),
    {
        let mut i: usize = 0;
        while i < self.spider_api_keys.len()
            invariant
                0 <= i <= self.spider_api_keys@.len(),
                forall|j: int| 0 <= j < i ==> !grants(#[trigger] self.spider_api_keys@[j], key@, permission@),
            decreases self.spider_api_keys@.len() - i,
        {
            let k = &self.spider_api_keys[i];
            if str_eq(k.key.as_str(), key) && strings_contain(&k.permissions, permission) {
                return true;
            }
            i = i + 1;
        }
        false
    }

    pub fn validate_admin_key(&self, key: &str) -> (r: bool)
        ensures
            r == self.key_is_admin(key@),
    {
        self.any_key_grants(key, "admin")
    }

    pub fn validate_permission(&self, key: &str, permission: &str) -> (r: bool)
        ensures
            r == self.key_permits(key@, permission@),
    {
        if is_oauth_token(key) {
            return !str_eq(permission, "admin");
        }
        self.any_key_grants(key, permission)
    }

    /// Stores `key` for `provider` in its at-rest form, replacing any earlier
    /// key of that provider. Needs `write`.
    pub fn set_api_key_at(&mut self, provider: &str, key: &str, auth_key: &str, now: u64) -> (r: Result<String, SpiderError>)
        ensures
            old(self).pending_wf() ==> final(self).pending_wf(),
            !old(self).key_permits(auth_key@, "write"@) ==> r == Err::<String, SpiderError>(SpiderError::WriteDenied) && *final(self) == *old(self),
            old(self).key_permits(auth_key@, "write"@) ==> {
                &&& r is Ok
                &&& r->Ok_0@ == "API key for "@ + provider@ + " set successfully"@
                &&& final(self).api_keys@.len() == provider_keys_without(old(self).api_keys@, provider@).len() + 1
                &&& final(self).api_keys@.drop_last() == provider_keys_without(old(self).api_keys@, provider@)
                &&& final(self).api_keys@.last().0@ == provider@
                &&& final(self).api_keys@.last().1.provider@ == provider@
                &&& final(self).api_keys@.last().1.key@ == encrypted_form(key@)
                &&& final(self).api_keys@.last().1.created_at == now
                &&& final(self).api_keys@.last().1.last_used is None
                &&& final(self).spider_api_keys == old(self).spider_api_keys
            },
    {
        if !self.validate_permission(auth_key, "write") {
            return Err(SpiderError::WriteDenied);
        }
        self.drop_provider_keys(provider);
        let entry = ApiKey {
            provider: copy_str(provider),
            key: encrypt_key(key),
            created_at: now,
            last_used: None,
        };
        self.api_keys.push((copy_str(provider), entry));
        Ok(cat3("API key for ", provider, " set successfully"))
    }

    /// Removes every provider key filed under `provider`, order kept.
    fn drop_provider_keys(&mut self, provider: &str)
        ensures
            old(self).pending_wf() ==> final(self).pending_wf(),
            final(self).api_keys@ == provider_keys_without(old(self).api_keys@, provider@),
            final(self).spider_api_keys == old(self).spider_api_keys,
            final(self).mcp_servers == old(self).mcp_servers,
    {
        let ghost orig = self.api_keys@;
        let mut i: usize = 0;
        let ghost mut j: int = 0;
        while i < self.api_keys.len()
            invariant
                0 <= i <= self.api_keys@.len(),
                0 <= j <= orig.len(),
                self.api_keys@.take(i as int) == provider_keys_without(orig.take(j), provider@),
                self.api_keys@.skip(i as int) == orig.skip(j),
                self.api_keys@.len() - i == orig.len() - j,
                self.spider_api_keys == old(self).spider_api_keys,
                self.mcp_servers == old(self).mcp_servers,
                self.pending_mcp_requests == old(self).pending_mcp_requests,
                self.ws_connections == old(self).ws_connections,
                orig == old(self).api_keys@,
            decreases self.api_keys@.len() - i,
        {
            let ghost before = self.api_keys@;
            proof { lemma_filter_step(before, orig, i as int, j); }
            if str_eq(self.api_keys[i].0.as_str(), provider) {
                self.api_keys.remove(i);
            } else {
                i = i + 1;
            }
            proof { j = j + 1; }
        }
        assert(orig.skip(j).len() == 0);
        assert(orig.take(j) =~= orig);
        assert(self.api_keys@.take(i as int) =~= self.api_keys@);
    }

    /// [`SpiderState::set_api_key_at`] at the current time.
    pub fn set_api_key(&mut self, provider: &str, key: &str, auth_key: &str) -> (r: Result<String, SpiderError>)
        ensures
            old(self).pending_wf() ==> final(self).pending_wf(),
            !old(self).key_permits(auth_key@, "write"@) ==> r == Err::<String, SpiderError>(SpiderError::WriteDenied) && *final(self) == *old(self),
            old(self).key_permits(auth_key@, "write"@) ==> {
                &&& r is Ok
                &&& final(self).api_keys@.len() == provider_keys_without(old(self).api_keys@, provider@).len() + 1
                &&& final(self).api_keys@.drop_last() == provider_keys_without(old(self).api_keys@, provider@)
                &&& final(self).api_keys@.last().0@ == provider@
                &&& final(self).api_keys@.last().1.provider@ == provider@
                &&& final(self).api_keys@.last().1.key@ == encrypted_form(key@)
                &&& final(self).api_keys@.last().1.last_used is None
                &&& final(self).spider_api_keys == old(self).spider_api_keys
            },
    {
        let now = unix_now();
        self.set_api_key_at(provider, key, auth_key, now)
    }

    /// The stored provider keys, each shown by its preview. Needs `read`.
    pub fn list_api_keys(&self, auth_key: &str) -> (r: Result<Vec<ApiKeyInfo>, SpiderError>)
        ensures
            !self.key_permits(auth_key@, "read"@) ==> r == Err::<Vec<ApiKeyInfo>, SpiderError>(SpiderError::ReadDenied),
            self.key_permits(auth_key@, "read"@) ==> {
                &&& r is Ok
                &&& r->Ok_0@.len() == self.api_keys@.len()
                &&& forall|i: int| 0 <= i < self.api_keys@.len() ==> {
                    &&& (#[trigger] r->Ok_0@[i]).provider@ == self.api_keys@[i].0@
                    &&& r->Ok_0@[i].created_at == self.api_keys@[i].1.created_at
                    &&& r->Ok_0@[i].last_used == self.api_keys@[i].1.last_used
                    &&& r->Ok_0@[i].key_preview@ == preview_of(self.api_keys@[i].1.key@)
                }
            },
    {
        if !self.validate_permission(auth_key, "read") {
            return Err(SpiderError::ReadDenied);
        }
        let mut out: Vec<ApiKeyInfo> = Vec::new();
        let mut i: usize = 0;
        while i < self.api_keys.len()
            invariant
                0 <= i <= self.api_keys@.len(),
                out@.len() == i,
                forall|k: int| 0 <= k < i ==> {
                    &&& (#[trigger] out@[k]).provider@ == self.api_keys@[k].0@
                    &&& out@[k].created_at == self.api_keys@[k].1.created_at
                    &&& out@[k].last_used == self.api_keys@[k].1.last_used
                    &&& out@[k].key_preview@ == preview_of(self.api_keys@[k].1.key@)
                },
            decreases self.api_keys@.len() - i,
        {
            let entry = &self.api_keys[i];
            out.push(ApiKeyInfo {
                provider: copy_str(entry.0.as_str()),
                created_at: entry.1.created_at,
                last_used: entry.1.last_used,
                key_preview: preview_key(entry.1.key.as_str()),
            });
            i = i + 1;
        }
        Ok(out)
    }

    /// Removes the key of `provider`; fails when there is none. Needs `write`.
    pub fn remove_api_key(&mut self, provider: &str, auth_key: &str) -> (r: Result<String, SpiderError>)
        ensures
            old(self).pending_wf() ==> final(self).pending_wf(),
            !old(self).key_permits(auth_key@, "write"@) ==> r == Err::<String, SpiderError>(SpiderError::WriteDenied) && *final(self) == *old(self),
            old(self).key_permits(auth_key@, "write"@) ==> {
                &&& final(self).api_keys@ == provider_keys_without(old(self).api_keys@, provider@)
                &&& final(self).spider_api_keys == old(self).spider_api_keys
                &&& provider_listed(old(self).api_keys@, provider@) ==> r is Ok && r->Ok_0@ == "API key for "@ + provider@ + " removed"@
                &&& !provider_listed(old(self).api_keys@, provider@) ==> r is Err && r->Err_0 is NoProviderKey && r->Err_0->NoProviderKey_0@ == provider@
            },
    {
        if !self.validate_permission(auth_key, "write") {
            return Err(SpiderError::WriteDenied);
        }
        let initial_len = self.api_keys.len();
        self.drop_provider_keys(provider);
        proof { lemma_provider_keys_without(old(self).api_keys@, provider@); }
        if self.api_keys.len() < initial_len {
            Ok(cat3("API key for ", provider, " removed"))
        } else {
            Err(SpiderError::NoProviderKey(copy_str(provider)))
        }
    }

    /// Whether a Spider key with string `key` is registered.
    pub fn spider_key_exists(&self, key: &str) -> (r: bool)
        ensures
            r == spider_key_listed(self.spider_api_keys@, key@),
    {
        let mut i: usize = 0;
        while i < self.spider_api_keys.len()
            invariant
                0 <= i <= self.spider_api_keys@.len(),
                forall|j: int| 0 <= j < i ==> self.spider_api_keys@[j].key@ != key@,
            decreases self.spider_api_keys@.len() - i,
        {
            if str_eq(self.spider_api_keys[i].key.as_str(), key) {
                return true;
            }
            i = i + 1;
        }
        false
    }

    /// Mints a Spider key `sp_<hex>` from the hyphenated UUID `uuid` and
    /// registers it. Needs an admin key, or a request from the Hypergrid
    /// operator process.
    pub fn create_spider_key_with(
        &mut self,
        name: &str,
        permissions: &Vec<String>,
        admin_key: &str,
        from_operator: bool,
        uuid: &str,
        now: u64,
    ) -> (r: Result<SpiderApiKey, SpiderError>)
        ensures
            old(self).pending_wf() ==> final(self).pending_wf(),
            !(old(self).key_is_admin(admin_key@) || from_operator) ==> r == Err::<SpiderApiKey, SpiderError>(SpiderError::NotAdmin) && *final(self) == *old(self),
            (old(self).key_is_admin(admin_key@) || from_operator)
                && spider_key_listed(old(self).spider_api_keys@, "sp_"@ + without_char(uuid@, '-'))
                ==> r == Err::<SpiderApiKey, SpiderError>(SpiderError::IdCollision) && *final(self) == *old(self),
            (old(self).key_is_admin(admin_key@) || from_operator)
                && !spider_key_listed(old(self).spider_api_keys@, "sp_"@ + without_char(uuid@, '-')) ==> {
                &&& r is Ok
                &&& r->Ok_0.key@ == "sp_"@ + without_char(uuid@, '-')
                &&& r->Ok_0.name@ == name@
                &&& r->Ok_0.permissions@.len() == permissions@.len()
                &&& forall|i: int| 0 <= i < permissions@.len() ==> r->Ok_0.permissions@[i]@ == permissions@[i]@
                &&& r->Ok_0.created_at == now
                &&& final(self).spider_api_keys@.len() == old(self).spider_api_keys@.len() + 1
                &&& final(self).spider_api_keys@.drop_last() == old(self).spider_api_keys@
                &&& same_spider_key(final(self).spider_api_keys@.last(), r->Ok_0)
                &&& final(self).api_keys == old(self).api_keys
            },
    {
        if !(self.validate_admin_key(admin_key) || from_operator) {
            return Err(SpiderError::NotAdmin);
        }
        let hex = remove_char(uuid, '-');
        let key_text = cat("sp_", hex.as_str());
        if self.spider_key_exists(key_text.as_str()) {
            return Err(SpiderError::IdCollision);
        }
        let key = SpiderApiKey {
            key: key_text,
            name: copy_str(name),
            permissions: copy_strings(permissions),
            created_at: now,
        };
        let stored = copy_spider_key(&key);
        self.spider_api_keys.push(stored);
        Ok(key)
    }

    /// Mints and registers a fresh random Spider key (see
    /// [`SpiderState::create_spider_key_with`]).
    pub fn create_spider_key(
        &mut self,
        name: &str,
        permissions: &Vec<String>,
        admin_key: &str,
        from_operator: bool,
    ) -> (r: Result<SpiderApiKey, SpiderError>)
        ensures
            !(old(self).key_is_admin(admin_key@) || from_operator) ==> r == Err::<SpiderApiKey, SpiderError>(SpiderError::NotAdmin) && *final(self) == *old(self),
            old(self).pending_wf() ==> final(self).pending_wf(),
            (old(self).key_is_admin(admin_key@) || from_operator) ==> r is Ok || (r == Err::<SpiderApiKey, SpiderError>(SpiderError::IdCollision) && *final(self) == *old(self)),
            r is Ok ==> {
                &&& r->Ok_0.name@ == name@
                &&& exists|u: Seq<char>| is_hyphenated_uuid(u) && #[trigger] without_char(u, '-') == r->Ok_0.key@.skip(3)
                &&& "sp_"@.is_prefix_of(r->Ok_0.key@)
                &&& !spider_key_listed(old(self).spider_api_keys@, r->Ok_0.key@)
                &&& r->Ok_0.permissions@.len() == permissions@.len()
                &&& forall|i: int| 0 <= i < permissions@.len() ==> r->Ok_0.permissions@[i]@ == permissions@[i]@
                &&& final(self).spider_api_keys@.len() == old(self).spider_api_keys@.len() + 1
                &&& final(self).spider_api_keys@.drop_last() == old(self).spider_api_keys@
                &&& same_spider_key(final(self).spider_api_keys@.last(), r->Ok_0)
                &&& spider_key_listed(final(self).spider_api_keys@, r->Ok_0.key@)
                &&& final(self).api_keys == old(self).api_keys
            },
    {
        let mut attempt: u32 = 0;
        loop
            invariant
                *self == *old(self),
                attempt <= 3,
            decreases 3 - attempt,
        {
            let uuid = new_uuid();
            let now = unix_now();
            let r = self.create_spider_key_with(name, permissions, admin_key, from_operator, uuid.as_str(), now);
            match r {
                Err(SpiderError::IdCollision) => {
                    if attempt >= 2 {
                        return r;
                    }
                    attempt = attempt + 1;
                },
                _ => {
                    proof {
                        if r is Ok {
                            let keys = self.spider_api_keys@;
                            assert(keys[keys.len() - 1].key@ == r->Ok_0.key@);
                            reveal_strlit("sp_");
                            assert(r->Ok_0.key@.skip(3) =~= without_char(uuid@, '-'));
                            assert("sp_"@.is_prefix_of(r->Ok_0.key@));
                        }
                    }
                    return r;
                },
            }
        }
    }

    /// All Spider keys. Needs an admin key.
    pub fn list_spider_keys(&self, admin_key: &str) -> (r: Result<Vec<SpiderApiKey>, SpiderError>)
        ensures
            !self.key_is_admin(admin_key@) ==> r == Err::<Vec<SpiderApiKey>, SpiderError>(SpiderError::NotAdmin),
            self.key_is_admin(admin_key@) ==> {
                &&& r is Ok
                &&& r->Ok_0@.len() == self.spider_api_keys@.len()
                &&& forall|i: int| 0 <= i < self.spider_api_keys@.len() ==> same_spider_key(#[trigger] r->Ok_0@[i], self.spider_api_keys@[i])
            },
    {
        if !self.validate_admin_key(admin_key) {
            return Err(SpiderError::NotAdmin);
        }
        let mut out: Vec<SpiderApiKey> = Vec::new();
        let mut i: usize = 0;
        while i < self.spider_api_keys.len()
            invariant
                0 <= i <= self.spider_api_keys@.len(),
                out@.len() == i,
                forall|k: int| 0 <= k < i ==> same_spider_key(#[trigger] out@[k], self.spider_api_keys@[k]),
            decreases self.spider_api_keys@.len() - i,
        {
            out.push(copy_spider_key(&self.spider_api_keys[i]));
            i = i + 1;
        }
        Ok(out)
    }

    /// Removes every Spider key whose string is `key_id`; fails when there is
    /// none. Needs an admin key.
    pub fn revoke_spider_key(&mut self, key_id: &str, admin_key: &str) -> (r: Result<String, SpiderError>)
        ensures
            old(self).pending_wf() ==> final(self).pending_wf(),
            !old(self).key_is_admin(admin_key@) ==> r == Err::<String, SpiderError>(SpiderError::NotAdmin) && *final(self) == *old(self),
            old(self).key_is_admin(admin_key@) ==> {
                &&& final(self).spider_api_keys@ == spider_keys_without(old(self).spider_api_keys@, key_id@)
                &&& !spider_key_listed(final(self).spider_api_keys@, key_id@)
                &&& final(self).api_keys == old(self).api_keys
                &&& spider_key_listed(old(self).spider_api_keys@, key_id@) ==> r is Ok && r->Ok_0@ == "Spider API key "@ + key_id@ + " revoked"@
                &&& !spider_key_listed(old(self).spider_api_keys@, key_id@) ==> r is Err && r->Err_0 is SpiderKeyNotFound && r->Err_0->SpiderKeyNotFound_0@ == key_id@
            },
    {
        if !self.validate_admin_key(admin_key) {
            return Err(SpiderError::NotAdmin);
        }
        let ghost orig = self.spider_api_keys@;
        let initial_len = self.spider_api_keys.len();
        let mut i: usize = 0;
        let ghost mut j: int = 0;
        while i < self.spider_api_keys.len()
            invariant
                0 <= i <= self.spider_api_keys@.len(),
                0 <= j <= orig.len(),
                self.spider_api_keys@.take(i as int) == spider_keys_without(orig.take(j), key_id@),
                self.spider_api_keys@.skip(i as int) == orig.skip(j),
                self.spider_api_keys@.len() - i == orig.len() - j,
                self.api_keys == old(self).api_keys,
                self.pending_mcp_requests == old(self).pending_mcp_requests,
                self.ws_connections == old(self).ws_connections,
                orig == old(self).spider_api_keys@,
            decreases self.spider_api_keys@.len() - i,
        {
            let ghost before = self.spider_api_keys@;
            proof { lemma_filter_step(before, orig, i as int, j); }
            if str_eq(self.spider_api_keys[i].key.as_str(), key_id) {
                self.spider_api_keys.remove(i);
            } else {
                i = i + 1;
            }
            proof { j = j + 1; }
        }
        assert(orig.skip(j).len() == 0);
        assert(orig.take(j) =~= orig);
        assert(self.spider_api_keys@.take(i as int) =~= self.spider_api_keys@);
        proof { lemma_spider_keys_without(orig, key_id@); }
        if self.spider_api_keys.len() < initial_len {
            Ok(cat3("Spider API key ", key_id, " revoked"))
        } else {
            Err(SpiderError::SpiderKeyNotFound(copy_str(key_id)))
        }
    }
}

} // verus!
