//! The in-memory session: the derived key, the salt and the decrypted vault
//! while unlocked, and the account operations the application offers on it.

use vstd::prelude::*;
use crate::crypto::message;
use crate::codec::hex_text;

verus! {

/// One stored account. `stats` holds the last fetched statistics as JSON text.
#[derive(Debug, Clone)]
pub struct Account {
    pub id: String,
    pub label: String,
    pub username: String,
    pub password: String,
    pub riot_id: String,
    pub region: String,
    pub stats: Option<String>,
    pub created_at: String,
}

/// The text of every field of an account.
pub struct AccountView {
    pub id: Seq<char>,
    pub label: Seq<char>,
    pub username: Seq<char>,
    pub password: Seq<char>,
    pub riot_id: Seq<char>,
    pub region: Seq<char>,
    pub stats: Option<Seq<char>>,
    pub created_at: Seq<char>,
}

/// The text of an optional string.
pub open spec fn opt_view(o: Option<String>) -> Option<Seq<char>> {
    match o {
        Some(s) => Some(s@),
        None => None,
    }
}

impl View for Account {
    type V = AccountView;

    open spec fn view(&self) -> AccountView {
        AccountView {
            id: self.id@,
            label: self.label@,
            username: self.username@,
            password: self.password@,
            riot_id: self.riot_id@,
            region: self.region@,
            stats: opt_view(self.stats),
            created_at: self.created_at@,
        }
    }
}

/// The decrypted vault: the list of accounts.
#[derive(Debug, Clone)]
pub struct VaultData {
    pub accounts: Vec<Account>,
}

impl View for VaultData {
    type V = Seq<AccountView>;

    open spec fn view(&self) -> Seq<AccountView> {
        self.accounts@.map_values(|a: Account| a@)
    }
}

/// An account without its password, as shown to the user interface.
#[derive(Debug)]
pub struct SafeAccount {
    pub id: String,
    pub label: String,
    pub username: String,
    pub riot_id: String,
    pub region: String,
    pub stats: Option<String>,
}

/// The fields of a new account, as entered by the user.
#[derive(Debug)]
pub struct NewAccount {
    pub label: String,
    pub username: String,
    pub password: String,
    pub riot_id: String,
    pub region: String,
}

/// The fields to change in an account; `None` keeps a field as it is.
#[derive(Debug)]
pub struct AccountUpdates {
    pub label: Option<String>,
    pub username: Option<String>,
    pub password: Option<String>,
    pub riot_id: Option<String>,
    pub region: Option<String>,
    pub stats: Option<String>,
}

/// The outcome of refreshing one account's statistics: the statistics (JSON
/// text) on success, else the error.
#[derive(Debug)]
pub struct RefreshResult {
    pub id: String,
    pub success: bool,
    pub stats: Option<String>,
    pub error: Option<String>,
}

/// The session: `key`, `salt` and `vault` are all set while unlocked and all
/// empty while locked.
#[derive(Debug)]
pub struct SessionState {
    pub key: Option<Vec<u8>>,
    pub salt: Option<String>,
    pub vault: Option<VaultData>,
}

/// The bytes of a version-4 UUID made from 16 random bytes: the version
/// nibble of byte 6 set to 4, the variant bits of byte 8 set to `10`.
pub open spec fn uuid_v4_bytes(b: Seq<u8>) -> Seq<u8> {
    b.update(6, (b[6] & 0x0f) | 0x40).update(8, (b[8] & 0x3f) | 0x80)
}

/// The lowercase hyphenated text of the version-4 UUID made from 16 random
/// bytes: groups of 4, 2, 2, 2 and 6 bytes in hex, joined by `-`.
pub open spec fn uuid_v4_text(b: Seq<u8>) -> Seq<char> {
    let u = uuid_v4_bytes(b);
    hex_text(u.subrange(0, 4)) + "-"@ + hex_text(u.subrange(4, 6)) + "-"@ + hex_text(u.subrange(6, 8)) + "-"@
        + hex_text(u.subrange(8, 10)) + "-"@ + hex_text(u.subrange(10, 16))
}

/// `uuid::Builder::from_random_bytes(..).into_uuid().to_string()`: the
/// version-4 UUID made from the 16 given bytes, in its lowercase hyphenated
/// form.
#[verifier::external_body]
fn uuid_from_random_bytes(bytes: &[u8]) -> (r: String)
    requires
        bytes@.len() == 16,
    ensures
        r@ == uuid_v4_text(bytes@),
{
    let mut raw = [0u8; 16];
    raw.copy_from_slice(bytes);
    uuid::Builder::from_random_bytes(raw).into_uuid().to_string()
}

/// The account stored for a new one: its fields as entered, the given id
/// and creation time, and no statistics.
pub open spec fn new_account_view(a: NewAccount, id: Seq<char>, created_at: Seq<char>) -> AccountView {
    AccountView {
        id,
        label: a.label@,
        username: a.username@,
        password: a.password@,
        riot_id: a.riot_id@,
        region: a.region@,
        stats: None,
        created_at,
    }
}

/// `i` is the first account with the given id.
pub open spec fn first_with_id(accounts: Seq<AccountView>, id: Seq<char>, i: int) -> bool {
    &&& 0 <= i < accounts.len()
    &&& accounts[i].id == id
    &&& forall|j: int| 0 <= j < i ==> #[trigger] accounts[j].id != id
}

/// Some account has the given id.
pub open spec fn has_id(accounts: Seq<AccountView>, id: Seq<char>) -> bool {
    exists|i: int| 0 <= i < accounts.len() && #[trigger] accounts[i].id == id
}

/// An account after applying updates: every given field replaces the old one,
/// except an empty password, which keeps the old password.
pub open spec fn updated(a: AccountView, u: AccountUpdates) -> AccountView {
    AccountView {
        id: a.id,
        label: match u.label { Some(v) => v@, None => a.label },
        username: match u.username { Some(v) => v@, None => a.username },
        password: match u.password {
            Some(v) => if v@.len() > 0 { v@ } else { a.password },
            None => a.password,
        },
        riot_id: match u.riot_id { Some(v) => v@, None => a.riot_id },
        region: match u.region { Some(v) => v@, None => a.region },
        stats: match u.stats { Some(v) => Some(v@), None => a.stats },
        created_at: a.created_at,
    }
}

/// The account shown to the user interface: every field but the password
/// and the creation time.
pub open spec fn safe_matches(s: SafeAccount, a: AccountView) -> bool {
    &&& s.id@ == a.id
    &&& s.label@ == a.label
    &&& s.username@ == a.username
    &&& s.riot_id@ == a.riot_id
    &&& s.region@ == a.region
    &&& opt_view(s.stats) == a.stats
}

fn clone_opt(o: &Option<String>) -> (r: Option<String>)
    ensures
        opt_view(r) == opt_view(*o),
{
    match o {
        Some(s) => Some(s.clone()),
        None => None,
    }
}

fn clone_account(a: &Account) -> (r: Account)
    ensures
        r@ == a@,
{
    Account {
        id: a.id.clone(),
        label: a.label.clone(),
        username: a.username.clone(),
        password: a.password.clone(),
        riot_id: a.riot_id.clone(),
        region: a.region.clone(),
        stats: clone_opt(&a.stats),
        created_at: a.created_at.clone(),
    }
}

/// The index of the first account with the given id.
fn find_account(accounts: &Vec<Account>, id: &String) -> (r: Option<usize>)
    ensures
        match r {
            Some(i) => first_with_id(accounts@.map_values(|a: Account| a@), id@, i as int),
            None => !has_id(accounts@.map_values(|a: Account| a@), id@),
        },
{
    let ghost v = accounts@.map_values(|a: Account| a@);
    let mut i: usize = 0;
    while i < accounts.len()
        invariant
            i <= accounts.len(),
            v == accounts@.map_values(|a: Account| a@),
            forall|j: int| 0 <= j < i ==> #[trigger] v[j].id != id@,
        decreases accounts.len() - i,
    {
        if accounts[i].id == *id {
            return Some(i);
        }
        i = i + 1;
    }
    None
}

/// The accounts whose id differs from `id`, in order.
pub open spec fn without_id(accounts: Seq<AccountView>, id: Seq<char>) -> Seq<AccountView>
    decreases accounts.len(),
{
    if accounts.len() == 0 {
        seq![]
    } else {
        let rest = without_id(accounts.drop_last(), id);
        if accounts.last().id != id { rest.push(accounts.last()) } else { rest }
    }
}

/// The (id, Riot ID, region) of every account, in order.
pub open spec fn targets_match(t: Seq<(String, String, String)>, accounts: Seq<AccountView>) -> bool {
    &&& t.len() == accounts.len()
    &&& forall|i: int| 0 <= i < t.len() ==> {
        &&& (#[trigger] t[i]).0@ == accounts[i].id
        &&& t[i].1@ == accounts[i].riot_id
        &&& t[i].2@ == accounts[i].region
    }
}

/// An account added under an id no account had is then the first, and the
/// only, account with that id: looking the id up finds exactly it.
pub proof fn lemma_added_account_found(accounts: Seq<AccountView>, a: AccountView)
    requires
        !has_id(accounts, a.id),
    ensures
        forall|i: int| #[trigger] first_with_id(accounts.push(a), a.id, i) <==> i == accounts.len(),
{
    let n = accounts.push(a);
    assert forall|i: int| #[trigger] first_with_id(n, a.id, i) <==> i == accounts.len() by {
        if i == accounts.len() {
            assert forall|j: int| 0 <= j < i implies #[trigger] n[j].id != a.id by {
                assert(n[j] == accounts[j]);
                if accounts[j].id == a.id {
                    assert(has_id(accounts, a.id));
                }
            }
        } else if 0 <= i < accounts.len() {
            assert(n[i] == accounts[i]);
            if accounts[i].id == a.id {
                assert(has_id(accounts, a.id));
            }
        }
    }
}

/// After deleting an id no account has it, every account with another id is
/// kept, and nothing is added.
pub proof fn lemma_deleted_account_gone(accounts: Seq<AccountView>, id: Seq<char>)
    ensures
        !has_id(without_id(accounts, id), id),
        forall|i: int| 0 <= i < accounts.len() && (#[trigger] accounts[i]).id != id
            ==> without_id(accounts, id).contains(accounts[i]),
        forall|a: AccountView| without_id(accounts, id).contains(a) ==> accounts.contains(a),
    decreases accounts.len(),
{
    if accounts.len() > 0 {
        let prev = accounts.drop_last();
        lemma_deleted_account_gone(prev, id);
        let rest = without_id(prev, id);
        let w = without_id(accounts, id);
        assert forall|i: int| 0 <= i < accounts.len() && (#[trigger] accounts[i]).id != id
            implies w.contains(accounts[i]) by {
            if i < accounts.len() - 1 {
                assert(prev[i] == accounts[i]);
                let k = choose|k: int| 0 <= k < rest.len() && rest[k] == prev[i];
                if accounts.last().id != id {
                    assert(w[k] == rest[k]);
                }
            } else {
                assert(w[w.len() - 1] == accounts.last());
            }
        }
        assert forall|a: AccountView| w.contains(a) implies accounts.contains(a) by {
            let k = choose|k: int| 0 <= k < w.len() && w[k] == a;
            if k < rest.len() {
                assert(rest[k] == a);
                assert(rest.contains(a));
                assert(prev.contains(a));
                let m = choose|m: int| 0 <= m < prev.len() && prev[m] == a;
                assert(accounts[m] == a);
            } else {
                assert(accounts[accounts.len() - 1] == a);
            }
        }
        if has_id(w, id) {
            let k = choose|k: int| 0 <= k < w.len() && #[trigger] w[k].id == id;
            if k < rest.len() {
                assert(rest[k].id == id);
                assert(has_id(rest, id));
            }
        }
    }
}

/// Updating an account keeps the number of accounts and every id.
pub proof fn lemma_update_keeps_ids(accounts: Seq<AccountView>, i: int, u: AccountUpdates)
    requires
        0 <= i < accounts.len(),
    ensures
        accounts.update(i, updated(accounts[i], u)).len() == accounts.len(),
        forall|j: int| 0 <= j < accounts.len() ==> (#[trigger] accounts.update(i, updated(accounts[i], u))[j]).id == accounts[j].id,
{
}

/// An update replaces each field it gives: the label, user name, Riot ID,
/// region and statistics become the given values, the password becomes a
/// given non-empty one; fields not given, an empty password, the id and the
/// creation time stay as they were.
pub proof fn lemma_update_sets_given_fields(a: AccountView, u: AccountUpdates)
    ensures
        updated(a, u).id == a.id,
        updated(a, u).created_at == a.created_at,
        u.label matches Some(v) ==> updated(a, u).label == v@,
        u.label is None ==> updated(a, u).label == a.label,
        u.username matches Some(v) ==> updated(a, u).username == v@,
        u.username is None ==> updated(a, u).username == a.username,
        u.riot_id matches Some(v) ==> updated(a, u).riot_id == v@,
        u.riot_id is None ==> updated(a, u).riot_id == a.riot_id,
        u.region matches Some(v) ==> updated(a, u).region == v@,
        u.region is None ==> updated(a, u).region == a.region,
        u.stats matches Some(v) ==> updated(a, u).stats == Some(v@),
        u.stats is None ==> updated(a, u).stats == a.stats,
        u.password matches Some(v) ==> (v@.len() > 0 ==> updated(a, u).password == v@),
        u.password matches Some(v) ==> (v@.len() == 0 ==> updated(a, u).password == a.password),
        u.password is None ==> updated(a, u).password == a.password,
        updated(updated(a, u), u) == updated(a, u),
{
}

impl SessionState {
    /// The session is either fully unlocked or fully locked.
    pub open spec fn wf(&self) -> bool {
        &&& self.key is Some == self.vault is Some
        &&& self.salt is Some == self.vault is Some
    }

    /// The accounts of the unlocked vault.
    pub open spec fn accounts(&self) -> Seq<AccountView> {
        self.vault.unwrap()@
    }

    /// A locked session.
    pub fn new() -> (r: SessionState)
        ensures
            r.wf(),
            !r.is_authenticated(),
    {
        SessionState { key: None, salt: None, vault: None }
    }

    /// Whether the session is unlocked.
    pub open spec fn spec_is_authenticated(&self) -> bool {
        self.key is Some
    }

    /// Whether the session is unlocked.
    #[verifier::when_used_as_spec(spec_is_authenticated)]
    pub fn is_authenticated(&self) -> (r: bool)
        ensures
            r == self.key is Some,
    {
        self.key.is_some()
    }

    /// Locks the session: the key bytes are overwritten with zeros, then the
    /// key, the salt and the vault are dropped.
    pub fn clear(&mut self)
        ensures
            final(self).wf(),
            final(self).key is None,
            final(self).salt is None,
            final(self).vault is None,
    {
        match self.key.take() {
            Some(mut k) => {
                let n = k.len();
                let mut i: usize = 0;
                while i < n
                    invariant
                        i <= n,
                        k@.len() == n,
                        forall|j: int| 0 <= j < i ==> k@[j] == 0,
                    decreases n - i,
                {
                    k.set(i, 0);
                    i = i + 1;
                }
            },
            None => {},
        }
        self.key = None;
        self.salt = None;
        self.vault = None;
    }

    /// Unlocks the session with a key, its salt and the decrypted vault.
    pub fn set(&mut self, key: Vec<u8>, salt: String, vault: VaultData)
        ensures
            final(self).wf(),
            final(self).key == Some(key),
            final(self).salt == Some(salt),
            final(self).vault == Some(vault),
    {
        self.key = Some(key);
        self.salt = Some(salt);
        self.vault = Some(vault);
    }

    /// `Ok` when the session is unlocked, `Not authenticated` otherwise.
    pub fn require_auth(&self) -> (r: Result<(), String>)
        ensures
            r is Ok <==> self.key is Some,
            r matches Err(e) ==> e@ == "Not authenticated"@,
    {
        if !self.is_authenticated() {
            Err(message("Not authenticated"))
        } else {
            Ok(())
        }
    }

    /// Every account without its password, in vault order.
    pub fn get_all(&self) -> (r: Result<Vec<SafeAccount>, String>)
        requires
            self.wf(),
        ensures
            r is Ok <==> self.key is Some,
            r matches Err(e) ==> e@ == "Not authenticated"@,
            r matches Ok(v) ==> {
                &&& v@.len() == self.accounts().len()
                &&& forall|i: int| 0 <= i < v@.len() ==> #[trigger] safe_matches(v@[i], self.accounts()[i])
            },
    {
        self.require_auth()?;
        let vault = self.vault.as_ref().unwrap();
        let ghost accts = vault@;
        let mut out: Vec<SafeAccount> = Vec::new();
        let mut i: usize = 0;
        while i < vault.accounts.len()
            invariant
                i <= vault.accounts.len(),
                accts == vault@,
                out@.len() == i,
                forall|j: int| 0 <= j < i ==> #[trigger] safe_matches(out@[j], accts[j]),
            decreases vault.accounts.len() - i,
        {
            let a = &vault.accounts[i];
            out.push(SafeAccount {
                id: a.id.clone(),
                label: a.label.clone(),
                username: a.username.clone(),
                riot_id: a.riot_id.clone(),
                region: a.region.clone(),
                stats: clone_opt(&a.stats),
            });
            i = i + 1;
        }
        Ok(out)
    }

    /// Appends a new account with the given id and creation time and no
    /// statistics; returns the id.
    pub fn push_account(&mut self, account: NewAccount, id: String, created_at: String) -> (r: Result<String, String>)
        requires
            old(self).wf(),
        ensures
            final(self).wf(),
            r is Ok <==> old(self).key is Some,
            r matches Err(e) ==> e@ == "Not authenticated"@ && *final(self) == *old(self),
            r matches Ok(rid) ==> {
                &&& rid@ == id@
                &&& final(self).key == old(self).key
                &&& final(self).salt == old(self).salt
                &&& final(self).accounts() == old(self).accounts().push(new_account_view(account, id@, created_at@))
            },
    {
        self.require_auth()?;
        let mut vault = self.vault.take().unwrap();
        let ghost before = vault@;
        let rid = id.clone();
        vault.accounts.push(Account {
            id,
            label: account.label,
            username: account.username,
            password: account.password,
            riot_id: account.riot_id,
            region: account.region,
            stats: None,
            created_at,
        });
        assert(vault@ =~= before.push(vault.accounts@.last()@));
        self.vault = Some(vault);
        Ok(rid)
    }

    /// Adds a new account under a fresh random UUID, stamped with the current
    /// time; returns the id. `None` when the system random generator fails
    /// (nothing is changed then).
    pub fn add_account(&mut self, account: NewAccount) -> (r: Option<Result<String, String>>)
        requires
            old(self).wf(),
        ensures
            final(self).wf(),
            r is None ==> old(self).key is Some && *final(self) == *old(self),
            r matches Some(res) ==> (res is Ok <==> old(self).key is Some),
            r matches Some(Err(e)) ==> e@ == "Not authenticated"@ && *final(self) == *old(self),
            r matches Some(Ok(id)) ==> {
                &&& exists|b: Seq<u8>| b.len() == 16 && id@ == #[trigger] uuid_v4_text(b)
                &&& final(self).key == old(self).key
                &&& final(self).salt == old(self).salt
                &&& final(self).accounts() == old(self).accounts().push(
                    new_account_view(account, id@, final(self).accounts().last().created_at),
                )
                &&& exists|secs: u64| final(self).accounts().last().created_at == #[trigger] crate::clock::iso_of_unix(secs as nat)
            },
    {
        match self.require_auth() {
            Ok(()) => {},
            Err(e) => return Some(Err(e)),
        }
        let bytes = match crate::crypto::random_bytes(16) {
            Some(b) => b,
            None => return None,
        };
        let id = uuid_from_random_bytes(bytes.as_slice());
        let created_at = crate::clock::chrono_now_pub();
        Some(self.push_account(account, id, created_at))
    }

    /// Applies `updates` to the first account with id `id`.
    pub fn update_account(&mut self, id: &String, updates: AccountUpdates) -> (r: Result<(), String>)
        requires
            old(self).wf(),
        ensures
            final(self).wf(),
            final(self).key == old(self).key,
            final(self).salt == old(self).salt,
            r is Ok <==> old(self).key is Some && has_id(old(self).accounts(), id@),
            r matches Err(e) ==> *final(self) == *old(self),
            r matches Err(e) ==> old(self).key is None ==> e@ == "Not authenticated"@,
            r matches Err(e) ==> old(self).key is Some ==> e@ == "Account not found"@,
            r is Ok ==> exists|i: int|
                #[trigger] first_with_id(old(self).accounts(), id@, i)
                    && final(self).accounts() == old(self).accounts().update(i, updated(old(self).accounts()[i], updates)),
    {
        self.require_auth()?;
        let mut vault = self.vault.take().unwrap();
        let ghost before = vault@;
        let i = match find_account(&vault.accounts, id) {
            Some(i) => i,
            None => {
                self.vault = Some(vault);
                return Err(message("Account not found"));
            },
        };
        let prev = &vault.accounts[i];
        let next = Account {
            id: prev.id.clone(),
            label: match updates.label { Some(v) => v, None => prev.label.clone() },
            username: match updates.username { Some(v) => v, None => prev.username.clone() },
            password: match updates.password {
                Some(v) => if !v.as_str().is_empty() { v } else { prev.password.clone() },
                None => prev.password.clone(),
            },
            riot_id: match updates.riot_id { Some(v) => v, None => prev.riot_id.clone() },
            region: match updates.region { Some(v) => v, None => prev.region.clone() },
            stats: match updates.stats { Some(v) => Some(v), None => clone_opt(&prev.stats) },
            created_at: prev.created_at.clone(),
        };
        assert(next@ == updated(before[i as int], updates));
        vault.accounts.set(i, next);
        assert(vault@ =~= before.update(i as int, updated(before[i as int], updates)));
        self.vault = Some(vault);
        assert(first_with_id(old(self).accounts(), id@, i as int));
        Ok(())
    }

    /// Removes every account with id `id` (none is an error only when locked).
    pub fn delete_account(&mut self, id: &String) -> (r: Result<(), String>)
        requires
            old(self).wf(),
        ensures
            final(self).wf(),
            final(self).key == old(self).key,
            final(self).salt == old(self).salt,
            r is Ok <==> old(self).key is Some,
            r matches Err(e) ==> e@ == "Not authenticated"@ && *final(self) == *old(self),
            r is Ok ==> final(self).accounts() == without_id(old(self).accounts(), id@),
    {
        self.require_auth()?;
        let mut vault = self.vault.take().unwrap();
        let ghost before = vault@;
        let mut kept: Vec<Account> = Vec::new();
        let mut i: usize = 0;
        while i < vault.accounts.len()
            invariant
                i <= vault.accounts.len(),
                before == vault@,
                kept@.map_values(|a: Account| a@) == without_id(before.take(i as int), id@),
            decreases vault.accounts.len() - i,
        {
            let ghost prefix = before.take(i as int);
            assert(before.take(i + 1).drop_last() =~= prefix);
            if vault.accounts[i].id != *id {
                let a = clone_account(&vault.accounts[i]);
                let ghost k0 = kept@;
                kept.push(a);
                assert(kept@.map_values(|a: Account| a@) =~= k0.map_values(|a: Account| a@).push(a@));
            }
            i = i + 1;
        }
        assert(before.take(vault.accounts.len() as int) =~= before);
        vault.accounts = kept;
        self.vault = Some(vault);
        Ok(())
    }

    /// The password of the first account with id `id`.
    pub fn get_password(&self, id: &String) -> (r: Result<String, String>)
        requires
            self.wf(),
        ensures
            r is Ok <==> self.key is Some && has_id(self.accounts(), id@),
            r matches Err(e) ==> self.key is None ==> e@ == "Not authenticated"@,
            r matches Err(e) ==> self.key is Some ==> e@ == "Account not found"@,
            r matches Ok(p) ==> exists|i: int|
                #[trigger] first_with_id(self.accounts(), id@, i) && p@ == self.accounts()[i].password,
    {
        self.require_auth()?;
        let vault = self.vault.as_ref().unwrap();
        match find_account(&vault.accounts, id) {
            Some(i) => {
                assert(first_with_id(self.accounts(), id@, i as int));
                assert(vault.accounts@[i as int]@.password == self.accounts()[i as int].password);
                Ok(vault.accounts[i].password.clone())
            },
            None => Err(message("Account not found")),
        }
    }

    /// The Riot ID and region of the first account with id `id`, whose
    /// statistics are to be refreshed.
    pub fn stats_target(&self, id: &String) -> (r: Result<(String, String), String>)
        requires
            self.wf(),
        ensures
            r is Ok <==> self.key is Some && has_id(self.accounts(), id@),
            r matches Err(e) ==> self.key is None ==> e@ == "Not authenticated"@,
            r matches Err(e) ==> self.key is Some ==> e@ == "Account not found"@,
            r matches Ok(t) ==> exists|i: int|
                #[trigger] first_with_id(self.accounts(), id@, i) && t.0@ == self.accounts()[i].riot_id
                    && t.1@ == self.accounts()[i].region,
    {
        self.require_auth()?;
        let vault = self.vault.as_ref().unwrap();
        match find_account(&vault.accounts, id) {
            Some(i) => {
                assert(first_with_id(self.accounts(), id@, i as int));
                assert(vault.accounts@[i as int]@ == self.accounts()[i as int]);
                Ok((vault.accounts[i].riot_id.clone(), vault.accounts[i].region.clone()))
            },
            None => Err(message("Account not found")),
        }
    }

    /// `Ok` when unlocked and an account has id `id`.
    pub fn require_account(&self, id: &String) -> (r: Result<(), String>)
        requires
            self.wf(),
        ensures
            r is Ok <==> self.key is Some && has_id(self.accounts(), id@),
            r matches Err(e) ==> self.key is None ==> e@ == "Not authenticated"@,
            r matches Err(e) ==> self.key is Some ==> e@ == "Account not found"@,
    {
        self.require_auth()?;
        let vault = self.vault.as_ref().unwrap();
        match find_account(&vault.accounts, id) {
            Some(i) => Ok(()),
            None => Err(message("Account not found")),
        }
    }

    /// Stores fetched statistics (JSON text) on the first account with id
    /// `id`; nothing changes when there is none.
    pub fn set_stats(&mut self, id: &String, stats: String)
        requires
            old(self).wf(),
            old(self).key is Some,
        ensures
            final(self).wf(),
            final(self).key == old(self).key,
            final(self).salt == old(self).salt,
            !has_id(old(self).accounts(), id@) ==> final(self).accounts() == old(self).accounts(),
            has_id(old(self).accounts(), id@) ==> exists|i: int|
                #[trigger] first_with_id(old(self).accounts(), id@, i)
                    && final(self).accounts() == old(self).accounts().update(i, AccountView {
                        stats: Some(stats@),
                        ..old(self).accounts()[i]
                    }),
    {
        let mut vault = self.vault.take().unwrap();
        let ghost before = vault@;
        match find_account(&vault.accounts, id) {
            Some(i) => {
                let mut a = clone_account(&vault.accounts[i]);
                a.stats = Some(stats);
                let ghost av = a@;
                vault.accounts.set(i, a);
                assert(vault@ =~= before.update(i as int, av));
            },
            None => {},
        }
        self.vault = Some(vault);
    }

    /// The (id, Riot ID, region) of every account, taken before refreshing
    /// all statistics.
    pub fn refresh_targets(&self) -> (r: Result<Vec<(String, String, String)>, String>)
        requires
            self.wf(),
        ensures
            r is Ok <==> self.key is Some,
            r matches Err(e) ==> e@ == "Not authenticated"@,
            r matches Ok(t) ==> targets_match(t@, self.accounts()),
    {
        self.require_auth()?;
        let vault = self.vault.as_ref().unwrap();
        let ghost accts = vault@;
        let mut out: Vec<(String, String, String)> = Vec::new();
        let mut i: usize = 0;
        while i < vault.accounts.len()
            invariant
                i <= vault.accounts.len(),
                accts == vault@,
                out@.len() == i,
                forall|j: int| 0 <= j < i ==> {
                    &&& (#[trigger] out@[j]).0@ == accts[j].id
                    &&& out@[j].1@ == accts[j].riot_id
                    &&& out@[j].2@ == accts[j].region
                },
            decreases vault.accounts.len() - i,
        {
            let a = &vault.accounts[i];
            out.push((a.id.clone(), a.riot_id.clone(), a.region.clone()));
            i = i + 1;
        }
        Ok(out)
    }

    /// Records the outcome of refreshing the account with id `id`: fetched
    /// statistics are stored on the account (as `set_stats` does) and
    /// reported; an error changes nothing and is reported.
    pub fn record_refresh(&mut self, id: &String, outcome: Result<String, String>) -> (r: RefreshResult)
        requires
            old(self).wf(),
            outcome is Ok ==> old(self).key is Some,
        ensures
            final(self).wf(),
            final(self).key == old(self).key,
            final(self).salt == old(self).salt,
            r.id@ == id@,
            r.success == outcome is Ok,
            outcome matches Err(e) ==> r.error == Some(e) && r.stats is None && *final(self) == *old(self),
            outcome matches Ok(st) ==> r.stats == Some(st) && r.error is None,
            outcome is Ok && !has_id(old(self).accounts(), id@) ==> final(self).accounts() == old(self).accounts(),
            outcome matches Ok(st) ==> has_id(old(self).accounts(), id@) ==> exists|i: int|
                #[trigger] first_with_id(old(self).accounts(), id@, i)
                    && final(self).accounts() == old(self).accounts().update(i, AccountView {
                        stats: Some(st@),
                        ..old(self).accounts()[i]
                    }),
    {
        match outcome {
            Ok(st) => {
                self.set_stats(id, st.clone());
                RefreshResult { id: id.clone(), success: true, stats: Some(st), error: None }
            },
            Err(e) => RefreshResult { id: id.clone(), success: false, stats: None, error: Some(e) },
        }
    }
}

} // verus!
