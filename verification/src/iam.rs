//! Identity and access management: identities and service accounts.

use crate::error::{SecurityError, SecurityResult};
use crate::rbac::texts;
use crate::store::StringMap;
use crate::text::{join2, join3};
use crate::trusted::{now_rfc3339, random_uuid_text, utc_rfc3339_form, uuid_text_form};
use vstd::prelude::*;

verus! {

/// Where an identity comes from.
#[derive(Debug, Clone, Copy, PartialEq, Eq, Structural)]
pub enum IdentityProvider {
    Local,
    Ldap,
    OAuth2,
    Saml,
}

/// A managed identity (user or service account).
#[derive(Debug, Clone)]
pub struct Identity {
    pub id: String,
    pub username: String,
    pub display_name: String,
    pub email: Option<String>,
    pub provider: IdentityProvider,
    pub enabled: bool,
    /// RFC 3339 creation time.
    pub created_at: String,
    /// RFC 3339 time of the last recorded login.
    pub last_login: Option<String>,
    pub metadata: StringMap<String>,
}

/// Service account for machine-to-machine authentication.
#[derive(Debug, Clone)]
pub struct ServiceAccount {
    pub id: String,
    pub name: String,
    pub secret_hash: String,
    pub scopes: Vec<String>,
    pub enabled: bool,
}

/// The text of an optional string.
pub open spec fn opt_text(o: Option<String>) -> Option<Seq<char>> {
    match o {
        Some(s) => Some(s@),
        None => None,
    }
}

/// The text of an optional string slice.
pub open spec fn opt_str_text(o: Option<&str>) -> Option<Seq<char>> {
    match o {
        Some(s) => Some(s@),
        None => None,
    }
}

/// The model of an identity.
pub struct IdentityView {
    pub id: Seq<char>,
    pub username: Seq<char>,
    pub display_name: Seq<char>,
    pub email: Option<Seq<char>>,
    pub provider: IdentityProvider,
    pub enabled: bool,
    pub created_at: Seq<char>,
    pub last_login: Option<Seq<char>>,
    pub metadata: Map<Seq<char>, Seq<char>>,
}

impl View for Identity {
    type V = IdentityView;

    open spec fn view(&self) -> IdentityView {
        IdentityView {
            id: self.id@,
            username: self.username@,
            display_name: self.display_name@,
            email: opt_text(self.email),
            provider: self.provider,
            enabled: self.enabled,
            created_at: self.created_at@,
            last_login: opt_text(self.last_login),
            metadata: self.metadata@.map_values(|s: String| s@),
        }
    }
}

/// The model of a service account.
pub struct ServiceAccountView {
    pub id: Seq<char>,
    pub name: Seq<char>,
    pub secret_hash: Seq<char>,
    pub scopes: Seq<Seq<char>>,
    pub enabled: bool,
}

impl View for ServiceAccount {
    type V = ServiceAccountView;

    open spec fn view(&self) -> ServiceAccountView {
        ServiceAccountView {
            id: self.id@,
            name: self.name@,
            secret_hash: self.secret_hash@,
            scopes: texts(self.scopes@),
            enabled: self.enabled,
        }
    }
}

/// The model of the manager: identities and service accounts by id.
pub struct IamView {
    pub identities: Map<Seq<char>, IdentityView>,
    pub service_accounts: Map<Seq<char>, ServiceAccountView>,
}

impl IamView {
    /// Some identity has this username.
    pub open spec fn username_taken(self, username: Seq<char>) -> bool {
        exists|k: Seq<char>| #[trigger]
            self.identities.contains_key(k) && self.identities[k].username == username
    }

    /// No two identities share a username, and each is stored under its id.
    pub open spec fn consistent(self) -> bool {
        &&& forall|a: Seq<char>, b: Seq<char>|
            #![trigger self.identities[a], self.identities[b]]
            self.identities.contains_key(a) && self.identities.contains_key(b) && a != b
                ==> self.identities[a].username != self.identities[b].username
        &&& forall|k: Seq<char>| #[trigger] self.identities.contains_key(k) ==> self.identities[k].id == k
    }
}

/// A new local identity as `create_identity` makes it.
pub open spec fn fresh_identity(
    v: IdentityView,
    username: Seq<char>,
    display_name: Seq<char>,
    email: Option<Seq<char>>,
) -> bool {
    &&& v.username == username
    &&& v.display_name == display_name
    &&& v.email == email
    &&& v.provider == IdentityProvider::Local
    &&& v.enabled
    &&& v.last_login.is_none()
    &&& v.metadata == Map::<Seq<char>, Seq<char>>::empty()
}

/// The identity with `enabled` cleared.
pub open spec fn disabled(v: IdentityView) -> IdentityView {
    IdentityView { enabled: false, ..v }
}

/// The identity with a login at time `t` recorded.
pub open spec fn logged_in(v: IdentityView, t: Seq<char>) -> IdentityView {
    IdentityView { last_login: Some(t), ..v }
}

/// The message for a username that is taken.
pub open spec fn username_taken_message(username: Seq<char>) -> Seq<char> {
    "Username '"@ + username + "' already exists"@
}

/// The message for an identity that does not exist.
pub open spec fn identity_missing_message(id: Seq<char>) -> Seq<char> {
    "Identity "@ + id
}

/// A copy of a list of strings.
fn copy_texts(v: &Vec<String>) -> (r: Vec<String>)
    ensures
        r@ == v@,
{
    let mut r: Vec<String> = Vec::new();
    let mut i: usize = 0;
    while i < v.len()
        invariant
            i <= v@.len(),
            r@ == v@.take(i as int),
        decreases v@.len() - i,
    {
        r.push(v[i].clone());
        proof {
            assert(v@.take(i + 1) =~= v@.take(i as int).push(v@[i as int]));
        }
        i += 1;
    }
    proof {
        assert(v@.take(v@.len() as int) =~= v@);
    }
    r
}

/// An owned copy of an optional string slice.
fn own_opt(o: Option<&str>) -> (r: Option<String>)
    ensures
        opt_text(r) == opt_str_text(o),
{
    match o {
        Some(s) => Some(s.to_owned()),
        None => None,
    }
}

/// Identity and access management engine.
pub struct IamManager {
    identities: StringMap<Identity>,
    service_accounts: StringMap<ServiceAccount>,
}

impl View for IamManager {
    type V = IamView;

    closed spec fn view(&self) -> IamView {
        IamView {
            identities: self.identities@.map_values(|i: Identity| i@),
            service_accounts: self.service_accounts@.map_values(|a: ServiceAccount| a@),
        }
    }
}

impl IamManager {
    /// Well-formedness: the stores are well formed and the model is consistent.
    pub closed spec fn wf(&self) -> bool {
        &&& self.identities.wf()
        &&& self.service_accounts.wf()
        &&& self@.consistent()
    }

    /// A well-formed manager has unique usernames, and each identity is
    /// stored under its own id.
    pub proof fn lemma_consistent(&self)
        requires
            self.wf(),
        ensures
            self@.consistent(),
    {
    }

    /// The ids of the identities in storage order.
    pub closed spec fn identity_order(&self) -> Seq<Seq<char>> {
        self.identities.key_seq()
    }

    /// The storage order enumerates the identity ids, each once.
    pub proof fn lemma_identity_order(&self)
        requires
            self.wf(),
        ensures
            self.identity_order().no_duplicates(),
            forall|k: Seq<char>| #[trigger]
                self@.identities.contains_key(k) <==> self.identity_order().contains(k),
    {
        self.identities.lemma_key_seq();
    }

    /// A manager without identities or service accounts.
    pub fn new() -> (r: Self)
        ensures
            r.wf(),
            r@.identities == Map::<Seq<char>, IdentityView>::empty(),
            r@.service_accounts == Map::<Seq<char>, ServiceAccountView>::empty(),
    {
        let r = IamManager { identities: StringMap::new(), service_accounts: StringMap::new() };
        assert(r@.identities =~= Map::<Seq<char>, IdentityView>::empty());
        assert(r@.service_accounts =~= Map::<Seq<char>, ServiceAccountView>::empty());
        r
    }

    /// Whether some identity has the username.
    fn username_in_use(&self, username: &str) -> (r: bool)
        requires
            self.wf(),
        ensures
            r == self@.username_taken(username@),
    {
        self.find_by_username(username).is_some()
    }

    /// Creates an enabled local identity with a fresh id and the current time
    /// as creation time. The username must not be in use.
    pub fn create_identity(&mut self, username: &str, display_name: &str, email: Option<&str>) -> (r:
        SecurityResult<Identity>)
        requires
            old(self).wf(),
        ensures
            final(self).wf(),
            r is Err <==> old(self)@.username_taken(username@),
            r matches Err(e) ==> {
                &&& e is Internal
                &&& e.message_spec() == username_taken_message(username@)
                &&& final(self)@ == old(self)@
            },
            r matches Ok(ident) ==> {
                &&& fresh_identity(ident@, username@, display_name@, opt_str_text(email))
                &&& uuid_text_form(ident.id@)
                &&& utc_rfc3339_form(ident.created_at@)
                &&& final(self)@.identities == old(self)@.identities.insert(ident.id@, ident@)
                &&& final(self)@.service_accounts == old(self)@.service_accounts
            },
    {
        let id = random_uuid_text();
        let created = now_rfc3339();
        self.create_identity_with(id, created, username, display_name, email)
    }

    /// Creates an enabled local identity with the given id and creation time.
    /// The username must not be in use.
    pub fn create_identity_with(
        &mut self,
        id: String,
        created_at: String,
        username: &str,
        display_name: &str,
        email: Option<&str>,
    ) -> (r: SecurityResult<Identity>)
        requires
            old(self).wf(),
        ensures
            final(self).wf(),
            r is Err <==> old(self)@.username_taken(username@),
            r matches Err(e) ==> {
                &&& e is Internal
                &&& e.message_spec() == username_taken_message(username@)
                &&& final(self)@ == old(self)@
            },
            r matches Ok(ident) ==> {
                &&& fresh_identity(ident@, username@, display_name@, opt_str_text(email))
                &&& ident.id@ == id@
                &&& ident.created_at@ == created_at@
                &&& final(self)@.identities == old(self)@.identities.insert(id@, ident@)
                &&& final(self)@.service_accounts == old(self)@.service_accounts
            },
    {
        if self.username_in_use(username) {
            return Err(SecurityError::Internal(join3("Username '", username, "' already exists")));
        }
        let created = created_at;
        let stored = Identity {
            id: id.clone(),
            username: username.to_owned(),
            display_name: display_name.to_owned(),
            email: own_opt(email),
            provider: IdentityProvider::Local,
            enabled: true,
            created_at: created.clone(),
            last_login: None,
            metadata: StringMap::new(),
        };
        let identity = Identity {
            id,
            username: username.to_owned(),
            display_name: display_name.to_owned(),
            email: own_opt(email),
            provider: IdentityProvider::Local,
            enabled: true,
            created_at: created,
            last_login: None,
            metadata: StringMap::new(),
        };
        assert(stored@.metadata =~= Map::<Seq<char>, Seq<char>>::empty());
        assert(identity@.metadata =~= Map::<Seq<char>, Seq<char>>::empty());
        assert(stored@ == identity@);
        let ghost before = self@;
        let ghost raw = self.identities@;
        let ghost sv = stored@;
        self.identities.insert(stored.id.clone(), stored);
        assert(self@.identities =~= before.identities.insert(sv.id, sv));
        assert(self@.consistent()) by {
            assert forall|a: Seq<char>, b: Seq<char>|
                #![trigger self@.identities[a], self@.identities[b]]
                self@.identities.contains_key(a) && self@.identities.contains_key(b) && a != b
                    implies self@.identities[a].username != self@.identities[b].username by {
                if a != sv.id && b != sv.id {
                    assert(before.identities[a] == self@.identities[a]);
                    assert(before.identities[b] == self@.identities[b]);
                } else if a == sv.id {
                    assert(before.identities.contains_key(b));
                    assert(before.identities[b].username != username@);
                } else {
                    assert(before.identities.contains_key(a));
                    assert(before.identities[a].username != username@);
                }
            }
        }
        Ok(identity)
    }

    /// The identity stored under an id.
    pub fn get_identity(&self, id: &str) -> (r: SecurityResult<&Identity>)
        requires
            self.wf(),
        ensures
            r is Err <==> !self@.identities.contains_key(id@),
            r matches Err(e) ==> e is NotFound && e.message_spec() == identity_missing_message(id@),
            r matches Ok(i) ==> i@ == self@.identities[id@],
    {
        match self.identities.get(id) {
            Some(i) => Ok(i),
            None => Err(SecurityError::NotFound(join2("Identity ", id))),
        }
    }

    /// The identity with a username, if there is one; usernames are unique.
    pub fn find_by_username(&self, username: &str) -> (r: Option<&Identity>)
        requires
            self.wf(),
        ensures
            r is None <==> !self@.username_taken(username@),
            r matches Some(i) ==> {
                &&& i.username@ == username@
                &&& self@.identities.contains_key(i.id@)
                &&& self@.identities[i.id@] == i@
            },
    {
        let all = self.identities.values();
        let wanted = username.to_owned();
        let mut i: usize = 0;
        while i < all.len()
            invariant
                self.wf(),
                wanted@ == username@,
                all@.len() == self.identities.key_seq().len(),
                forall|j: int|
                    0 <= j < all@.len() ==> *all@[j] == self.identities@[#[trigger] self.identities.key_seq()[j]],
                i <= all@.len(),
                forall|j: int| 0 <= j < i ==> #[trigger] all@[j].username@ != username@,
            decreases all@.len() - i,
        {
            let item: &Identity = all[i];
            if item.username == wanted {
                proof {
                    self.identities.lemma_key_seq();
                    let k = self.identities.key_seq()[i as int];
                    assert(self.identities.key_seq().contains(k));
                    assert(self@.identities.contains_key(k));
                    assert(self@.identities[k] == item@);
                    assert(self@.identities[k].id == k);
                }
                return Some(item);
            }
            i += 1;
        }
        proof {
            self.identities.lemma_key_seq();
            assert forall|k: Seq<char>| #[trigger]
                self@.identities.contains_key(k) implies self@.identities[k].username != username@ by {
                assert(self.identities.key_seq().contains(k));
                let j = choose|j: int| 0 <= j < self.identities.key_seq().len() && self.identities.key_seq()[j] == k;
                assert(*all@[j] == self.identities@[self.identities.key_seq()[j]]);
            }
        }
        None
    }

    /// Stores an identity back under its id after a change that keeps its id
    /// and username.
    fn put_back(&mut self, identity: Identity, Ghost(previous): Ghost<IdentityView>)
        requires
            old(self).identities.wf(),
            old(self).service_accounts.wf(),
            (IamView { identities: old(self)@.identities.insert(identity.id@, previous), service_accounts: old(self)@.service_accounts }).consistent(),
            identity@.id == previous.id,
            identity@.username == previous.username,
        ensures
            final(self).wf(),
            final(self)@.identities == old(self)@.identities.insert(identity.id@, identity@),
            final(self)@.service_accounts == old(self)@.service_accounts,
    {
        let ghost before = self@;
        let ghost v = identity@;
        self.identities.insert(identity.id.clone(), identity);
        assert(self@.identities =~= before.identities.insert(v.id, v));
        let ghost w = before.identities.insert(v.id, previous);
        assert(self@.consistent()) by {
            assert forall|a: Seq<char>, b: Seq<char>|
                #![trigger self@.identities[a], self@.identities[b]]
                self@.identities.contains_key(a) && self@.identities.contains_key(b) && a != b
                    implies self@.identities[a].username != self@.identities[b].username by {
                assert(w.contains_key(a) && w.contains_key(b));
                assert(w[a].username == self@.identities[a].username);
                assert(w[b].username == self@.identities[b].username);
            }
            assert forall|k: Seq<char>| #[trigger] self@.identities.contains_key(k) implies self@.identities[k].id == k by {
                assert(w.contains_key(k));
            }
        }
    }

    /// Takes the identity under an id out of the store, or reports that
    /// there is none.
    fn take_identity(&mut self, id: &str) -> (r: SecurityResult<Identity>)
        requires
            old(self).wf(),
        ensures
            r is Err <==> !old(self)@.identities.contains_key(id@),
            r matches Err(e) ==> {
                &&& e is NotFound
                &&& e.message_spec() == identity_missing_message(id@)
                &&& final(self)@ == old(self)@
                &&& final(self).wf()
            },
            r matches Ok(i) ==> {
                &&& i@ == old(self)@.identities[id@]
                &&& i.id@ == id@
                &&& final(self).identities.wf()
                &&& final(self).service_accounts.wf()
                &&& final(self)@.identities == old(self)@.identities.remove(id@)
                &&& final(self)@.service_accounts == old(self)@.service_accounts
            },
    {
        let ghost before = self@;
        let ghost raw = self.identities@;
        match self.identities.remove(id) {
            Some(i) => {
                assert(self@.identities =~= before.identities.remove(id@));
                assert(raw.contains_key(id@));
                assert(before.identities[id@] == raw[id@]@);
                assert(i@ == before.identities[id@]);
                assert(before.identities.contains_key(id@));
                assert(before.consistent());
                assert(before.identities[id@].id == id@);
                Ok(i)
            },
            None => {
                assert(self@.identities =~= before.identities);
                Err(SecurityError::NotFound(join2("Identity ", id)))
            },
        }
    }

    /// Disables an identity (soft delete): it stays stored with `enabled`
    /// cleared.
    pub fn disable_identity(&mut self, id: &str) -> (r: SecurityResult<()>)
        requires
            old(self).wf(),
        ensures
            final(self).wf(),
            r is Err <==> !old(self)@.identities.contains_key(id@),
            r matches Err(e) ==> {
                &&& e is NotFound
                &&& e.message_spec() == identity_missing_message(id@)
                &&& final(self)@ == old(self)@
            },
            r is Ok ==> final(self)@.identities == old(self)@.identities.insert(
                id@,
                disabled(old(self)@.identities[id@]),
            ) && final(self)@.service_accounts == old(self)@.service_accounts,
    {
        let ghost before = self@;
        let mut identity = match self.take_identity(id) {
            Ok(i) => i,
            Err(e) => {
                return Err(e);
            },
        };
        let ghost previous = identity@;
        assert(before.identities.remove(id@).insert(id@, previous) =~= before.identities);
        identity.enabled = false;
        assert(identity@ == disabled(previous));
        self.put_back(identity, Ghost(previous));
        assert(self@.identities =~= before.identities.insert(id@, disabled(previous)));
        Ok(())
    }

    /// Records a login at the current time.
    pub fn record_login(&mut self, id: &str) -> (r: SecurityResult<()>)
        requires
            old(self).wf(),
        ensures
            final(self).wf(),
            r is Err <==> !old(self)@.identities.contains_key(id@),
            r matches Err(e) ==> {
                &&& e is NotFound
                &&& e.message_spec() == identity_missing_message(id@)
                &&& final(self)@ == old(self)@
            },
            r is Ok ==> (exists|t: Seq<char>|
                utc_rfc3339_form(t) && final(self)@.identities == old(self)@.identities.insert(
                    id@,
                    logged_in(old(self)@.identities[id@], t),
                )) && final(self)@.service_accounts == old(self)@.service_accounts,
    {
        let now = now_rfc3339();
        self.record_login_at(id, now)
    }

    /// Records a login at the given time.
    pub fn record_login_at(&mut self, id: &str, time: String) -> (r: SecurityResult<()>)
        requires
            old(self).wf(),
        ensures
            final(self).wf(),
            r is Err <==> !old(self)@.identities.contains_key(id@),
            r matches Err(e) ==> {
                &&& e is NotFound
                &&& e.message_spec() == identity_missing_message(id@)
                &&& final(self)@ == old(self)@
            },
            r is Ok ==> final(self)@.identities == old(self)@.identities.insert(
                id@,
                logged_in(old(self)@.identities[id@], time@),
            ) && final(self)@.service_accounts == old(self)@.service_accounts,
    {
        let ghost before = self@;
        let mut identity = match self.take_identity(id) {
            Ok(i) => i,
            Err(e) => {
                return Err(e);
            },
        };
        let ghost previous = identity@;
        assert(before.identities.remove(id@).insert(id@, previous) =~= before.identities);
        let ghost t = time@;
        identity.last_login = Some(time);
        assert(identity@ == logged_in(previous, t));
        self.put_back(identity, Ghost(previous));
        assert(self@.identities =~= before.identities.insert(id@, logged_in(previous, t)));
        Ok(())
    }

    /// Creates an enabled service account with a fresh id and a fresh random
    /// secret.
    pub fn create_service_account(&mut self, name: &str, scopes: Vec<String>) -> (r: SecurityResult<
        ServiceAccount,
    >)
        requires
            old(self).wf(),
        ensures
            final(self).wf(),
            r matches Ok(sa) && {
                &&& uuid_text_form(sa.id@)
                &&& sa.name@ == name@
                &&& uuid_text_form(sa.secret_hash@)
                &&& sa@.scopes == texts(scopes@)
                &&& sa.enabled
                &&& final(self)@.service_accounts == old(self)@.service_accounts.insert(sa.id@, sa@)
                &&& final(self)@.identities == old(self)@.identities
            },
    {
        let id = random_uuid_text();
        let secret = random_uuid_text();
        Ok(self.create_service_account_with(id, secret, name, scopes))
    }

    /// Creates an enabled service account with the given id and secret.
    pub fn create_service_account_with(
        &mut self,
        id: String,
        secret_hash: String,
        name: &str,
        scopes: Vec<String>,
    ) -> (sa: ServiceAccount)
        requires
            old(self).wf(),
        ensures
            final(self).wf(),
            sa@ == (ServiceAccountView {
                id: id@,
                name: name@,
                secret_hash: secret_hash@,
                scopes: texts(scopes@),
                enabled: true,
            }),
            final(self)@.service_accounts == old(self)@.service_accounts.insert(id@, sa@),
            final(self)@.identities == old(self)@.identities,
    {
        let stored = ServiceAccount {
            id: id.clone(),
            name: name.to_owned(),
            secret_hash: secret_hash.clone(),
            scopes: copy_texts(&scopes),
            enabled: true,
        };
        let account = ServiceAccount { id, name: name.to_owned(), secret_hash, scopes, enabled: true };
        let ghost before = self@;
        let ghost sv = stored@;
        assert(sv == account@);
        self.service_accounts.insert(stored.id.clone(), stored);
        assert(self@.service_accounts =~= before.service_accounts.insert(sv.id, sv));
        assert(self@.identities =~= before.identities);
        account
    }

    /// All identities, in storage order.
    pub fn list_identities(&self) -> (r: Vec<&Identity>)
        requires
            self.wf(),
        ensures
            r@.len() == self.identity_order().len(),
            forall|i: int|
                0 <= i < r@.len() ==> #[trigger] r@[i]@ == self@.identities[self.identity_order()[i]],
    {
        let all = self.identities.values();
        proof {
            self.identities.lemma_key_seq();
            assert forall|i: int| 0 <= i < all@.len() implies #[trigger] all@[i]@ == self@.identities[self.identity_order()[i]] by {
                let k = self.identities.key_seq()[i];
                assert(self.identities.key_seq().contains(k));
                assert(*all@[i] == self.identities@[k]);
            }
        }
        all
    }
}

/// After a successful creation, looking the username up finds the created
/// identity: the stored model is consistent, so the identity with that
/// username is unique.
pub proof fn law_create_then_find(v: IamView, created: IdentityView, other: IdentityView)
    requires
        v.consistent(),
        !v.username_taken(created.username),
        v.identities.insert(created.id, created).contains_key(other.id),
        v.identities.insert(created.id, created)[other.id] == other,
        other.username == created.username,
    ensures
        other == created,
{
    let w = v.identities.insert(created.id, created);
    if other.id != created.id {
        assert(v.identities.contains_key(other.id));
        assert(v.identities[other.id] == other);
        assert(v.username_taken(created.username));
    }
}

/// Creating, disabling and recording logins never removes an identity.
pub proof fn law_identities_never_removed(v: IamView, id: Seq<char>, k: Seq<char>, t: Seq<char>)
    requires
        v.identities.contains_key(id),
        v.identities.contains_key(k),
    ensures
        v.identities.insert(id, disabled(v.identities[id])).contains_key(k),
        v.identities.insert(id, logged_in(v.identities[id], t)).contains_key(k),
{
}

/// Disabling clears the flag whatever it was, changes nothing else of the
/// identity, and disabling twice is the same as once.
pub proof fn law_disable_clears_flag(v: IamView, id: Seq<char>)
    requires
        v.identities.contains_key(id),
    ensures
        !v.identities.insert(id, disabled(v.identities[id]))[id].enabled,
        disabled(disabled(v.identities[id])) == disabled(v.identities[id]),
        disabled(v.identities[id]).id == v.identities[id].id,
        disabled(v.identities[id]).username == v.identities[id].username,
        disabled(v.identities[id]).display_name == v.identities[id].display_name,
        disabled(v.identities[id]).email == v.identities[id].email,
        disabled(v.identities[id]).provider == v.identities[id].provider,
        disabled(v.identities[id]).created_at == v.identities[id].created_at,
        disabled(v.identities[id]).last_login == v.identities[id].last_login,
        disabled(v.identities[id]).metadata == v.identities[id].metadata,
{
}

} // verus!
