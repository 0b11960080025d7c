//! Role-based access control with built-in roles.

use crate::error::{SecurityError, SecurityResult};
use crate::store::{lookup, StringMap};
use crate::text::join3;
use vstd::prelude::*;

verus! {

/// Fine-grained permissions.
#[derive(Debug, Clone, Copy, PartialEq, Eq, Hash, Structural)]
pub enum Permission {
    WorkspaceCreate,
    WorkspaceRead,
    WorkspaceUpdate,
    WorkspaceDelete,
    WorkspaceStart,
    WorkspaceStop,
    ImageImport,
    ImageDelete,
    ImageGarbageCollect,
    NetworkManage,
    SecurityAudit,
    UserManage,
    RoleManage,
    SystemAdmin,
}

/// A named role with a set of permissions. The vector stands for a set: its
/// order and any repetition carry no meaning.
#[derive(Debug, Clone)]
pub struct Role {
    pub name: String,
    pub description: String,
    pub permissions: Vec<Permission>,
}

/// A principal (user or service account) with the names of its roles.
#[derive(Debug, Clone)]
pub struct Principal {
    pub id: String,
    pub name: String,
    pub roles: Vec<String>,
}

/// The model of a role.
pub struct RoleView {
    pub name: Seq<char>,
    pub description: Seq<char>,
    pub permissions: Set<Permission>,
}

/// The model of a principal.
pub struct PrincipalView {
    pub id: Seq<char>,
    pub name: Seq<char>,
    pub roles: Seq<Seq<char>>,
}

/// The model of the engine: roles by name, principals by id.
pub struct RbacView {
    pub roles: Map<Seq<char>, RoleView>,
    pub principals: Map<Seq<char>, PrincipalView>,
}

impl View for Role {
    type V = RoleView;

    open spec fn view(&self) -> RoleView {
        RoleView {
            name: self.name@,
            description: self.description@,
            permissions: self.permissions@.to_set(),
        }
    }
}

/// The texts of a vector of strings.
pub open spec fn texts(v: Seq<String>) -> Seq<Seq<char>> {
    v.map_values(|s: String| s@)
}

impl View for Principal {
    type V = PrincipalView;

    open spec fn view(&self) -> PrincipalView {
        PrincipalView { id: self.id@, name: self.name@, roles: texts(self.roles@) }
    }
}

/// A role grants a permission when it holds it or holds `SystemAdmin`.
pub open spec fn role_grants(role: RoleView, p: Permission) -> bool {
    role.permissions.contains(Permission::SystemAdmin) || role.permissions.contains(p)
}

/// The principal after being given a role: unchanged if it already has the
/// role, the role appended otherwise, and a new principal named after its id
/// holding just that role if it did not exist.
pub open spec fn with_role(existing: Option<PrincipalView>, id: Seq<char>, role: Seq<char>) -> PrincipalView {
    match existing {
        Some(p) => if p.roles.contains(role) {
            p
        } else {
            PrincipalView { id: p.id, name: p.name, roles: p.roles.push(role) }
        },
        None => PrincipalView { id, name: id, roles: seq![role] },
    }
}

impl RbacView {
    /// The principal exists and one of its roles exists and grants `p`.
    pub open spec fn has_permission(self, id: Seq<char>, p: Permission) -> bool {
        &&& self.principals.contains_key(id)
        &&& exists|j: int|
            0 <= j < self.principals[id].roles.len() && self.roles.contains_key(
                #[trigger] self.principals[id].roles[j],
            ) && role_grants(self.roles[self.principals[id].roles[j]], p)
    }

    /// The model after giving principal `id` the role `role`.
    pub open spec fn assign(self, id: Seq<char>, role: Seq<char>) -> RbacView {
        RbacView {
            roles: self.roles,
            principals: self.principals.insert(id, with_role(lookup(self.principals, id), id, role)),
        }
    }
}

/// Every permission.
pub open spec fn admin_permissions() -> Set<Permission> {
    Set::full()
}

/// The permissions of the built-in operator role.
pub open spec fn is_operator_permission(p: Permission) -> bool {
    match p {
        Permission::WorkspaceCreate | Permission::WorkspaceRead | Permission::WorkspaceUpdate
        | Permission::WorkspaceStart | Permission::WorkspaceStop | Permission::ImageImport => true,
        _ => false,
    }
}

/// The built-in administrator role.
pub open spec fn admin_role() -> RoleView {
    RoleView {
        name: "admin"@,
        description: "Full system access"@,
        permissions: admin_permissions(),
    }
}

/// The built-in operator role.
pub open spec fn operator_role() -> RoleView {
    RoleView {
        name: "operator"@,
        description: "Workspace and runtime management"@,
        permissions: Set::new(|p: Permission| is_operator_permission(p)),
    }
}

/// The built-in read-only role.
pub open spec fn viewer_role() -> RoleView {
    RoleView {
        name: "viewer"@,
        description: "Read-only access"@,
        permissions: set![Permission::WorkspaceRead],
    }
}

/// The debug name of a permission.
pub open spec fn permission_label(p: Permission) -> Seq<char> {
    match p {
        Permission::WorkspaceCreate => "WorkspaceCreate"@,
        Permission::WorkspaceRead => "WorkspaceRead"@,
        Permission::WorkspaceUpdate => "WorkspaceUpdate"@,
        Permission::WorkspaceDelete => "WorkspaceDelete"@,
        Permission::WorkspaceStart => "WorkspaceStart"@,
        Permission::WorkspaceStop => "WorkspaceStop"@,
        Permission::ImageImport => "ImageImport"@,
        Permission::ImageDelete => "ImageDelete"@,
        Permission::ImageGarbageCollect => "ImageGarbageCollect"@,
        Permission::NetworkManage => "NetworkManage"@,
        Permission::SecurityAudit => "SecurityAudit"@,
        Permission::UserManage => "UserManage"@,
        Permission::RoleManage => "RoleManage"@,
        Permission::SystemAdmin => "SystemAdmin"@,
    }
}

/// The position of a permission in declaration order.
pub open spec fn permission_ordinal(p: Permission) -> int {
    match p {
        Permission::WorkspaceCreate => 0,
        Permission::WorkspaceRead => 1,
        Permission::WorkspaceUpdate => 2,
        Permission::WorkspaceDelete => 3,
        Permission::WorkspaceStart => 4,
        Permission::WorkspaceStop => 5,
        Permission::ImageImport => 6,
        Permission::ImageDelete => 7,
        Permission::ImageGarbageCollect => 8,
        Permission::NetworkManage => 9,
        Permission::SecurityAudit => 10,
        Permission::UserManage => 11,
        Permission::RoleManage => 12,
        Permission::SystemAdmin => 13,
    }
}

/// The message for creating a role that exists.
pub open spec fn role_exists_message(name: Seq<char>) -> Seq<char> {
    "Role '"@ + name + "' already exists"@
}

/// The message for naming a role that does not exist.
pub open spec fn role_missing_message(name: Seq<char>) -> Seq<char> {
    "Role '"@ + name + "'"@
}

/// The message for a refused permission check.
pub open spec fn lacks_permission_message(id: Seq<char>, p: Permission) -> Seq<char> {
    "Principal '"@ + id + "' lacks permission "@ + permission_label(p)
}

impl Permission {
    /// The debug name of the permission.
    pub fn label(&self) -> (r: &'static str)
        ensures
            r@ == permission_label(*self),
    {
        match self {
            Permission::WorkspaceCreate => "WorkspaceCreate",
            Permission::WorkspaceRead => "WorkspaceRead",
            Permission::WorkspaceUpdate => "WorkspaceUpdate",
            Permission::WorkspaceDelete => "WorkspaceDelete",
            Permission::WorkspaceStart => "WorkspaceStart",
            Permission::WorkspaceStop => "WorkspaceStop",
            Permission::ImageImport => "ImageImport",
            Permission::ImageDelete => "ImageDelete",
            Permission::ImageGarbageCollect => "ImageGarbageCollect",
            Permission::NetworkManage => "NetworkManage",
            Permission::SecurityAudit => "SecurityAudit",
            Permission::UserManage => "UserManage",
            Permission::RoleManage => "RoleManage",
            Permission::SystemAdmin => "SystemAdmin",
        }
    }
}

/// Whether a list of permissions holds `p`.
fn holds_permission(perms: &Vec<Permission>, p: Permission) -> (r: bool)
    ensures
        r == perms@.to_set().contains(p),
{
    let mut i: usize = 0;
    while i < perms.len()
        invariant
            i <= perms@.len(),
            forall|j: int| 0 <= j < i ==> #[trigger] perms@[j] != p,
        decreases perms@.len() - i,
    {
        if perms[i] == p {
            assert(perms@.contains(p));
            return true;
        }
        i += 1;
    }
    false
}

/// Whether a list of strings holds the text `s`.
fn holds_text(v: &Vec<String>, s: &str) -> (r: bool)
    ensures
        r == texts(v@).contains(s@),
{
    let target = s.to_owned();
    let mut i: usize = 0;
    while i < v.len()
        invariant
            target@ == s@,
            i <= v@.len(),
            forall|j: int| 0 <= j < i ==> #[trigger] v@[j]@ != s@,
        decreases v@.len() - i,
    {
        let item: &String = &v[i];
        if *item == target {
            assert(texts(v@)[i as int] == s@);
            return true;
        }
        i += 1;
    }
    assert forall|j: int| 0 <= j < texts(v@).len() implies #[trigger] texts(v@)[j] != s@ by {
        assert(texts(v@)[j] == v@[j]@);
    }
    false
}

/// Role-based access control engine.
pub struct RbacEngine {
    roles: StringMap<Role>,
    principals: StringMap<Principal>,
}

impl View for RbacEngine {
    type V = RbacView;

    closed spec fn view(&self) -> RbacView {
        RbacView {
            roles: self.roles@.map_values(|r: Role| r@),
            principals: self.principals@.map_values(|p: Principal| p@),
        }
    }
}

impl RbacEngine {
    /// Well-formedness of the underlying stores.
    pub closed spec fn wf(&self) -> bool {
        self.roles.wf() && self.principals.wf()
    }

    /// An engine with no roles and no principals.
    pub fn new() -> (r: Self)
        ensures
            r.wf(),
            r@.roles == Map::<Seq<char>, RoleView>::empty(),
            r@.principals == Map::<Seq<char>, PrincipalView>::empty(),
    {
        let r = RbacEngine { roles: StringMap::new(), principals: StringMap::new() };
        assert(r@.roles =~= Map::<Seq<char>, RoleView>::empty());
        assert(r@.principals =~= Map::<Seq<char>, PrincipalView>::empty());
        r
    }

    /// Stores a role under its name, replacing any role of that name.
    fn put_role(&mut self, role: Role)
        requires
            old(self).wf(),
        ensures
            final(self).wf(),
            final(self)@.roles == old(self)@.roles.insert(role.name@, role@),
            final(self)@.principals == old(self)@.principals,
    {
        let ghost before = self.roles@;
        let key = role.name.clone();
        let ghost r = role;
        self.roles.insert(key, role);
        assert(self.roles@.map_values(|x: Role| x@) =~= before.map_values(|x: Role| x@).insert(
            r.name@,
            r@,
        ));
    }

    /// Seeds the built-in roles `admin` (every permission), `operator`
    /// (workspace create, read, update, start and stop, and image import) and
    /// `viewer` (workspace read), replacing roles of those names.
    pub fn seed_defaults(&mut self)
        requires
            old(self).wf(),
        ensures
            final(self).wf(),
            final(self)@.roles == old(self)@.roles.insert("admin"@, admin_role()).insert(
                "operator"@,
                operator_role(),
            ).insert("viewer"@, viewer_role()),
            final(self)@.principals == old(self)@.principals,
    {
        let mut admin_perms: Vec<Permission> = Vec::new();
        admin_perms.push(Permission::WorkspaceCreate);
        admin_perms.push(Permission::WorkspaceRead);
        admin_perms.push(Permission::WorkspaceUpdate);
        admin_perms.push(Permission::WorkspaceDelete);
        admin_perms.push(Permission::WorkspaceStart);
        admin_perms.push(Permission::WorkspaceStop);
        admin_perms.push(Permission::ImageImport);
        admin_perms.push(Permission::ImageDelete);
        admin_perms.push(Permission::ImageGarbageCollect);
        admin_perms.push(Permission::NetworkManage);
        admin_perms.push(Permission::SecurityAudit);
        admin_perms.push(Permission::UserManage);
        admin_perms.push(Permission::RoleManage);
        admin_perms.push(Permission::SystemAdmin);
        proof {
            let s = admin_perms@;
            assert(s =~= seq![
                Permission::WorkspaceCreate,
                Permission::WorkspaceRead,
                Permission::WorkspaceUpdate,
                Permission::WorkspaceDelete,
                Permission::WorkspaceStart,
                Permission::WorkspaceStop,
                Permission::ImageImport,
                Permission::ImageDelete,
                Permission::ImageGarbageCollect,
                Permission::NetworkManage,
                Permission::SecurityAudit,
                Permission::UserManage,
                Permission::RoleManage,
                Permission::SystemAdmin,
            ]);
            assert forall|p: Permission| #[trigger] s.to_set().contains(p) == admin_permissions().contains(p) by {
                assert(s[permission_ordinal(p)] == p);
            }
            assert(s.to_set() =~= admin_permissions());
        }
        let admin = Role {
            name: String::from_str("admin"),
            description: String::from_str("Full system access"),
            permissions: admin_perms,
        };

        let mut operator_perms: Vec<Permission> = Vec::new();
        operator_perms.push(Permission::WorkspaceCreate);
        operator_perms.push(Permission::WorkspaceRead);
        operator_perms.push(Permission::WorkspaceUpdate);
        operator_perms.push(Permission::WorkspaceStart);
        operator_perms.push(Permission::WorkspaceStop);
        operator_perms.push(Permission::ImageImport);
        proof {
            let s = operator_perms@;
            assert(s =~= seq![
                Permission::WorkspaceCreate,
                Permission::WorkspaceRead,
                Permission::WorkspaceUpdate,
                Permission::WorkspaceStart,
                Permission::WorkspaceStop,
                Permission::ImageImport,
            ]);
            assert forall|p: Permission| #[trigger] s.to_set().contains(p) == is_operator_permission(p) by {
                match p {
                    Permission::WorkspaceCreate => assert(s[0] == p),
                    Permission::WorkspaceRead => assert(s[1] == p),
                    Permission::WorkspaceUpdate => assert(s[2] == p),
                    Permission::WorkspaceStart => assert(s[3] == p),
                    Permission::WorkspaceStop => assert(s[4] == p),
                    Permission::ImageImport => assert(s[5] == p),
                    _ => {},
                }
            }
            assert(s.to_set() =~= operator_role().permissions);
        }
        let operator = Role {
            name: String::from_str("operator"),
            description: String::from_str("Workspace and runtime management"),
            permissions: operator_perms,
        };

        let mut viewer_perms: Vec<Permission> = Vec::new();
        viewer_perms.push(Permission::WorkspaceRead);
        proof {
            let s = viewer_perms@;
            assert(s =~= seq![Permission::WorkspaceRead]);
            assert forall|p: Permission| #[trigger] s.to_set().contains(p) == (p == Permission::WorkspaceRead) by {
                if p == Permission::WorkspaceRead {
                    assert(s[0] == p);
                }
            }
            assert(s.to_set() =~= viewer_role().permissions);
        }
        let viewer = Role {
            name: String::from_str("viewer"),
            description: String::from_str("Read-only access"),
            permissions: viewer_perms,
        };

        self.put_role(admin);
        self.put_role(operator);
        self.put_role(viewer);
    }

    /// Registers a custom role. A role of the same name must not exist.
    pub fn create_role(&mut self, role: Role) -> (r: SecurityResult<()>)
        requires
            old(self).wf(),
        ensures
            final(self).wf(),
            r is Err <==> old(self)@.roles.contains_key(role.name@),
            r matches Err(e) ==> {
                &&& e is Internal
                &&& e.message_spec() == role_exists_message(role.name@)
                &&& final(self)@ == old(self)@
            },
            r is Ok ==> final(self)@.roles == old(self)@.roles.insert(role.name@, role@)
                && final(self)@.principals == old(self)@.principals,
    {
        if self.roles.contains_key(role.name.as_str()) {
            assert(self.roles@.contains_key(role.name@));
            return Err(
                SecurityError::Internal(join3("Role '", role.name.as_str(), "' already exists")),
            );
        }
        self.put_role(role);
        Ok(())
    }

    /// Gives a principal a role, creating the principal (named after its id)
    /// if it does not exist. The role must exist; a role the principal already
    /// has is not added again.
    pub fn assign_role(&mut self, principal_id: &str, role_name: &str) -> (r: SecurityResult<()>)
        requires
            old(self).wf(),
        ensures
            final(self).wf(),
            r is Err <==> !old(self)@.roles.contains_key(role_name@),
            r matches Err(e) ==> {
                &&& e is NotFound
                &&& e.message_spec() == role_missing_message(role_name@)
                &&& final(self)@ == old(self)@
            },
            r is Ok ==> final(self)@ == old(self)@.assign(principal_id@, role_name@),
    {
        if !self.roles.contains_key(role_name) {
            assert(!self@.roles.contains_key(role_name@));
            return Err(SecurityError::NotFound(join3("Role '", role_name, "'")));
        }
        let ghost before = self@;
        let ghost stored = self.principals@;
        let existing = self.principals.remove(principal_id);
        let principal = match existing {
            Some(mut p) => {
                if !holds_text(&p.roles, role_name) {
                    p.roles.push(role_name.to_owned());
                    assert(texts(p.roles@) =~= texts(stored[principal_id@].roles@).push(role_name@));
                }
                p
            },
            None => {
                let mut roles: Vec<String> = Vec::new();
                roles.push(role_name.to_owned());
                assert(texts(roles@) =~= seq![role_name@]);
                Principal { id: principal_id.to_owned(), name: principal_id.to_owned(), roles }
            },
        };
        let ghost pv = principal@;
        assert(pv == with_role(lookup(before.principals, principal_id@), principal_id@, role_name@));
        self.principals.insert(principal_id.to_owned(), principal);
        assert(self@.principals =~= before.principals.insert(principal_id@, pv));
        Ok(())
    }

    /// Whether a principal holds a permission through one of its roles; a
    /// role holding `SystemAdmin` grants every permission.
    pub fn has_permission(&self, principal_id: &str, permission: &Permission) -> (r: bool)
        requires
            self.wf(),
        ensures
            r == self@.has_permission(principal_id@, *permission),
    {
        let principal = match self.principals.get(principal_id) {
            Some(p) => p,
            None => {
                return false;
            },
        };
        let ghost v = self@;
        let ghost pv = v.principals[principal_id@];
        assert(pv == principal@);
        let mut i: usize = 0;
        while i < principal.roles.len()
            invariant
                self.wf(),
                v == self@,
                pv == principal@,
                v.principals.contains_key(principal_id@),
                v.principals[principal_id@] == pv,
                i <= principal.roles@.len(),
                forall|j: int|
                    0 <= j < i ==> !(v.roles.contains_key(#[trigger] pv.roles[j]) && role_grants(
                        v.roles[pv.roles[j]],
                        *permission,
                    )),
            decreases principal.roles@.len() - i,
        {
            assert(pv.roles[i as int] == principal.roles@[i as int]@);
            match self.roles.get(principal.roles[i].as_str()) {
                Some(role) => {
                    assert(v.roles[pv.roles[i as int]] == role@);
                    if holds_permission(&role.permissions, Permission::SystemAdmin)
                        || holds_permission(&role.permissions, *permission) {
                        return true;
                    }
                },
                None => {},
            }
            i += 1;
        }
        false
    }

    /// Succeeds when the principal holds the permission; refuses otherwise.
    pub fn require_permission(&self, principal_id: &str, permission: &Permission) -> (r:
        SecurityResult<()>)
        requires
            self.wf(),
        ensures
            r is Ok <==> self@.has_permission(principal_id@, *permission),
            r matches Err(e) ==> e is Internal && e.message_spec() == lacks_permission_message(
                principal_id@,
                *permission,
            ),
    {
        if self.has_permission(principal_id, permission) {
            Ok(())
        } else {
            let mut msg = join3("Principal '", principal_id, "' lacks permission ");
            msg.append(permission.label());
            Err(SecurityError::Internal(msg))
        }
    }
}

/// A principal that has a role holding `SystemAdmin` has every permission.
pub proof fn law_system_admin_grants_all(v: RbacView, id: Seq<char>, role: Seq<char>, p: Permission)
    requires
        v.principals.contains_key(id),
        v.principals[id].roles.contains(role),
        v.roles.contains_key(role),
        v.roles[role].permissions.contains(Permission::SystemAdmin),
    ensures
        v.has_permission(id, p),
{
    let j = choose|j: int| 0 <= j < v.principals[id].roles.len() && v.principals[id].roles[j] == role;
    assert(v.roles.contains_key(v.principals[id].roles[j]));
}

/// After a principal is given an existing role, it holds every permission
/// that role grants.
pub proof fn law_assign_grants(v: RbacView, id: Seq<char>, role: Seq<char>, p: Permission)
    requires
        v.roles.contains_key(role),
        role_grants(v.roles[role], p),
    ensures
        v.assign(id, role).has_permission(id, p),
{
    let w = v.assign(id, role);
    let pv = w.principals[id];
    let j: int = if v.principals.contains_key(id) && v.principals[id].roles.contains(role) {
        choose|j: int| 0 <= j < v.principals[id].roles.len() && v.principals[id].roles[j] == role
    } else if v.principals.contains_key(id) {
        v.principals[id].roles.len() as int
    } else {
        0
    };
    assert(pv.roles[j] == role);
    assert(w.roles.contains_key(pv.roles[j]));
}

/// Giving a role never takes a permission away from any principal.
pub proof fn law_assign_monotone(v: RbacView, id: Seq<char>, role: Seq<char>, q: Seq<char>, p: Permission)
    requires
        v.has_permission(q, p),
    ensures
        v.assign(id, role).has_permission(q, p),
{
    let w = v.assign(id, role);
    let j = choose|j: int|
        0 <= j < v.principals[q].roles.len() && v.roles.contains_key(#[trigger] v.principals[q].roles[j])
            && role_grants(v.roles[v.principals[q].roles[j]], p);
    let name = v.principals[q].roles[j];
    if q == id {
        let old_p = v.principals[id];
        let new_p = w.principals[id];
        if !old_p.roles.contains(role) {
            assert(new_p.roles[j] == name);
        }
        assert(new_p.roles[j] == name);
        assert(w.roles.contains_key(new_p.roles[j]));
    } else {
        assert(w.principals[q] == v.principals[q]);
        assert(w.roles.contains_key(w.principals[q].roles[j]));
    }
}

/// Giving the same role twice is the same as giving it once.
pub proof fn law_assign_idempotent(v: RbacView, id: Seq<char>, role: Seq<char>)
    ensures
        v.assign(id, role).assign(id, role) == v.assign(id, role),
{
    let w = v.assign(id, role);
    let pv = w.principals[id];
    assert(pv.roles.contains(role)) by {
        if v.principals.contains_key(id) && !v.principals[id].roles.contains(role) {
            assert(pv.roles[pv.roles.len() - 1] == role);
        } else if !v.principals.contains_key(id) {
            assert(pv.roles[0] == role);
        }
    }
    assert(w.assign(id, role).principals =~= w.principals);
}

/// The model after seeding the built-in roles.
pub open spec fn seeded(v: RbacView) -> RbacView {
    RbacView {
        roles: v.roles.insert("admin"@, admin_role()).insert("operator"@, operator_role()).insert(
            "viewer"@,
            viewer_role(),
        ),
        principals: v.principals,
    }
}

/// After seeding, a new principal given only one built-in role holds exactly
/// that role's permissions: `viewer` is read-only (workspace read alone),
/// `operator` holds workspace create, read, update, start and stop and image
/// import, and `admin` holds every permission.
pub proof fn law_seeded_roles(v: RbacView, id: Seq<char>, p: Permission)
    requires
        !v.principals.contains_key(id),
    ensures
        seeded(v).assign(id, "viewer"@).has_permission(id, p) <==> p == Permission::WorkspaceRead,
        seeded(v).assign(id, "operator"@).has_permission(id, p) <==> (p == Permission::WorkspaceCreate
            || p == Permission::WorkspaceRead || p == Permission::WorkspaceUpdate || p
            == Permission::WorkspaceStart || p == Permission::WorkspaceStop || p
            == Permission::ImageImport),
        seeded(v).assign(id, "admin"@).has_permission(id, p),
{
    reveal_strlit("admin");
    reveal_strlit("operator");
    reveal_strlit("viewer");
    assert("admin"@ != "operator"@) by {
        assert("admin"@.len() != "operator"@.len());
    }
    assert("admin"@ != "viewer"@) by {
        assert("admin"@[0] != "viewer"@[0]);
    }
    assert("operator"@ != "viewer"@) by {
        assert("operator"@.len() != "viewer"@.len());
    }
    let w = seeded(v);
    assert(w.roles["viewer"@] == viewer_role());
    assert(w.roles["operator"@] == operator_role());
    assert(w.roles["admin"@] == admin_role());
    let wv = w.assign(id, "viewer"@);
    assert(wv.principals[id].roles == seq!["viewer"@]);
    assert(wv.roles.contains_key(wv.principals[id].roles[0]));
    let wo = w.assign(id, "operator"@);
    assert(wo.principals[id].roles == seq!["operator"@]);
    assert(wo.roles.contains_key(wo.principals[id].roles[0]));
    let wa = w.assign(id, "admin"@);
    assert(wa.principals[id].roles == seq!["admin"@]);
    assert(wa.roles.contains_key(wa.principals[id].roles[0]));
    assert(admin_role().permissions.contains(p));
}

} // verus!
