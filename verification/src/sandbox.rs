//! Capability-based isolation of VM instances with enforcement modes.

use crate::error::{SecurityError, SecurityResult};
use crate::store::StringMap;
use crate::text::join2;
use vstd::prelude::*;

verus! {

/// A capability that can be granted to or withheld from a VM instance.
#[derive(Debug, Clone, Copy, PartialEq, Eq, Hash, Structural)]
pub enum SandboxCapability {
    FileSystemRead,
    FileSystemWrite,
    NetworkAccess,
    ProcessSpawn,
    DeviceAccess,
    ClipboardAccess,
    DisplayAccess,
    AudioAccess,
    UsbPassthrough,
    GpuAccess,
}

/// How violations are handled.
#[derive(Debug, Clone, Copy, PartialEq, Eq, Structural)]
pub enum EnforcementMode {
    /// Block and log the violation.
    Enforce,
    /// Allow but log a warning.
    Permissive,
    /// No enforcement.
    Disabled,
}

/// Per-instance sandbox profile. The capability vector stands for a set.
#[derive(Debug, Clone)]
pub struct SandboxProfile {
    pub instance_id: String,
    pub allowed_capabilities: Vec<SandboxCapability>,
    pub mode: EnforcementMode,
}

/// The model of a profile.
pub struct ProfileView {
    pub instance_id: Seq<char>,
    pub allowed: Set<SandboxCapability>,
    pub mode: EnforcementMode,
}

impl View for SandboxProfile {
    type V = ProfileView;

    open spec fn view(&self) -> ProfileView {
        ProfileView {
            instance_id: self.instance_id@,
            allowed: self.allowed_capabilities@.to_set(),
            mode: self.mode,
        }
    }
}

/// The model of the sandbox manager: profiles by instance id.
pub struct SandboxView {
    pub profiles: Map<Seq<char>, ProfileView>,
    pub default_mode: EnforcementMode,
}

impl SandboxView {
    /// Whether the instance may use the capability: never without a profile;
    /// always in permissive or disabled mode; in enforce mode only when granted.
    pub open spec fn allows(self, id: Seq<char>, cap: SandboxCapability) -> bool {
        self.profiles.contains_key(id) && match self.profiles[id].mode {
            EnforcementMode::Disabled => true,
            EnforcementMode::Permissive => true,
            EnforcementMode::Enforce => self.profiles[id].allowed.contains(cap),
        }
    }

    /// The model after creating a default-deny profile for `id`.
    pub open spec fn create(self, id: Seq<char>) -> SandboxView {
        SandboxView {
            profiles: self.profiles.insert(
                id,
                ProfileView { instance_id: id, allowed: Set::empty(), mode: self.default_mode },
            ),
            default_mode: self.default_mode,
        }
    }

    /// The model after granting `cap` to the profile of `id`.
    pub open spec fn grant(self, id: Seq<char>, cap: SandboxCapability) -> SandboxView {
        let p = self.profiles[id];
        SandboxView {
            profiles: self.profiles.insert(
                id,
                ProfileView { instance_id: p.instance_id, allowed: p.allowed.insert(cap), mode: p.mode },
            ),
            default_mode: self.default_mode,
        }
    }

    /// The model after revoking `cap` from the profile of `id`.
    pub open spec fn revoke(self, id: Seq<char>, cap: SandboxCapability) -> SandboxView {
        let p = self.profiles[id];
        SandboxView {
            profiles: self.profiles.insert(
                id,
                ProfileView { instance_id: p.instance_id, allowed: p.allowed.remove(cap), mode: p.mode },
            ),
            default_mode: self.default_mode,
        }
    }

    /// The model after removing the profile of `id`.
    pub open spec fn remove(self, id: Seq<char>) -> SandboxView {
        SandboxView { profiles: self.profiles.remove(id), default_mode: self.default_mode }
    }
}

/// The message for creating a profile that exists.
pub open spec fn profile_exists_message(id: Seq<char>) -> Seq<char> {
    "Profile already exists for "@ + id
}

/// The message for naming a profile that does not exist.
pub open spec fn profile_missing_message(id: Seq<char>) -> Seq<char> {
    "Sandbox profile for "@ + id
}

/// The position of `cap` in `caps`, if it occurs.
fn position_of(caps: &Vec<SandboxCapability>, cap: SandboxCapability) -> (r: Option<usize>)
    ensures
        match r {
            Some(i) => i < caps@.len() && caps@[i as int] == cap,
            None => !caps@.contains(cap),
        },
{
    let mut i: usize = 0;
    while i < caps.len()
        invariant
            i <= caps@.len(),
            forall|j: int| 0 <= j < i ==> #[trigger] caps@[j] != cap,
        decreases caps@.len() - i,
    {
        if caps[i] == cap {
            return Some(i);
        }
        i += 1;
    }
    None
}

/// Removing an element of a sequence without repetition removes it from its set.
proof fn lemma_remove_from_set(s: Seq<SandboxCapability>, i: int)
    requires
        s.no_duplicates(),
        0 <= i < s.len(),
    ensures
        s.remove(i).no_duplicates(),
        s.remove(i).to_set() == s.to_set().remove(s[i]),
{
    let t = s.remove(i);
    assert forall|a: int, b: int| 0 <= a < t.len() && 0 <= b < t.len() && a != b implies t[a] != t[b] by {
        let a2 = if a < i { a } else { a + 1 };
        let b2 = if b < i { b } else { b + 1 };
        assert(t[a] == s[a2] && t[b] == s[b2]);
    }
    assert forall|c: SandboxCapability| #[trigger] t.to_set().contains(c) == s.to_set().remove(s[i]).contains(c) by {
        if t.contains(c) {
            let a = choose|a: int| 0 <= a < t.len() && t[a] == c;
            let a2 = if a < i { a } else { a + 1 };
            assert(t[a] == s[a2]);
            assert(s.contains(c));
        }
        if s.contains(c) && c != s[i] {
            let a = choose|a: int| 0 <= a < s.len() && s[a] == c;
            let a1 = if a < i { a } else { a - 1 };
            assert(t[a1] == s[a]);
        }
    }
    assert(t.to_set() =~= s.to_set().remove(s[i]));
}

/// The sandbox manager enforces capability-based isolation for VM instances.
pub struct SandboxManager {
    profiles: StringMap<SandboxProfile>,
    default_mode: EnforcementMode,
}

impl View for SandboxManager {
    type V = SandboxView;

    closed spec fn view(&self) -> SandboxView {
        SandboxView {
            profiles: self.profiles@.map_values(|p: SandboxProfile| p@),
            default_mode: self.default_mode,
        }
    }
}

impl SandboxManager {
    /// Well-formedness: the store is well formed and no profile lists a
    /// capability twice.
    pub closed spec fn wf(&self) -> bool {
        &&& self.profiles.wf()
        &&& forall|k: Seq<char>| #[trigger]
            self.profiles@.contains_key(k) ==> self.profiles@[k].allowed_capabilities@.no_duplicates()
    }

    /// A manager without profiles, creating new profiles in `default_mode`.
    pub fn new(default_mode: EnforcementMode) -> (r: Self)
        ensures
            r.wf(),
            r@.profiles == Map::<Seq<char>, ProfileView>::empty(),
            r@.default_mode == default_mode,
    {
        let r = SandboxManager { profiles: StringMap::new(), default_mode };
        assert(r@.profiles =~= Map::<Seq<char>, ProfileView>::empty());
        r
    }

    /// Stores a profile, keeping well-formedness.
    fn put_profile(&mut self, id: &str, profile: SandboxProfile)
        requires
            old(self).wf(),
            profile.allowed_capabilities@.no_duplicates(),
        ensures
            final(self).wf(),
            final(self)@.profiles == old(self)@.profiles.insert(id@, profile@),
            final(self)@.default_mode == old(self)@.default_mode,
    {
        let ghost before = self.profiles@;
        let ghost pv = profile;
        self.profiles.insert(id.to_owned(), profile);
        assert(self.profiles@.map_values(|p: SandboxProfile| p@) =~= before.map_values(
            |p: SandboxProfile| p@,
        ).insert(id@, pv@));
    }

    /// Creates a default-deny profile (no capabilities, the default mode).
    /// A profile for the instance must not exist.
    pub fn create_profile(&mut self, instance_id: &str) -> (r: SecurityResult<()>)
        requires
            old(self).wf(),
        ensures
            final(self).wf(),
            r is Err <==> old(self)@.profiles.contains_key(instance_id@),
            r matches Err(e) ==> {
                &&& e is Internal
                &&& e.message_spec() == profile_exists_message(instance_id@)
                &&& final(self)@ == old(self)@
            },
            r is Ok ==> final(self)@ == old(self)@.create(instance_id@),
    {
        if self.profiles.contains_key(instance_id) {
            return Err(SecurityError::Internal(join2("Profile already exists for ", instance_id)));
        }
        let caps: Vec<SandboxCapability> = Vec::new();
        assert(caps@.to_set() =~= Set::<SandboxCapability>::empty());
        let profile = SandboxProfile {
            instance_id: instance_id.to_owned(),
            allowed_capabilities: caps,
            mode: self.default_mode,
        };
        self.put_profile(instance_id, profile);
        Ok(())
    }

    /// Takes the profile of an instance out of the store, or reports that
    /// there is none.
    fn take_profile(&mut self, instance_id: &str) -> (r: SecurityResult<SandboxProfile>)
        requires
            old(self).wf(),
        ensures
            final(self).wf(),
            r is Err <==> !old(self)@.profiles.contains_key(instance_id@),
            r matches Err(e) ==> {
                &&& e is NotFound
                &&& e.message_spec() == profile_missing_message(instance_id@)
                &&& final(self)@ == old(self)@
            },
            r matches Ok(p) ==> {
                &&& p@ == old(self)@.profiles[instance_id@]
                &&& p.allowed_capabilities@.no_duplicates()
                &&& final(self)@.profiles == old(self)@.profiles.remove(instance_id@)
                &&& final(self)@.default_mode == old(self)@.default_mode
            },
    {
        let ghost before = self.profiles@;
        match self.profiles.remove(instance_id) {
            Some(p) => {
                assert(self.profiles@.map_values(|q: SandboxProfile| q@) =~= before.map_values(
                    |q: SandboxProfile| q@,
                ).remove(instance_id@));
                Ok(p)
            },
            None => {
                assert(self.profiles@.map_values(|q: SandboxProfile| q@) =~= before.map_values(
                    |q: SandboxProfile| q@,
                ));
                Err(SecurityError::NotFound(join2("Sandbox profile for ", instance_id)))
            },
        }
    }

    /// Grants a capability to an instance with a profile.
    pub fn grant_capability(&mut self, instance_id: &str, cap: SandboxCapability) -> (r:
        SecurityResult<()>)
        requires
            old(self).wf(),
        ensures
            final(self).wf(),
            r is Err <==> !old(self)@.profiles.contains_key(instance_id@),
            r matches Err(e) ==> {
                &&& e is NotFound
                &&& e.message_spec() == profile_missing_message(instance_id@)
                &&& final(self)@ == old(self)@
            },
            r is Ok ==> final(self)@ == old(self)@.grant(instance_id@, cap),
    {
        let ghost before = self@;
        let mut profile = match self.take_profile(instance_id) {
            Ok(p) => p,
            Err(e) => {
                return Err(e);
            },
        };
        match position_of(&profile.allowed_capabilities, cap) {
            Some(_) => {
                assert(profile.allowed_capabilities@.to_set() =~= profile.allowed_capabilities@.to_set().insert(cap));
            },
            None => {
                let ghost s = profile.allowed_capabilities@;
                profile.allowed_capabilities.push(cap);
                let ghost t = profile.allowed_capabilities@;
                assert forall|c: SandboxCapability| #[trigger] t.to_set().contains(c) == s.to_set().insert(cap).contains(c) by {
                    if t.contains(c) && c != cap {
                        let a = choose|a: int| 0 <= a < t.len() && t[a] == c;
                        assert(a < s.len());
                        assert(s[a] == c);
                    }
                    if s.contains(c) {
                        let a = choose|a: int| 0 <= a < s.len() && s[a] == c;
                        assert(t[a] == c);
                    }
                    if c == cap {
                        assert(t[s.len() as int] == c);
                    }
                }
                assert(t.to_set() =~= s.to_set().insert(cap));
                assert forall|a: int, b: int|
                    0 <= a < profile.allowed_capabilities@.len() && 0 <= b
                        < profile.allowed_capabilities@.len() && a != b implies profile.allowed_capabilities@[a]
                    != profile.allowed_capabilities@[b] by {
                    if a == s.len() {
                        assert(!s.contains(cap));
                        assert(s[b] == profile.allowed_capabilities@[b]);
                    } else if b == s.len() {
                        assert(s[a] == profile.allowed_capabilities@[a]);
                    }
                }
            },
        }
        self.put_profile(instance_id, profile);
        assert(self@.profiles =~= before.grant(instance_id@, cap).profiles);
        Ok(())
    }

    /// Revokes a capability from an instance with a profile.
    pub fn revoke_capability(&mut self, instance_id: &str, cap: &SandboxCapability) -> (r:
        SecurityResult<()>)
        requires
            old(self).wf(),
        ensures
            final(self).wf(),
            r is Err <==> !old(self)@.profiles.contains_key(instance_id@),
            r matches Err(e) ==> {
                &&& e is NotFound
                &&& e.message_spec() == profile_missing_message(instance_id@)
                &&& final(self)@ == old(self)@
            },
            r is Ok ==> final(self)@ == old(self)@.revoke(instance_id@, *cap),
    {
        let ghost before = self@;
        let mut profile = match self.take_profile(instance_id) {
            Ok(p) => p,
            Err(e) => {
                return Err(e);
            },
        };
        match position_of(&profile.allowed_capabilities, *cap) {
            Some(i) => {
                proof {
                    lemma_remove_from_set(profile.allowed_capabilities@, i as int);
                }
                profile.allowed_capabilities.remove(i);
            },
            None => {
                assert(profile.allowed_capabilities@.to_set() =~= profile.allowed_capabilities@.to_set().remove(*cap));
            },
        }
        self.put_profile(instance_id, profile);
        assert(self@.profiles =~= before.revoke(instance_id@, *cap).profiles);
        Ok(())
    }

    /// Whether an instance may use a capability.
    pub fn check_capability(&self, instance_id: &str, cap: &SandboxCapability) -> (r: bool)
        requires
            self.wf(),
        ensures
            r == self@.allows(instance_id@, *cap),
    {
        match self.profiles.get(instance_id) {
            Some(profile) => match profile.mode {
                EnforcementMode::Disabled => true,
                EnforcementMode::Permissive => true,
                EnforcementMode::Enforce => match position_of(&profile.allowed_capabilities, *cap) {
                    Some(i) => {
                        assert(profile.allowed_capabilities@.contains(*cap));
                        true
                    },
                    None => false,
                },
            },
            None => false,
        }
    }

    /// Removes the profile of an instance, if there is one.
    pub fn remove_profile(&mut self, instance_id: &str)
        requires
            old(self).wf(),
        ensures
            final(self).wf(),
            final(self)@ == old(self)@.remove(instance_id@),
    {
        let ghost before = self.profiles@;
        let _ = self.profiles.remove(instance_id);
        assert(self.profiles@.map_values(|q: SandboxProfile| q@) =~= before.map_values(
            |q: SandboxProfile| q@,
        ).remove(instance_id@));
    }

    /// The capabilities granted to an instance, each once; none without a
    /// profile.
    pub fn list_capabilities(&self, instance_id: &str) -> (r: Vec<SandboxCapability>)
        requires
            self.wf(),
        ensures
            r@.no_duplicates(),
            self@.profiles.contains_key(instance_id@) ==> r@.to_set() == self@.profiles[instance_id@].allowed,
            !self@.profiles.contains_key(instance_id@) ==> r@.len() == 0,
    {
        match self.profiles.get(instance_id) {
            Some(profile) => {
                let mut out: Vec<SandboxCapability> = Vec::new();
                let mut i: usize = 0;
                while i < profile.allowed_capabilities.len()
                    invariant
                        i <= profile.allowed_capabilities@.len(),
                        out@ == profile.allowed_capabilities@.take(i as int),
                    decreases profile.allowed_capabilities@.len() - i,
                {
                    out.push(profile.allowed_capabilities[i]);
                    proof {
                        assert(profile.allowed_capabilities@.take(i + 1) =~= profile.allowed_capabilities@.take(
                            i as int,
                        ).push(profile.allowed_capabilities@[i as int]));
                    }
                    i += 1;
                }
                proof {
                    assert(profile.allowed_capabilities@.take(profile.allowed_capabilities@.len() as int)
                        =~= profile.allowed_capabilities@);
                }
                out
            },
            None => Vec::new(),
        }
    }
}

/// A freshly created profile in enforce mode allows nothing.
pub proof fn law_new_profile_denies(v: SandboxView, id: Seq<char>, cap: SandboxCapability)
    requires
        v.default_mode == EnforcementMode::Enforce,
    ensures
        !v.create(id).allows(id, cap),
{
}

/// After a grant, the instance may use the capability.
pub proof fn law_grant_allows(v: SandboxView, id: Seq<char>, cap: SandboxCapability)
    requires
        v.profiles.contains_key(id),
    ensures
        v.grant(id, cap).allows(id, cap),
{
}

/// After a revoke, an instance in enforce mode may not use the capability.
pub proof fn law_revoke_denies(v: SandboxView, id: Seq<char>, cap: SandboxCapability)
    requires
        v.profiles.contains_key(id),
        v.profiles[id].mode == EnforcementMode::Enforce,
    ensures
        !v.revoke(id, cap).allows(id, cap),
{
}

/// A grant or a revoke for one capability leaves every other capability and
/// every other instance as it was.
pub proof fn law_grant_revoke_local(
    v: SandboxView,
    id: Seq<char>,
    cap: SandboxCapability,
    other_id: Seq<char>,
    other_cap: SandboxCapability,
)
    requires
        v.profiles.contains_key(id),
        id != other_id || cap != other_cap,
    ensures
        v.grant(id, cap).allows(other_id, other_cap) == v.allows(other_id, other_cap),
        v.revoke(id, cap).allows(other_id, other_cap) == v.allows(other_id, other_cap),
{
}

/// An instance without a profile may use nothing; removing a profile denies
/// everything to the instance.
pub proof fn law_no_profile_denies(v: SandboxView, id: Seq<char>, cap: SandboxCapability)
    ensures
        !v.remove(id).allows(id, cap),
        !v.profiles.contains_key(id) ==> !v.allows(id, cap),
{
}

/// Permissive and disabled profiles allow every capability.
pub proof fn law_unenforced_allows(v: SandboxView, id: Seq<char>, cap: SandboxCapability)
    requires
        v.profiles.contains_key(id),
        v.profiles[id].mode != EnforcementMode::Enforce,
    ensures
        v.allows(id, cap),
{
}

} // verus!
