//! Tenants: organizations with members, workspaces, devices and usage, kept
//! apart by the keys of their records.

use vstd::prelude::*;

use crate::grants::{AuthError, GrantRecord};
use crate::grants;
use crate::ids;
use crate::ids::TextSet;
use crate::table::Table;
use crate::table;
use crate::text;

verus! {

#[derive(Debug, Clone, Copy, PartialEq, Eq, PartialOrd, Ord, Structural)]
pub enum TenantRole {
    Viewer,
    Operator,
    Admin,
}

#[derive(Debug)]
pub struct UserRecord {
    pub user_id: String,
    pub display_name: String,
}

#[derive(Debug)]
pub struct OrganizationRecord {
    pub organization_id: String,
    pub name: String,
}

#[derive(Debug)]
pub struct MembershipRecord {
    pub organization_id: String,
    pub user_id: String,
    pub role: TenantRole,
    pub revoked: bool,
}

#[derive(Debug)]
pub struct WorkspaceRecord {
    pub organization_id: String,
    pub workspace_id: String,
    pub name: String,
}

#[derive(Debug)]
pub struct TenantDeviceRecord {
    pub organization_id: String,
    pub device_id: String,
    pub workspace_ids: TextSet,
    pub revoked: bool,
}

#[derive(Debug)]
pub struct SubscriptionRecord {
    pub organization_id: String,
    pub plan: String,
    pub active: bool,
}

#[derive(Debug)]
pub struct EntitlementRecord {
    pub organization_id: String,
    pub name: String,
    pub enabled: bool,
}

#[derive(Debug)]
pub struct UsageRecord {
    pub organization_id: String,
    pub workspace_id: Option<String>,
    pub usage_key: String,
    pub units: u64,
}

/// Who acts where, checked against the tenant's records.
#[derive(Debug)]
pub struct VerifiedTenantContext {
    pub organization_id: String,
    pub actor_id: String,
    pub device_id: String,
    pub workspace_id: Option<String>,
    pub role: TenantRole,
    pub scopes: TextSet,
}

/// The records of all tenants.
#[derive(Debug)]
pub struct TenantStore {
    pub users: Table<UserRecord>,
    pub organizations: Table<OrganizationRecord>,
    pub memberships: Table<MembershipRecord>,
    pub workspaces: Table<WorkspaceRecord>,
    pub devices: Table<TenantDeviceRecord>,
    pub subscriptions: Table<SubscriptionRecord>,
    pub entitlements: Table<EntitlementRecord>,
    pub usage: Table<UsageRecord>,
}

// ---------------------------------------------------------------------------
// Stored records

/// A record that can be checked against the key it is kept under.
pub trait StoredRecord: Sized {
    /// What is wrong with the record, if anything.
    spec fn defect(&self, key: Seq<char>) -> Option<grants::Refusal>;

    fn check(&self, key: &str) -> (r: Result<(), AuthError>)
        ensures
            r is Err == self.defect(key@) is Some,
            r is Err ==> r->Err_0@ == self.defect(key@)->0,
    ;
}

impl StoredRecord for OrganizationRecord {
    open spec fn defect(&self, key: Seq<char>) -> Option<grants::Refusal> {
        if !ids::is_id(self.organization_id@) {
            Some(grants::Refusal::InvalidTenant)
        } else if key != self.organization_id@ {
            Some(grants::Refusal::InvalidState)
        } else {
            None
        }
    }

    fn check(&self, key: &str) -> (r: Result<(), AuthError>) {
        if !ids::valid_id(self.organization_id.as_str()) {
            return Err(AuthError::InvalidTenant);
        }
        if !text::same_text(key, self.organization_id.as_str()) {
            return Err(AuthError::InvalidState);
        }
        Ok(())
    }
}

impl StoredRecord for UserRecord {
    open spec fn defect(&self, key: Seq<char>) -> Option<grants::Refusal> {
        if !ids::is_id(self.user_id@) {
            Some(grants::Refusal::InvalidActor)
        } else if key != self.user_id@ {
            Some(grants::Refusal::InvalidState)
        } else {
            None
        }
    }

    fn check(&self, key: &str) -> (r: Result<(), AuthError>) {
        if !ids::valid_id(self.user_id.as_str()) {
            return Err(AuthError::InvalidActor);
        }
        if !text::same_text(key, self.user_id.as_str()) {
            return Err(AuthError::InvalidState);
        }
        Ok(())
    }
}

impl StoredRecord for MembershipRecord {
    open spec fn defect(&self, key: Seq<char>) -> Option<grants::Refusal> {
        if !ids::is_id(self.organization_id@) {
            Some(grants::Refusal::InvalidTenant)
        } else if !ids::is_id(self.user_id@) {
            Some(grants::Refusal::InvalidActor)
        } else if key != ids::owned_key(self.organization_id@, self.user_id@) {
            Some(grants::Refusal::InvalidState)
        } else {
            None
        }
    }

    fn check(&self, key: &str) -> (r: Result<(), AuthError>) {
        if !ids::valid_id(self.organization_id.as_str()) {
            return Err(AuthError::InvalidTenant);
        }
        if !ids::valid_id(self.user_id.as_str()) {
            return Err(AuthError::InvalidActor);
        }
        let expected = ids::tenant_key(self.organization_id.as_str(), self.user_id.as_str());
        if !text::same_text(key, expected.as_str()) {
            return Err(AuthError::InvalidState);
        }
        Ok(())
    }
}

impl StoredRecord for WorkspaceRecord {
    open spec fn defect(&self, key: Seq<char>) -> Option<grants::Refusal> {
        if !ids::is_id(self.organization_id@) || !ids::is_id(self.workspace_id@) {
            Some(grants::Refusal::InvalidTenant)
        } else if key != ids::owned_key(self.organization_id@, self.workspace_id@) {
            Some(grants::Refusal::InvalidState)
        } else {
            None
        }
    }

    fn check(&self, key: &str) -> (r: Result<(), AuthError>) {
        if !ids::valid_id(self.organization_id.as_str()) || !ids::valid_id(
            self.workspace_id.as_str(),
        ) {
            return Err(AuthError::InvalidTenant);
        }
        let expected = ids::tenant_key(self.organization_id.as_str(), self.workspace_id.as_str());
        if !text::same_text(key, expected.as_str()) {
            return Err(AuthError::InvalidState);
        }
        Ok(())
    }
}

impl StoredRecord for TenantDeviceRecord {
    open spec fn defect(&self, key: Seq<char>) -> Option<grants::Refusal> {
        if !ids::is_id(self.organization_id@) || !ids::is_id(self.device_id@) {
            Some(grants::Refusal::InvalidTenant)
        } else if key != ids::owned_key(self.organization_id@, self.device_id@) {
            Some(grants::Refusal::InvalidState)
        } else if !ids::all_ids(self.workspace_ids@) {
            Some(grants::Refusal::InvalidTenant)
        } else {
            None
        }
    }

    fn check(&self, key: &str) -> (r: Result<(), AuthError>) {
        if !ids::valid_id(self.organization_id.as_str()) || !ids::valid_id(
            self.device_id.as_str(),
        ) {
            return Err(AuthError::InvalidTenant);
        }
        let expected = ids::tenant_key(self.organization_id.as_str(), self.device_id.as_str());
        if !text::same_text(key, expected.as_str()) {
            return Err(AuthError::InvalidState);
        }
        if !ids::every_id(&self.workspace_ids) {
            return Err(AuthError::InvalidTenant);
        }
        Ok(())
    }
}

/// The workspace of a usage count.
pub open spec fn usage_workspace(record: UsageRecord) -> Option<Seq<char>> {
    match record.workspace_id {
        Some(name) => Some(name@),
        None => None,
    }
}

impl StoredRecord for UsageRecord {
    open spec fn defect(&self, key: Seq<char>) -> Option<grants::Refusal> {
        if !ids::is_id(self.organization_id@) || (self.workspace_id is Some && !ids::is_id(
            self.workspace_id->0@,
        )) || !ids::is_id(self.usage_key@) {
            Some(grants::Refusal::InvalidTenant)
        } else if key != ids::usage_key_of(
            self.organization_id@,
            usage_workspace(*self),
            self.usage_key@,
        ) {
            Some(grants::Refusal::InvalidState)
        } else {
            None
        }
    }

    fn check(&self, key: &str) -> (r: Result<(), AuthError>) {
        if !ids::valid_id(self.organization_id.as_str()) {
            return Err(AuthError::InvalidTenant);
        }
        if let Some(workspace) = &self.workspace_id {
            if !ids::valid_id(workspace.as_str()) {
                return Err(AuthError::InvalidTenant);
            }
        }
        if !ids::valid_id(self.usage_key.as_str()) {
            return Err(AuthError::InvalidTenant);
        }
        let workspace: Option<&str> = match &self.workspace_id {
            Some(name) => Some(name.as_str()),
            None => None,
        };
        let expected = ids::usage_key_for(
            self.organization_id.as_str(),
            workspace,
            self.usage_key.as_str(),
        );
        if !text::same_text(key, expected.as_str()) {
            return Err(AuthError::InvalidState);
        }
        Ok(())
    }
}

/// No record of the table has a defect.
pub open spec fn sound<V: StoredRecord>(m: Map<Seq<char>, V>) -> bool {
    forall|key: Seq<char>| #[trigger] m.contains_key(key) ==> m[key].defect(key) is None
}

/// The first record in key order with a defect has this one.
pub open spec fn first_defect<V: StoredRecord>(
    m: Map<Seq<char>, V>,
    refusal: grants::Refusal,
) -> bool {
    exists|key: Seq<char>|
        {
            &&& #[trigger] m.contains_key(key)
            &&& m[key].defect(key) == Some(refusal)
            &&& forall|other: Seq<char>| #[trigger]
                m.contains_key(other) && m[other].defect(other) is Some ==> other == key
                    || table::text_before(key, other)
        }
}

fn validate_table<V: StoredRecord>(records: &Table<V>) -> (r: Result<(), AuthError>)
    ensures
        r is Ok == sound(records@),
        r is Err ==> first_defect(records@, r->Err_0@),
{
    let n: usize = records.len();
    let mut i: usize = 0;
    while i < n
        invariant
            i <= n,
            n == records.keys().len(),
            records@.dom() == records.keys().to_set(),
            forall|a: int, b: int|
                0 <= a < b < records.keys().len() ==> table::text_before(
                    #[trigger] records.keys()[a],
                    #[trigger] records.keys()[b],
                ),
            forall|k: int|
                0 <= k < i ==> records@[#[trigger] records.keys()[k]].defect(records.keys()[k]) is None,
        decreases n - i,
    {
        let key = records.key_at(i);
        let record = records.value_at(i);
        if let Err(error) = record.check(key.as_str()) {
            proof {
                let bad = records.keys()[i as int];
                assert(records@.contains_key(bad));
                assert forall|other: Seq<char>| #[trigger]
                    records@.contains_key(other) && records@[other].defect(
                        other,
                    ) is Some implies other == bad || table::text_before(bad, other) by {
                    assert(records@.dom().contains(other));
                    assert(records.keys().contains(other));
                    let k = choose|k: int|
                        0 <= k < records.keys().len() && records.keys()[k] == other;
                    assert(k >= i);
                }
            }
            return Err(error);
        }
        i = i + 1;
    }
    proof {
        assert forall|key: Seq<char>| #[trigger] records@.contains_key(key) implies records@[key].defect(
            key,
        ) is None by {
            assert(records@.dom().contains(key));
            assert(records.keys().contains(key));
            let k = choose|k: int| 0 <= k < records.keys().len() && records.keys()[k] == key;
            assert(records@[records.keys()[k]].defect(records.keys()[k]) is None);
        }
    }
    Ok(())
}

/// Every record of the state is fine.
pub open spec fn sound_state(state: TenantStore) -> bool {
    &&& sound(state.organizations@)
    &&& sound(state.users@)
    &&& sound(state.memberships@)
    &&& sound(state.workspaces@)
    &&& sound(state.devices@)
    &&& sound(state.usage@)
}

/// What is wrong with a state that was read back: its version, or the first
/// defect of the first table that has any.
pub open spec fn state_refused(version: u32, state: TenantStore, refusal: grants::Refusal) -> bool {
    if version != 1 {
        refusal == grants::Refusal::InvalidState
    } else if !sound(state.organizations@) {
        first_defect(state.organizations@, refusal)
    } else if !sound(state.users@) {
        first_defect(state.users@, refusal)
    } else if !sound(state.memberships@) {
        first_defect(state.memberships@, refusal)
    } else if !sound(state.workspaces@) {
        first_defect(state.workspaces@, refusal)
    } else if !sound(state.devices@) {
        first_defect(state.devices@, refusal)
    } else {
        first_defect(state.usage@, refusal)
    }
}

/// Checks a state that was read back.
pub fn validate_tenant_state(version: u32, state: &TenantStore) -> (r: Result<(), AuthError>)
    ensures
        r is Ok == (version == 1 && sound_state(*state)),
        r is Err ==> state_refused(version, *state, r->Err_0@),
{
    if version != 1 {
        return Err(AuthError::InvalidState);
    }
    if let Err(error) = validate_table(&state.organizations) {
        return Err(error);
    }
    if let Err(error) = validate_table(&state.users) {
        return Err(error);
    }
    if let Err(error) = validate_table(&state.memberships) {
        return Err(error);
    }
    if let Err(error) = validate_table(&state.workspaces) {
        return Err(error);
    }
    if let Err(error) = validate_table(&state.devices) {
        return Err(error);
    }
    validate_table(&state.usage)
}

// ---------------------------------------------------------------------------
// Rules

/// How far a role reaches.
pub open spec fn role_rank(role: TenantRole) -> int {
    match role {
        TenantRole::Viewer => 0,
        TenantRole::Operator => 1,
        TenantRole::Admin => 2,
    }
}

impl TenantRole {
    fn rank(&self) -> (rank: u8)
        ensures
            rank == role_rank(*self),
    {
        match self {
            TenantRole::Viewer => 0,
            TenantRole::Operator => 1,
            TenantRole::Admin => 2,
        }
    }
}

/// `after` is `before` with a record put under `key`.
pub open spec fn puts<V>(
    before: Map<Seq<char>, V>,
    after: Map<Seq<char>, V>,
    key: Seq<char>,
) -> bool {
    after == before.insert(key, after[key])
}

/// Why a context is refused, if it is.
pub open spec fn context_refusal(
    state: TenantStore,
    grant: grants::GrantView,
    organization_id: Seq<char>,
    device_id: Seq<char>,
    workspace_id: Option<Seq<char>>,
    required_role: TenantRole,
) -> Option<grants::Refusal> {
    let member_key = ids::owned_key(organization_id, grant.actor_id);
    let device_key = ids::owned_key(organization_id, device_id);
    let workspace_key = ids::owned_key(organization_id, workspace_id->0);
    if !ids::is_id(organization_id) || !ids::is_id(device_id) || (workspace_id is Some
        && !ids::is_id(workspace_id->0)) {
        Some(grants::Refusal::InvalidTenant)
    } else if grant.organization_id != organization_id {
        Some(grants::Refusal::Unauthorized)
    } else if !state.memberships@.contains_key(member_key) || state.memberships@[member_key].revoked
        || role_rank(state.memberships@[member_key].role) < role_rank(required_role) {
        Some(grants::Refusal::Unauthorized)
    } else if !state.devices@.contains_key(device_key) || state.devices@[device_key].revoked {
        Some(grants::Refusal::Unauthorized)
    } else if workspace_id is Some && (!state.workspaces@.contains_key(workspace_key)
        || !state.devices@[device_key].workspace_ids@.contains(workspace_id->0)
        || !grant.workspace_ids.contains(workspace_id->0)) {
        Some(grants::Refusal::Unauthorized)
    } else {
        None
    }
}

/// Every workspace of the set belongs to the organization.
pub open spec fn workspaces_known(
    state: TenantStore,
    organization_id: Seq<char>,
    workspace_ids: Set<Seq<char>>,
) -> bool {
    forall|w: Seq<char>| #[trigger]
        workspace_ids.contains(w) ==> state.workspaces@.contains_key(
            ids::owned_key(organization_id, w),
        )
}

/// Two usage records say the same.
pub open spec fn same_usage(a: UsageRecord, b: UsageRecord) -> bool {
    &&& a.organization_id@ == b.organization_id@
    &&& usage_workspace(a) == usage_workspace(b)
    &&& a.usage_key@ == b.usage_key@
    &&& a.units == b.units
}

/// The usage records of an organization among those under `keys`, in order.
pub open spec fn usage_of(
    keys: Seq<Seq<char>>,
    usage: Map<Seq<char>, UsageRecord>,
    organization_id: Seq<char>,
) -> Seq<UsageRecord>
    decreases keys.len(),
{
    if keys.len() == 0 {
        Seq::empty()
    } else {
        let before = usage_of(keys.drop_last(), usage, organization_id);
        if usage[keys.last()].organization_id@ == organization_id {
            before.push(usage[keys.last()])
        } else {
            before
        }
    }
}

impl UsageRecord {
    pub fn copy(&self) -> (record: UsageRecord)
        ensures
            same_usage(record, *self),
    {
        UsageRecord {
            organization_id: self.organization_id.clone(),
            workspace_id: match &self.workspace_id {
                Some(name) => Some(name.clone()),
                None => None,
            },
            usage_key: self.usage_key.clone(),
            units: self.units,
        }
    }
}

// ---------------------------------------------------------------------------
// The store

impl TenantStore {
    /// A store without tenants.
    pub fn create() -> (store: TenantStore)
        ensures
            store.users@ == Map::<Seq<char>, UserRecord>::empty(),
            store.organizations@ == Map::<Seq<char>, OrganizationRecord>::empty(),
            store.memberships@ == Map::<Seq<char>, MembershipRecord>::empty(),
            store.workspaces@ == Map::<Seq<char>, WorkspaceRecord>::empty(),
            store.devices@ == Map::<Seq<char>, TenantDeviceRecord>::empty(),
            store.subscriptions@ == Map::<Seq<char>, SubscriptionRecord>::empty(),
            store.entitlements@ == Map::<Seq<char>, EntitlementRecord>::empty(),
            store.usage@ == Map::<Seq<char>, UsageRecord>::empty(),
            sound_state(store),
    {
        TenantStore {
            users: Table::new(),
            organizations: Table::new(),
            memberships: Table::new(),
            workspaces: Table::new(),
            devices: Table::new(),
            subscriptions: Table::new(),
            entitlements: Table::new(),
            usage: Table::new(),
        }
    }

    /// A store over what was read back, if that is sound.
    pub fn restore(version: u32, state: TenantStore) -> (store: Result<TenantStore, AuthError>)
        ensures
            store is Ok == (version == 1 && sound_state(state)),
            store is Ok ==> store->Ok_0 == state,
            store is Err ==> state_refused(version, state, store->Err_0@),
    {
        match validate_tenant_state(version, &state) {
            Err(error) => Err(error),
            Ok(()) => Ok(state),
        }
    }

    pub fn upsert_user(&mut self, user_id: &str, display_name: &str) -> (r: Result<(), AuthError>)
        ensures
            r is Ok == ids::is_id(user_id@),
            r is Err ==> r->Err_0@ == grants::Refusal::InvalidTenant && *final(self) == *old(self),
            *final(self) == (TenantStore { users: final(self).users, ..*old(self) }),
            r is Ok ==> {
                &&& puts(old(self).users@, final(self).users@, user_id@)
                &&& final(self).users@[user_id@].user_id@ == user_id@
                &&& final(self).users@[user_id@].display_name@ == display_name@
            },
            sound_state(*old(self)) ==> sound_state(*final(self)),
    {
        if !ids::valid_id(user_id) {
            return Err(AuthError::InvalidTenant);
        }
        self.users.insert(
            text::copied(user_id),
            UserRecord { user_id: text::copied(user_id), display_name: text::copied(display_name) },
        );
        Ok(())
    }

    pub fn upsert_organization(&mut self, organization_id: &str, name: &str) -> (r: Result<
        (),
        AuthError,
    >)
        ensures
            r is Ok == ids::is_id(organization_id@),
            r is Err ==> r->Err_0@ == grants::Refusal::InvalidTenant && *final(self) == *old(self),
            *final(self) == (TenantStore {
                organizations: final(self).organizations,
                ..*old(self)
            }),
            r is Ok ==> {
                &&& puts(old(self).organizations@, final(self).organizations@, organization_id@)
                &&& final(self).organizations@[organization_id@].organization_id@
                    == organization_id@
                &&& final(self).organizations@[organization_id@].name@ == name@
            },
            sound_state(*old(self)) ==> sound_state(*final(self)),
    {
        if !ids::valid_id(organization_id) {
            return Err(AuthError::InvalidTenant);
        }
        self.organizations.insert(
            text::copied(organization_id),
            OrganizationRecord {
                organization_id: text::copied(organization_id),
                name: text::copied(name),
            },
        );
        Ok(())
    }

    pub fn upsert_workspace(&mut self, organization_id: &str, workspace_id: &str, name: &str) -> (r:
        Result<(), AuthError>)
        ensures
            r is Ok == (ids::is_id(workspace_id@) && ids::is_id(organization_id@) && old(
                self,
            ).organizations@.contains_key(organization_id@)),
            r is Err ==> r->Err_0@ == (if ids::is_id(workspace_id@) && ids::is_id(
                organization_id@,
            ) {
                grants::Refusal::Unauthorized
            } else {
                grants::Refusal::InvalidTenant
            }) && *final(self) == *old(self),
            *final(self) == (TenantStore { workspaces: final(self).workspaces, ..*old(self) }),
            r is Ok ==> {
                let key = ids::owned_key(organization_id@, workspace_id@);
                &&& puts(old(self).workspaces@, final(self).workspaces@, key)
                &&& final(self).workspaces@[key].organization_id@ == organization_id@
                &&& final(self).workspaces@[key].workspace_id@ == workspace_id@
                &&& final(self).workspaces@[key].name@ == name@
            },
            sound_state(*old(self)) ==> sound_state(*final(self)),
    {
        if !ids::valid_id(workspace_id) || !ids::valid_id(organization_id) {
            return Err(AuthError::InvalidTenant);
        }
        if !self.organizations.contains(organization_id) {
            return Err(AuthError::Unauthorized);
        }
        self.workspaces.insert(
            ids::tenant_key(organization_id, workspace_id),
            WorkspaceRecord {
                organization_id: text::copied(organization_id),
                workspace_id: text::copied(workspace_id),
                name: text::copied(name),
            },
        );
        Ok(())
    }

    pub fn set_membership(&mut self, organization_id: &str, user_id: &str, role: TenantRole) -> (r:
        Result<(), AuthError>)
        ensures
            r is Ok == (ids::is_id(organization_id@) && ids::is_id(user_id@) && old(
                self,
            ).organizations@.contains_key(organization_id@) && old(self).users@.contains_key(
                user_id@,
            )),
            r is Err ==> r->Err_0@ == (if ids::is_id(organization_id@) && ids::is_id(user_id@) {
                grants::Refusal::Unauthorized
            } else {
                grants::Refusal::InvalidTenant
            }) && *final(self) == *old(self),
            *final(self) == (TenantStore { memberships: final(self).memberships, ..*old(self) }),
            r is Ok ==> {
                let key = ids::owned_key(organization_id@, user_id@);
                &&& puts(old(self).memberships@, final(self).memberships@, key)
                &&& final(self).memberships@[key].organization_id@ == organization_id@
                &&& final(self).memberships@[key].user_id@ == user_id@
                &&& final(self).memberships@[key].role == role
                &&& !final(self).memberships@[key].revoked
            },
            sound_state(*old(self)) ==> sound_state(*final(self)),
    {
        if !ids::valid_id(organization_id) || !ids::valid_id(user_id) {
            return Err(AuthError::InvalidTenant);
        }
        if !self.organizations.contains(organization_id) || !self.users.contains(user_id) {
            return Err(AuthError::Unauthorized);
        }
        self.memberships.insert(
            ids::tenant_key(organization_id, user_id),
            MembershipRecord {
                organization_id: text::copied(organization_id),
                user_id: text::copied(user_id),
                role,
                revoked: false,
            },
        );
        Ok(())
    }

    pub fn revoke_membership(&mut self, organization_id: &str, user_id: &str) -> (r: Result<
        (),
        AuthError,
    >)
        ensures
            r is Ok == (ids::is_id(organization_id@) && ids::is_id(user_id@)),
            r is Err ==> r->Err_0@ == grants::Refusal::InvalidTenant && *final(self) == *old(self),
            *final(self) == (TenantStore { memberships: final(self).memberships, ..*old(self) }),
            r is Ok ==> {
                let key = ids::owned_key(organization_id@, user_id@);
                if old(self).memberships@.contains_key(key) {
                    final(self).memberships@ == old(self).memberships@.insert(
                        key,
                        (MembershipRecord { revoked: true, ..old(self).memberships@[key] }),
                    )
                } else {
                    final(self).memberships@ == old(self).memberships@
                }
            },
            sound_state(*old(self)) ==> sound_state(*final(self)),
    {
        if !ids::valid_id(organization_id) || !ids::valid_id(user_id) {
            return Err(AuthError::InvalidTenant);
        }
        let key = ids::tenant_key(organization_id, user_id);
        let ghost before = self.memberships@;
        if let Some(record) = self.memberships.remove(key.as_str()) {
            let revoked = MembershipRecord { revoked: true, ..record };
            self.memberships.insert(key, revoked);
            proof {
                assert(self.memberships@ =~= before.insert(key@, revoked));
            }
        } else {
            proof {
                assert(self.memberships@ =~= before);
            }
        }
        Ok(())
    }

    pub fn pair_device(
        &mut self,
        organization_id: &str,
        device_id: &str,
        workspace_ids: Vec<String>,
    ) -> (r: Result<(), AuthError>)
        ensures
            r is Ok == (ids::is_id(device_id@) && ids::is_id(organization_id@) && ids::all_ids(
                text::texts(workspace_ids@).to_set(),
            ) && old(self).organizations@.contains_key(organization_id@) && workspaces_known(
                *old(self),
                organization_id@,
                text::texts(workspace_ids@).to_set(),
            )),
            r is Err ==> r->Err_0@ == (if ids::is_id(device_id@) && ids::is_id(organization_id@)
                && ids::all_ids(text::texts(workspace_ids@).to_set()) {
                grants::Refusal::Unauthorized
            } else {
                grants::Refusal::InvalidTenant
            }) && *final(self) == *old(self),
            *final(self) == (TenantStore { devices: final(self).devices, ..*old(self) }),
            r is Ok ==> {
                let key = ids::owned_key(organization_id@, device_id@);
                &&& puts(old(self).devices@, final(self).devices@, key)
                &&& final(self).devices@[key].organization_id@ == organization_id@
                &&& final(self).devices@[key].device_id@ == device_id@
                &&& final(self).devices@[key].workspace_ids@ == text::texts(
                    workspace_ids@,
                ).to_set()
                &&& !final(self).devices@[key].revoked
            },
            sound_state(*old(self)) ==> sound_state(*final(self)),
    {
        if !ids::valid_id(device_id) || !ids::valid_id(organization_id) {
            return Err(AuthError::InvalidTenant);
        }
        let workspaces = ids::collect(&workspace_ids);
        if !ids::every_id(&workspaces) {
            return Err(AuthError::InvalidTenant);
        }
        if !self.organizations.contains(organization_id) {
            return Err(AuthError::Unauthorized);
        }
        let n: usize = workspaces.len();
        let mut i: usize = 0;
        while i < n
            invariant
                *self == *old(self),
                i <= n,
                n == workspaces.items().len(),
                workspaces@ == workspaces.items().to_set(),
                workspaces@ == text::texts(workspace_ids@).to_set(),
                ids::is_id(device_id@),
                ids::is_id(organization_id@),
                ids::all_ids(workspaces@),
                forall|k: int|
                    0 <= k < i ==> self.workspaces@.contains_key(
                        ids::owned_key(organization_id@, #[trigger] workspaces.items()[k]),
                    ),
            decreases n - i,
        {
            let key = ids::tenant_key(organization_id, workspaces.item(i).as_str());
            if !self.workspaces.contains(key.as_str()) {
                proof {
                    assert(workspaces@.contains(workspaces.items()[i as int]));
                }
                return Err(AuthError::Unauthorized);
            }
            i = i + 1;
        }
        proof {
            assert forall|w: Seq<char>| #[trigger]
                workspaces@.contains(w) implies self.workspaces@.contains_key(
                ids::owned_key(organization_id@, w),
            ) by {
                let k = choose|k: int|
                    0 <= k < workspaces.items().len() && workspaces.items()[k] == w;
                assert(workspaces.items()[k] == w);
            }
        }
        self.devices.insert(
            ids::tenant_key(organization_id, device_id),
            TenantDeviceRecord {
                organization_id: text::copied(organization_id),
                device_id: text::copied(device_id),
                workspace_ids: workspaces,
                revoked: false,
            },
        );
        Ok(())
    }

    pub fn revoke_device(&mut self, organization_id: &str, device_id: &str) -> (r: Result<
        (),
        AuthError,
    >)
        ensures
            r is Ok == (ids::is_id(organization_id@) && ids::is_id(device_id@)),
            r is Err ==> r->Err_0@ == grants::Refusal::InvalidTenant && *final(self) == *old(self),
            *final(self) == (TenantStore { devices: final(self).devices, ..*old(self) }),
            r is Ok ==> {
                let key = ids::owned_key(organization_id@, device_id@);
                if old(self).devices@.contains_key(key) {
                    final(self).devices@ == old(self).devices@.insert(
                        key,
                        (TenantDeviceRecord { revoked: true, ..old(self).devices@[key] }),
                    )
                } else {
                    final(self).devices@ == old(self).devices@
                }
            },
            sound_state(*old(self)) ==> sound_state(*final(self)),
    {
        if !ids::valid_id(organization_id) || !ids::valid_id(device_id) {
            return Err(AuthError::InvalidTenant);
        }
        let key = ids::tenant_key(organization_id, device_id);
        let ghost before = self.devices@;
        if let Some(record) = self.devices.remove(key.as_str()) {
            let revoked = TenantDeviceRecord { revoked: true, ..record };
            self.devices.insert(key, revoked);
            proof {
                assert(self.devices@ =~= before.insert(key@, revoked));
            }
        } else {
            proof {
                assert(self.devices@ =~= before);
            }
        }
        Ok(())
    }

    /// Takes a workspace away from a device.
    pub fn remove_device_workspace(
        &mut self,
        organization_id: &str,
        device_id: &str,
        workspace_id: &str,
    ) -> (removed: Result<bool, AuthError>)
        ensures
            removed is Ok == (ids::is_id(organization_id@) && ids::is_id(device_id@) && ids::is_id(
                workspace_id@,
            )),
            removed is Err ==> removed->Err_0@ == grants::Refusal::InvalidTenant && *final(self)
                == *old(self),
            *final(self) == (TenantStore { devices: final(self).devices, ..*old(self) }),
            removed is Ok ==> {
                let key = ids::owned_key(organization_id@, device_id@);
                if old(self).devices@.contains_key(key) {
                    let device = old(self).devices@[key];
                    &&& removed->Ok_0 == device.workspace_ids@.contains(workspace_id@)
                    &&& puts(old(self).devices@, final(self).devices@, key)
                    &&& final(self).devices@[key].organization_id@ == device.organization_id@
                    &&& final(self).devices@[key].device_id@ == device.device_id@
                    &&& final(self).devices@[key].workspace_ids@ == device.workspace_ids@.remove(
                        workspace_id@,
                    )
                    &&& final(self).devices@[key].revoked == device.revoked
                } else {
                    !removed->Ok_0 && final(self).devices@ == old(self).devices@
                }
            },
            sound_state(*old(self)) ==> sound_state(*final(self)),
    {
        if !ids::valid_id(organization_id) || !ids::valid_id(device_id) || !ids::valid_id(
            workspace_id,
        ) {
            return Err(AuthError::InvalidTenant);
        }
        let key = ids::tenant_key(organization_id, device_id);
        let ghost before = self.devices@;
        match self.devices.remove(key.as_str()) {
            None => {
                proof {
                    assert(self.devices@ =~= before);
                }
                Ok(false)
            },
            Some(record) => {
                let mut workspace_ids = record.workspace_ids;
                let removed = workspace_ids.remove(workspace_id);
                let changed = TenantDeviceRecord {
                    organization_id: record.organization_id,
                    device_id: record.device_id,
                    workspace_ids,
                    revoked: record.revoked,
                };
                self.devices.insert(key, changed);
                proof {
                    assert(self.devices@ =~= before.insert(key@, changed));
                    if sound(before) {
                        assert(before.contains_key(key@));
                        assert(record.defect(key@) is None);
                        assert(ids::all_ids(changed.workspace_ids@));
                        assert(changed.defect(key@) is None);
                    }
                }
                Ok(removed)
            },
        }
    }

    /// Who acts, where, with which role; refused unless everything named
    /// belongs to the one organization.
    pub fn verify_context(
        &self,
        grant: &GrantRecord,
        organization_id: &str,
        device_id: &str,
        workspace_id: Option<&str>,
        required_role: TenantRole,
    ) -> (context: Result<VerifiedTenantContext, AuthError>)
        ensures
            context is Err == context_refusal(
                *self,
                grant@,
                organization_id@,
                device_id@,
                ids::optional_str(workspace_id),
                required_role,
            ) is Some,
            context is Err ==> context->Err_0@ == context_refusal(
                *self,
                grant@,
                organization_id@,
                device_id@,
                ids::optional_str(workspace_id),
                required_role,
            )->0,
            context is Ok ==> {
                let c = context->Ok_0;
                &&& c.organization_id@ == organization_id@
                &&& c.actor_id@ == grant.actor_id@
                &&& c.device_id@ == device_id@
                &&& c.workspace_id is Some == workspace_id is Some
                &&& workspace_id is Some ==> c.workspace_id->0@ == workspace_id->0@
                &&& c.role == self.memberships@[ids::owned_key(
                    organization_id@,
                    grant.actor_id@,
                )].role
                &&& c.scopes@ == grant.scopes@
            },
    {
        if !ids::valid_id(organization_id) || !ids::valid_id(device_id) {
            return Err(AuthError::InvalidTenant);
        }
        if let Some(workspace) = workspace_id {
            if !ids::valid_id(workspace) {
                return Err(AuthError::InvalidTenant);
            }
        }
        if !text::same_text(grant.organization_id.as_str(), organization_id) {
            return Err(AuthError::Unauthorized);
        }
        let member_key = ids::tenant_key(organization_id, grant.actor_id.as_str());
        let membership = match self.memberships.get(member_key.as_str()) {
            None => {
                return Err(AuthError::Unauthorized);
            },
            Some(membership) => membership,
        };
        if membership.revoked || membership.role.rank() < required_role.rank() {
            return Err(AuthError::Unauthorized);
        }
        let device_key = ids::tenant_key(organization_id, device_id);
        let device = match self.devices.get(device_key.as_str()) {
            None => {
                return Err(AuthError::Unauthorized);
            },
            Some(device) => device,
        };
        if device.revoked {
            return Err(AuthError::Unauthorized);
        }
        if let Some(workspace) = workspace_id {
            let workspace_key = ids::tenant_key(organization_id, workspace);
            if !self.workspaces.contains(workspace_key.as_str()) || !device.workspace_ids.contains(
                workspace,
            ) || !grant.workspace_ids.contains(workspace) {
                return Err(AuthError::Unauthorized);
            }
        }
        Ok(
            VerifiedTenantContext {
                organization_id: text::copied(organization_id),
                actor_id: grant.actor_id.clone(),
                device_id: text::copied(device_id),
                workspace_id: match workspace_id {
                    Some(workspace) => Some(text::copied(workspace)),
                    None => None,
                },
                role: membership.role,
                scopes: grant.scopes.copy(),
            },
        )
    }

    /// Adds units to a count, which stays at the largest number once there.
    pub fn record_usage(
        &mut self,
        organization_id: &str,
        workspace_id: Option<&str>,
        usage_key: &str,
        units: u64,
    ) -> (r: Result<(), AuthError>)
        ensures
            r is Ok == (ids::is_id(organization_id@) && (workspace_id is Some ==> ids::is_id(
                workspace_id->0@,
            )) && ids::is_id(usage_key@) && old(self).organizations@.contains_key(
                organization_id@,
            )),
            r is Err ==> r->Err_0@ == (if ids::is_id(organization_id@) && (workspace_id is Some
                ==> ids::is_id(workspace_id->0@)) && ids::is_id(usage_key@) {
                grants::Refusal::Unauthorized
            } else {
                grants::Refusal::InvalidTenant
            }) && *final(self) == *old(self),
            *final(self) == (TenantStore { usage: final(self).usage, ..*old(self) }),
            r is Ok ==> {
                let key = ids::usage_key_of(
                    organization_id@,
                    ids::optional_str(workspace_id),
                    usage_key@,
                );
                let record = final(self).usage@[key];
                &&& puts(old(self).usage@, final(self).usage@, key)
                &&& if old(self).usage@.contains_key(key) {
                    let sum = old(self).usage@[key].units + units;
                    record == (UsageRecord {
                        units: if sum > u64::MAX {
                            u64::MAX
                        } else {
                            sum as u64
                        },
                        ..old(self).usage@[key]
                    })
                } else {
                    &&& record.organization_id@ == organization_id@
                    &&& usage_workspace(record) == ids::optional_str(workspace_id)
                    &&& record.usage_key@ == usage_key@
                    &&& record.units == units
                }
            },
            sound_state(*old(self)) ==> sound_state(*final(self)),
    {
        if !ids::valid_id(organization_id) {
            return Err(AuthError::InvalidTenant);
        }
        if let Some(workspace) = workspace_id {
            if !ids::valid_id(workspace) {
                return Err(AuthError::InvalidTenant);
            }
        }
        if !ids::valid_id(usage_key) {
            return Err(AuthError::InvalidTenant);
        }
        if !self.organizations.contains(organization_id) {
            return Err(AuthError::Unauthorized);
        }
        let key = ids::usage_key_for(organization_id, workspace_id, usage_key);
        let ghost before = self.usage@;
        let ghost name = key@;
        match self.usage.remove(key.as_str()) {
            Some(record) => {
                let sum: u64 = if units > u64::MAX - record.units {
                    u64::MAX
                } else {
                    record.units + units
                };
                let counted = UsageRecord { units: sum, ..record };
                self.usage.insert(key, counted);
                proof {
                    assert(self.usage@ =~= before.insert(name, counted));
                    if sound(before) {
                        assert(before.contains_key(name));
                        assert(counted.defect(name) is None);
                    }
                }
            },
            None => {
                let counted = UsageRecord {
                    organization_id: text::copied(organization_id),
                    workspace_id: match workspace_id {
                        Some(workspace) => Some(text::copied(workspace)),
                        None => None,
                    },
                    usage_key: text::copied(usage_key),
                    units,
                };
                self.usage.insert(key, counted);
                proof {
                    assert(self.usage@ =~= before.insert(name, counted));
                }
            },
        }
        Ok(())
    }

    /// The usage counts of an organization.
    pub fn list_usage_for_org(&self, organization_id: &str) -> (list: Result<
        Vec<UsageRecord>,
        AuthError,
    >)
        ensures
            list is Ok == ids::is_id(organization_id@),
            list is Err ==> list->Err_0@ == grants::Refusal::InvalidTenant,
            list is Ok ==> {
                let expected = usage_of(self.usage.keys(), self.usage@, organization_id@);
                &&& list->Ok_0@.len() == expected.len()
                &&& forall|i: int|
                    0 <= i < expected.len() ==> same_usage(
                        #[trigger] list->Ok_0@[i],
                        expected[i],
                    )
            },
    {
        if !ids::valid_id(organization_id) {
            return Err(AuthError::InvalidTenant);
        }
        let mut list: Vec<UsageRecord> = Vec::new();
        let n: usize = self.usage.len();
        let ghost keys = self.usage.keys();
        let mut i: usize = 0;
        while i < n
            invariant
                i <= n,
                keys == self.usage.keys(),
                n == keys.len(),
                list@.len() == usage_of(keys.take(i as int), self.usage@, organization_id@).len(),
                forall|k: int|
                    0 <= k < list@.len() ==> same_usage(
                        #[trigger] list@[k],
                        usage_of(keys.take(i as int), self.usage@, organization_id@)[k],
                    ),
            decreases n - i,
        {
            proof {
                assert(keys.take(i + 1).drop_last() =~= keys.take(i as int));
                assert(keys.take(i + 1).last() == keys[i as int]);
            }
            let record = self.usage.value_at(i);
            if text::same_text(record.organization_id.as_str(), organization_id) {
                list.push(record.copy());
            }
            i = i + 1;
        }
        proof {
            assert(keys.take(n as int) =~= keys);
        }
        Ok(list)
    }
}

// ---------------------------------------------------------------------------
// Laws

/// What one organization puts down leaves the records of every other
/// organization as they were.
pub proof fn organizations_do_not_touch_each_other<V>(
    before: Map<Seq<char>, V>,
    after: Map<Seq<char>, V>,
    organization_a: Seq<char>,
    resource_a: Seq<char>,
    organization_b: Seq<char>,
    resource_b: Seq<char>,
)
    requires
        puts(before, after, ids::owned_key(organization_a, resource_a)),
        organization_a != organization_b,
    ensures
        after.contains_key(ids::owned_key(organization_b, resource_b)) == before.contains_key(
            ids::owned_key(organization_b, resource_b),
        ),
        after.contains_key(ids::owned_key(organization_b, resource_b)) ==> after[ids::owned_key(
            organization_b,
            resource_b,
        )] == before[ids::owned_key(organization_b, resource_b)],
{
    if ids::owned_key(organization_a, resource_a) == ids::owned_key(organization_b, resource_b) {
        ids::keys_tell_owners_apart(organization_a, resource_a, organization_b, resource_b);
    }
}

/// A grant of one organization opens nothing of another.
pub proof fn grants_stay_in_their_organization(
    state: TenantStore,
    grant: grants::GrantView,
    organization_id: Seq<char>,
    device_id: Seq<char>,
    workspace_id: Option<Seq<char>>,
    role: TenantRole,
)
    requires
        grant.organization_id != organization_id,
    ensures
        context_refusal(state, grant, organization_id, device_id, workspace_id, role) is Some,
{
}

/// In a sound state, a context that is granted rests on records that all carry
/// the name of its organization.
pub proof fn granted_contexts_belong_together(
    state: TenantStore,
    grant: grants::GrantView,
    organization_id: Seq<char>,
    device_id: Seq<char>,
    workspace_id: Option<Seq<char>>,
    role: TenantRole,
)
    requires
        sound_state(state),
        context_refusal(state, grant, organization_id, device_id, workspace_id, role) is None,
    ensures
        ({
            let member = state.memberships@[ids::owned_key(organization_id, grant.actor_id)];
            let device = state.devices@[ids::owned_key(organization_id, device_id)];
            &&& grant.organization_id == organization_id
            &&& member.organization_id@ == organization_id
            &&& member.user_id@ == grant.actor_id
            &&& !member.revoked
            &&& role_rank(role) <= role_rank(member.role)
            &&& device.organization_id@ == organization_id
            &&& device.device_id@ == device_id
            &&& !device.revoked
            &&& workspace_id is Some ==> state.workspaces@[ids::owned_key(
                organization_id,
                workspace_id->0,
            )].organization_id@ == organization_id
        }),
{
    let member_key = ids::owned_key(organization_id, grant.actor_id);
    let device_key = ids::owned_key(organization_id, device_id);
    let member = state.memberships@[member_key];
    let device = state.devices@[device_key];
    assert(member.defect(member_key) is None);
    ids::keys_tell_owners_apart(
        organization_id,
        grant.actor_id,
        member.organization_id@,
        member.user_id@,
    );
    assert(device.defect(device_key) is None);
    ids::keys_tell_owners_apart(
        organization_id,
        device_id,
        device.organization_id@,
        device.device_id@,
    );
    if workspace_id is Some {
        let workspace_key = ids::owned_key(organization_id, workspace_id->0);
        let workspace = state.workspaces@[workspace_key];
        assert(workspace.defect(workspace_key) is None);
        ids::keys_tell_owners_apart(
            organization_id,
            workspace_id->0,
            workspace.organization_id@,
            workspace.workspace_id@,
        );
    }
}

/// A revoked member is refused everywhere in the organization, and members of
/// other organizations are as before.
pub proof fn revoked_members_are_refused(
    before: TenantStore,
    after: TenantStore,
    organization_id: Seq<char>,
    user_id: Seq<char>,
    grant: grants::GrantView,
    device_id: Seq<char>,
    workspace_id: Option<Seq<char>>,
    role: TenantRole,
)
    requires
        before.memberships@.contains_key(ids::owned_key(organization_id, user_id)),
        after.memberships@ == before.memberships@.insert(
            ids::owned_key(organization_id, user_id),
            (MembershipRecord {
                revoked: true,
                ..before.memberships@[ids::owned_key(organization_id, user_id)]
            }),
        ),
        after.devices == before.devices,
        after.workspaces == before.workspaces,
    ensures
        grant.actor_id == user_id ==> context_refusal(
            after,
            grant,
            organization_id,
            device_id,
            workspace_id,
            role,
        ) is Some,
        forall|other: Seq<char>|
            other != organization_id ==> #[trigger] context_refusal(
                after,
                grant,
                other,
                device_id,
                workspace_id,
                role,
            ) == context_refusal(before, grant, other, device_id, workspace_id, role),
{
    let key = ids::owned_key(organization_id, user_id);
    assert forall|other: Seq<char>|
        other != organization_id implies #[trigger] context_refusal(
        after,
        grant,
        other,
        device_id,
        workspace_id,
        role,
    ) == context_refusal(before, grant, other, device_id, workspace_id, role) by {
        if key == ids::owned_key(other, grant.actor_id) {
            ids::keys_tell_owners_apart(organization_id, user_id, other, grant.actor_id);
        }
    }
}

/// A revoked device is refused in its organization, and devices of other
/// organizations, of whatever name, are as before.
pub proof fn revoked_devices_are_refused(
    before: TenantStore,
    after: TenantStore,
    organization_id: Seq<char>,
    device_id: Seq<char>,
    grant: grants::GrantView,
    workspace_id: Option<Seq<char>>,
    role: TenantRole,
)
    requires
        before.devices@.contains_key(ids::owned_key(organization_id, device_id)),
        after.devices@ == before.devices@.insert(
            ids::owned_key(organization_id, device_id),
            (TenantDeviceRecord {
                revoked: true,
                ..before.devices@[ids::owned_key(organization_id, device_id)]
            }),
        ),
        after.memberships == before.memberships,
        after.workspaces == before.workspaces,
    ensures
        context_refusal(after, grant, organization_id, device_id, workspace_id, role) is Some,
        forall|other: Seq<char>, device: Seq<char>|
            other != organization_id ==> #[trigger] context_refusal(
                after,
                grant,
                other,
                device,
                workspace_id,
                role,
            ) == context_refusal(before, grant, other, device, workspace_id, role),
{
    let key = ids::owned_key(organization_id, device_id);
    assert forall|other: Seq<char>, device: Seq<char>|
        other != organization_id implies #[trigger] context_refusal(
        after,
        grant,
        other,
        device,
        workspace_id,
        role,
    ) == context_refusal(before, grant, other, device, workspace_id, role) by {
        if key == ids::owned_key(other, device) {
            ids::keys_tell_owners_apart(organization_id, device_id, other, device);
        }
    }
}

/// A usage listing holds counts of its organization only.
pub proof fn usage_lists_stay_in_their_organization(
    keys: Seq<Seq<char>>,
    usage: Map<Seq<char>, UsageRecord>,
    organization_id: Seq<char>,
    i: int,
)
    requires
        0 <= i < usage_of(keys, usage, organization_id).len(),
    ensures
        usage_of(keys, usage, organization_id)[i].organization_id@ == organization_id,
    decreases keys.len(),
{
    let before = usage_of(keys.drop_last(), usage, organization_id);
    if i < before.len() {
        usage_lists_stay_in_their_organization(keys.drop_last(), usage, organization_id, i);
    }
}

/// Every count of an organization is listed.
pub proof fn usage_lists_are_complete(
    keys: Seq<Seq<char>>,
    usage: Map<Seq<char>, UsageRecord>,
    organization_id: Seq<char>,
    k: int,
)
    requires
        0 <= k < keys.len(),
        usage[keys[k]].organization_id@ == organization_id,
    ensures
        usage_of(keys, usage, organization_id).contains(usage[keys[k]]),
    decreases keys.len(),
{
    let list = usage_of(keys, usage, organization_id);
    let before = usage_of(keys.drop_last(), usage, organization_id);
    if k < keys.len() - 1 {
        usage_lists_are_complete(keys.drop_last(), usage, organization_id, k);
        let i = choose|i: int| 0 <= i < before.len() && before[i] == usage[keys[k]];
        assert(list[i] == usage[keys[k]]);
    } else {
        assert(list[before.len() as int] == usage[keys[k]]);
    }
}

proof fn lemma_listed_under(
    keys: Seq<Seq<char>>,
    usage: Map<Seq<char>, UsageRecord>,
    organization_id: Seq<char>,
    i: int,
) -> (k: int)
    requires
        0 <= i < usage_of(keys, usage, organization_id).len(),
    ensures
        0 <= k < keys.len(),
        usage_of(keys, usage, organization_id)[i] == usage[keys[k]],
    decreases keys.len(),
{
    if i < usage_of(keys.drop_last(), usage, organization_id).len() {
        lemma_listed_under(keys.drop_last(), usage, organization_id, i)
    } else {
        keys.len() - 1
    }
}

/// No listing holds two counts of the same kind for the same workspace, where each
/// count is kept under its own key.
pub proof fn usage_lists_hold_each_count_once(
    keys: Seq<Seq<char>>,
    usage: Map<Seq<char>, UsageRecord>,
    organization_id: Seq<char>,
)
    requires
        keys.no_duplicates(),
        forall|k: int|
            0 <= k < keys.len() ==> #[trigger] keys[k] == ids::usage_key_of(
                usage[keys[k]].organization_id@,
                usage_workspace(usage[keys[k]]),
                usage[keys[k]].usage_key@,
            ),
    ensures
        forall|i: int, j: int|
            0 <= i < j < usage_of(keys, usage, organization_id).len() ==> usage_workspace(
                #[trigger] usage_of(keys, usage, organization_id)[i],
            ) != usage_workspace(#[trigger] usage_of(keys, usage, organization_id)[j])
                || usage_of(keys, usage, organization_id)[i].usage_key@ != usage_of(
                keys,
                usage,
                organization_id,
            )[j].usage_key@,
    decreases keys.len(),
{
    let list = usage_of(keys, usage, organization_id);
    if keys.len() > 0 {
        let fewer = keys.drop_last();
        let before = usage_of(fewer, usage, organization_id);
        usage_lists_hold_each_count_once(fewer, usage, organization_id);
        assert forall|i: int, j: int| 0 <= i < j < list.len() implies usage_workspace(
            #[trigger] list[i],
        ) != usage_workspace(#[trigger] list[j]) || list[i].usage_key@ != list[j].usage_key@ by {
            assert(list[i] == before[i]);
            if j < before.len() {
                assert(list[j] == before[j]);
            } else {
                let k = lemma_listed_under(fewer, usage, organization_id, i);
                let last = keys.len() - 1;
                usage_lists_stay_in_their_organization(keys, usage, organization_id, i);
                usage_lists_stay_in_their_organization(keys, usage, organization_id, j);
                assert(fewer[k] == keys[k]);
                assert(list[j] == usage[keys[last]]);
                assert(keys[k] != keys[last]);
            }
        }
    }
}

/// An administrator may do what an operator may, who may do what a viewer may, and none of
/// them more.
pub proof fn roles_are_ordered(role: TenantRole, required: TenantRole)
    ensures
        role_rank(role) >= role_rank(required) <==> {
            ||| required is Viewer
            ||| required is Operator && !(role is Viewer)
            ||| required is Admin && role is Admin
        },
{
}

/// A grant is good in a context exactly when the organization, the device and the workspace
/// have names, the grant is the organization's, its actor is a member there who was not
/// removed and whose role is enough, the device was paired there and not removed, and the
/// workspace, where one is named, is there and belongs to the device and to the grant.
/// Names are looked at first; nothing else is told apart.
pub proof fn contexts_are_good_exactly_when_they_hold(
    state: TenantStore,
    grant: grants::GrantView,
    organization_id: Seq<char>,
    device_id: Seq<char>,
    workspace_id: Option<Seq<char>>,
    required: TenantRole,
)
    ensures
        ({
            let named = ids::is_id(organization_id) && ids::is_id(device_id) && (
            workspace_id is None || ids::is_id(workspace_id->0));
            let member_key = ids::owned_key(organization_id, grant.actor_id);
            let member = state.memberships@[member_key];
            let enough = required is Viewer || (required is Operator && !(member.role is Viewer))
                || (required is Admin && member.role is Admin);
            let device_key = ids::owned_key(organization_id, device_id);
            let device = state.devices@[device_key];
            let open = workspace_id is None || (state.workspaces@.contains_key(
                ids::owned_key(organization_id, workspace_id->0),
            ) && device.workspace_ids@.contains(workspace_id->0) && grant.workspace_ids.contains(
                workspace_id->0,
            ));
            let good = grant.organization_id == organization_id
                && state.memberships@.contains_key(member_key) && !member.revoked && enough
                && state.devices@.contains_key(device_key) && !device.revoked && open;
            let r = context_refusal(
                state,
                grant,
                organization_id,
                device_id,
                workspace_id,
                required,
            );
            &&& r is None <==> named && good
            &&& !named ==> r == Some(grants::Refusal::InvalidTenant)
            &&& named && !good ==> r == Some(grants::Refusal::Unauthorized)
        }),
{
}

/// Stored records are sound exactly when what they name has names and they are kept under
/// the key of what they name.
pub proof fn records_are_sound_exactly_when_named(
    key: Seq<char>,
    organization: OrganizationRecord,
    user: UserRecord,
    member: MembershipRecord,
    workspace: WorkspaceRecord,
    device: TenantDeviceRecord,
    usage: UsageRecord,
)
    ensures
        organization.defect(key) is None <==> ids::is_id(organization.organization_id@) && key
            == organization.organization_id@,
        user.defect(key) is None <==> ids::is_id(user.user_id@) && key == user.user_id@,
        member.defect(key) is None <==> ids::is_id(member.organization_id@) && ids::is_id(
            member.user_id@,
        ) && key == ids::owned_key(member.organization_id@, member.user_id@),
        workspace.defect(key) is None <==> ids::is_id(workspace.organization_id@) && ids::is_id(
            workspace.workspace_id@,
        ) && key == ids::owned_key(workspace.organization_id@, workspace.workspace_id@),
        device.defect(key) is None <==> ids::is_id(device.organization_id@) && ids::is_id(
            device.device_id@,
        ) && key == ids::owned_key(device.organization_id@, device.device_id@) && forall|
            t: Seq<char>,
        | #[trigger]
            device.workspace_ids@.contains(t) ==> ids::is_id(t),
        usage.defect(key) is None <==> ids::is_id(usage.organization_id@) && (
        usage.workspace_id is None || ids::is_id(usage.workspace_id->0@)) && ids::is_id(
            usage.usage_key@,
        ) && key == ids::usage_key_of(
            usage.organization_id@,
            (match usage.workspace_id {
                Some(name) => Some(name@),
                None => None,
            }),
            usage.usage_key@,
        ),
{
}

/// A state is sound exactly when each of its records is.
pub proof fn states_are_sound_exactly_when_records_are(state: TenantStore)
    ensures
        sound_state(state) <==> {
            &&& forall|k: Seq<char>| #[trigger]
                state.organizations@.contains_key(k) ==> state.organizations@[k].defect(k) is None
            &&& forall|k: Seq<char>| #[trigger]
                state.users@.contains_key(k) ==> state.users@[k].defect(k) is None
            &&& forall|k: Seq<char>| #[trigger]
                state.memberships@.contains_key(k) ==> state.memberships@[k].defect(k) is None
            &&& forall|k: Seq<char>| #[trigger]
                state.workspaces@.contains_key(k) ==> state.workspaces@[k].defect(k) is None
            &&& forall|k: Seq<char>| #[trigger]
                state.devices@.contains_key(k) ==> state.devices@[k].defect(k) is None
            &&& forall|k: Seq<char>| #[trigger]
                state.usage@.contains_key(k) ==> state.usage@[k].defect(k) is None
        },
{
}

/// What is put under a key changes nothing under another.
pub proof fn putting_changes_one_record<V>(
    before: Map<Seq<char>, V>,
    after: Map<Seq<char>, V>,
    key: Seq<char>,
    other: Seq<char>,
)
    requires
        puts(before, after, key),
        other != key,
    ensures
        after.contains_key(key),
        after.contains_key(other) == before.contains_key(other),
        before.contains_key(other) ==> after[other] == before[other],
{
}

/// What an organization used is listed in the order of the keys.
pub proof fn usage_is_listed_in_order(
    keys: Seq<Seq<char>>,
    usage: Map<Seq<char>, UsageRecord>,
    organization_id: Seq<char>,
)
    ensures
        usage_of(keys, usage, organization_id) == keys.filter(
            |key: Seq<char>| usage[key].organization_id@ == organization_id,
        ).map_values(|key: Seq<char>| usage[key]),
    decreases keys.len(),
{
    reveal(Seq::filter);
    let own = |key: Seq<char>| usage[key].organization_id@ == organization_id;
    let record = |key: Seq<char>| usage[key];
    if keys.len() > 0 {
        usage_is_listed_in_order(keys.drop_last(), usage, organization_id);
        let fewer = keys.drop_last().filter(own);
        if own(keys.last()) {
            assert(fewer.push(keys.last()).map_values(record) =~= fewer.map_values(record).push(
                usage[keys.last()],
            ));
        }
    } else {
        assert(keys.filter(own).map_values(record) =~= Seq::empty());
    }
}

/// The defect that is told of stored records is that of the first that has one.
pub proof fn first_defects_are_told<V: StoredRecord>(
    m: Map<Seq<char>, V>,
    refusal: grants::Refusal,
    other: Seq<char>,
)
    requires
        first_defect(m, refusal),
        m.contains_key(other),
    ensures
        !sound(m),
        exists|k: Seq<char>| #[trigger]
            m.contains_key(k) && m[k].defect(k) == Some(refusal) && (m[other].defect(other) is Some
                ==> k == other || table::text_before(k, other)),
{
    let k = choose|k: Seq<char>|
        {
            &&& #[trigger] m.contains_key(k)
            &&& m[k].defect(k) == Some(refusal)
            &&& forall|o: Seq<char>| #[trigger]
                m.contains_key(o) && m[o].defect(o) is Some ==> o == k || table::text_before(k, o)
        };
    assert(m.contains_key(k));
}

/// A state of another version is refused as such; otherwise the tables are looked at in this
/// order, and the first that is not sound tells why.
pub proof fn states_are_refused_by_their_first_table(
    version: u32,
    state: TenantStore,
    refusal: grants::Refusal,
)
    requires
        state_refused(version, state, refusal),
    ensures
        version != 1 ==> refusal == grants::Refusal::InvalidState,
        version == 1 && !sound(state.organizations@) ==> first_defect(
            state.organizations@,
            refusal,
        ),
        version == 1 && sound(state.organizations@) && !sound(state.users@) ==> first_defect(
            state.users@,
            refusal,
        ),
        version == 1 && sound(state.organizations@) && sound(state.users@) && !sound(
            state.memberships@,
        ) ==> first_defect(state.memberships@, refusal),
        version == 1 && sound(state.organizations@) && sound(state.users@) && sound(
            state.memberships@,
        ) && !sound(state.workspaces@) ==> first_defect(state.workspaces@, refusal),
        version == 1 && sound(state.organizations@) && sound(state.users@) && sound(
            state.memberships@,
        ) && sound(state.workspaces@) && !sound(state.devices@) ==> first_defect(
            state.devices@,
            refusal,
        ),
        version == 1 && sound(state.organizations@) && sound(state.users@) && sound(
            state.memberships@,
        ) && sound(state.workspaces@) && sound(state.devices@) ==> first_defect(
            state.usage@,
            refusal,
        ),
{
}

/// Workspaces are known exactly when each is one of the organization.
pub proof fn workspaces_are_known_to_their_organization(
    state: TenantStore,
    organization_id: Seq<char>,
    workspace_ids: Set<Seq<char>>,
)
    ensures
        workspaces_known(state, organization_id, workspace_ids) <==> forall|w: Seq<char>|
            #[trigger] workspace_ids.contains(w) ==> state.workspaces@.contains_key(
                ids::owned_key(organization_id, w),
            ),
{
}

} // verus!
