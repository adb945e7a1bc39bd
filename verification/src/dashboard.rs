//! What the web dashboard is shown of one organization.
//!
//! Every observable value is tagged: `live` with the time it was observed,
//! `unknown` with a reason, or `simulated`. Identifiers are structural keys and
//! carry no tag of their own; they follow the mode of the snapshot, and their
//! content is not inspected. A snapshot is either live-or-unknown or
//! simulated-or-unknown.

use vstd::prelude::*;

use crate::ids;
use crate::table;
use crate::tenants;
use crate::tenants::{
    OrganizationRecord, SubscriptionRecord, TenantDeviceRecord, TenantRole, UsageRecord,
};
use crate::text;

verus! {

pub const SNAPSHOT_SCHEMA_VERSION: u32 = 1;

#[derive(Debug, Clone, Copy, PartialEq, Eq, Structural)]
pub enum SnapshotMode {
    Live,
    Simulated,
}

#[derive(Debug, Clone, Copy, PartialEq, Eq, Structural)]
pub enum Provenance {
    Live,
    Unknown,
    Simulated,
}

#[derive(Debug, Clone, Copy, PartialEq, Eq, Structural)]
pub enum UnknownReason {
    /// The device or backend does not report this value yet.
    NotReported,
    /// The backend feature that would produce this value does not exist yet.
    NotImplemented,
    /// The source exists but could not be read for this snapshot.
    Unavailable,
}

/// An observable value together with its provenance.
#[derive(Debug, Clone, PartialEq, Eq)]
pub enum Observed<T> {
    Live { value: T, observed_at_unix_ms: u64 },
    Unknown { reason: UnknownReason },
    Simulated { value: T },
}

#[derive(Debug, Clone, Copy, PartialEq, Eq, Structural)]
pub enum ViewerRole {
    Viewer,
    Operator,
    Admin,
}

#[derive(Debug, Clone, Copy, PartialEq, Eq, Structural)]
pub enum DeviceStatus {
    /// Holds an authenticated transport link to this gateway right now.
    Connected,
    /// Paired and not revoked, but no transport link to this gateway right now.
    NotConnected,
    /// Revoked in the tenant store. Takes precedence over any transport state.
    Revoked,
}

#[derive(Debug, Clone, PartialEq, Eq)]
pub struct DashboardSnapshot {
    pub schema_version: u32,
    pub mode: SnapshotMode,
    pub generated_at_unix_ms: u64,
    pub organization: OrganizationView,
    pub summary: SummaryView,
    pub devices: Vec<DeviceView>,
    pub subscription: Observed<SubscriptionView>,
    pub usage: Observed<Vec<UsageEntry>>,
}

#[derive(Debug, Clone, PartialEq, Eq)]
pub struct OrganizationView {
    pub organization_id: String,
    pub name: Observed<String>,
    pub viewer_role: Observed<ViewerRole>,
}

/// Counts of the devices in the same snapshot.
#[derive(Debug, Clone, PartialEq, Eq)]
pub struct SummaryView {
    pub total_devices: Observed<u32>,
    pub connected_devices: Observed<u32>,
    pub revoked_devices: Observed<u32>,
}

#[derive(Debug, Clone, PartialEq, Eq)]
pub struct DeviceView {
    pub device_id: String,
    pub workspace_ids: Vec<String>,
    pub status: Observed<DeviceStatus>,
    pub display_name: Observed<String>,
    pub os: Observed<String>,
    pub agent_version: Observed<String>,
    pub capabilities: Observed<Vec<String>>,
    pub last_seen_unix_ms: Observed<u64>,
}

/// Commercial state for display only.
#[derive(Debug, Clone, PartialEq, Eq)]
pub struct SubscriptionView {
    pub plan: String,
    pub active: bool,
}

#[derive(Debug, Clone, PartialEq, Eq)]
pub struct UsageEntry {
    pub workspace_id: Option<String>,
    pub usage_key: String,
    pub units: u64,
}

/// A device of an organization: the same device id may exist in several.
#[derive(Debug, Clone, PartialEq, Eq, PartialOrd, Ord, Hash)]
pub struct DeviceKey {
    pub organization_id: String,
    pub device_id: String,
}

#[derive(Debug, PartialEq, Eq)]
pub enum ContractError {
    UnsupportedVersion(u32),
    MissingOrganization,
    BlankDeviceId,
    BlankWorkspaceId(String),
    DuplicateDevice,
    DuplicateWorkspace(String),
    BlankUsageKey,
    DuplicateUsage,
    BlankPlan,
    MixedProvenance { mode: SnapshotMode, provenance: Provenance, field: String },
    ObservedInFuture(String),
    InconsistentCount(&'static str),
    CrossTenantRecord,
    TooManyDevices,
    InvalidJson,
}

/// A tagged field of a snapshot.
#[derive(Debug, Clone, PartialEq, Eq)]
pub struct VisitedField {
    pub path: String,
    pub provenance: Provenance,
    pub observed_at_unix_ms: Option<u64>,
}

// ---------------------------------------------------------------------------
// Models

#[verifier::ext_equal]
pub enum ContractRefusal {
    UnsupportedVersion(u32),
    MissingOrganization,
    BlankDeviceId,
    BlankWorkspaceId(Seq<char>),
    DuplicateDevice,
    DuplicateWorkspace(Seq<char>),
    BlankUsageKey,
    DuplicateUsage,
    BlankPlan,
    MixedProvenance(SnapshotMode, Provenance, Seq<char>),
    ObservedInFuture(Seq<char>),
    InconsistentCount(Seq<char>),
    CrossTenantRecord,
    TooManyDevices,
    InvalidJson,
}

impl View for ContractError {
    type V = ContractRefusal;

    open spec fn view(&self) -> ContractRefusal {
        match self {
            ContractError::UnsupportedVersion(v) => ContractRefusal::UnsupportedVersion(*v),
            ContractError::MissingOrganization => ContractRefusal::MissingOrganization,
            ContractError::BlankDeviceId => ContractRefusal::BlankDeviceId,
            ContractError::BlankWorkspaceId(field) => ContractRefusal::BlankWorkspaceId(field@),
            ContractError::DuplicateDevice => ContractRefusal::DuplicateDevice,
            ContractError::DuplicateWorkspace(field) => ContractRefusal::DuplicateWorkspace(field@),
            ContractError::BlankUsageKey => ContractRefusal::BlankUsageKey,
            ContractError::DuplicateUsage => ContractRefusal::DuplicateUsage,
            ContractError::BlankPlan => ContractRefusal::BlankPlan,
            ContractError::MixedProvenance { mode, provenance, field } => {
                ContractRefusal::MixedProvenance(*mode, *provenance, field@)
            },
            ContractError::ObservedInFuture(field) => ContractRefusal::ObservedInFuture(field@),
            ContractError::InconsistentCount(name) => ContractRefusal::InconsistentCount(name@),
            ContractError::CrossTenantRecord => ContractRefusal::CrossTenantRecord,
            ContractError::TooManyDevices => ContractRefusal::TooManyDevices,
            ContractError::InvalidJson => ContractRefusal::InvalidJson,
        }
    }
}

#[verifier::ext_equal]
pub struct FieldModel {
    pub path: Seq<char>,
    pub provenance: Provenance,
    pub observed_at: Option<u64>,
}

impl View for VisitedField {
    type V = FieldModel;

    open spec fn view(&self) -> FieldModel {
        FieldModel {
            path: self.path@,
            provenance: self.provenance,
            observed_at: self.observed_at_unix_ms,
        }
    }
}

#[verifier::ext_equal]
pub struct DeviceModel {
    pub device_id: Seq<char>,
    pub workspace_ids: Seq<Seq<char>>,
    pub status: Observed<DeviceStatus>,
    pub display_name: Observed<Seq<char>>,
    pub os: Observed<Seq<char>>,
    pub agent_version: Observed<Seq<char>>,
    pub capabilities: Observed<Seq<Seq<char>>>,
    pub last_seen_unix_ms: Observed<u64>,
}

#[verifier::ext_equal]
pub struct PlanModel {
    pub plan: Seq<char>,
    pub active: bool,
}

#[verifier::ext_equal]
pub struct UsageModel {
    pub workspace_id: Option<Seq<char>>,
    pub usage_key: Seq<char>,
    pub units: u64,
}

#[verifier::ext_equal]
pub struct SnapshotModel {
    pub schema_version: u32,
    pub mode: SnapshotMode,
    pub generated_at_unix_ms: u64,
    pub organization_id: Seq<char>,
    pub name: Observed<Seq<char>>,
    pub viewer_role: Observed<ViewerRole>,
    pub total_devices: Observed<u32>,
    pub connected_devices: Observed<u32>,
    pub revoked_devices: Observed<u32>,
    pub devices: Seq<DeviceModel>,
    pub subscription: Observed<PlanModel>,
    pub usage: Observed<Seq<UsageModel>>,
}

/// An observed value with the value replaced.
pub open spec fn observed_map<T, U>(o: Observed<T>, f: spec_fn(T) -> U) -> Observed<U> {
    match o {
        Observed::Live { value, observed_at_unix_ms } => Observed::Live {
            value: f(value),
            observed_at_unix_ms,
        },
        Observed::Unknown { reason } => Observed::Unknown { reason },
        Observed::Simulated { value } => Observed::Simulated { value: f(value) },
    }
}

pub open spec fn observed_text(o: Observed<String>) -> Observed<Seq<char>> {
    observed_map(o, |s: String| s@)
}

impl View for DeviceView {
    type V = DeviceModel;

    open spec fn view(&self) -> DeviceModel {
        DeviceModel {
            device_id: self.device_id@,
            workspace_ids: text::texts(self.workspace_ids@),
            status: self.status,
            display_name: observed_text(self.display_name),
            os: observed_text(self.os),
            agent_version: observed_text(self.agent_version),
            capabilities: observed_map(self.capabilities, |v: Vec<String>| text::texts(v@)),
            last_seen_unix_ms: self.last_seen_unix_ms,
        }
    }
}

impl View for UsageEntry {
    type V = UsageModel;

    open spec fn view(&self) -> UsageModel {
        UsageModel {
            workspace_id: match self.workspace_id {
                Some(name) => Some(name@),
                None => None,
            },
            usage_key: self.usage_key@,
            units: self.units,
        }
    }
}

impl View for SubscriptionView {
    type V = PlanModel;

    open spec fn view(&self) -> PlanModel {
        PlanModel { plan: self.plan@, active: self.active }
    }
}

pub open spec fn device_models(devices: Seq<DeviceView>) -> Seq<DeviceModel> {
    devices.map_values(|d: DeviceView| d@)
}

pub open spec fn usage_models(entries: Seq<UsageEntry>) -> Seq<UsageModel> {
    entries.map_values(|e: UsageEntry| e@)
}

pub open spec fn field_models(fields: Seq<VisitedField>) -> Seq<FieldModel> {
    fields.map_values(|f: VisitedField| f@)
}

impl View for DashboardSnapshot {
    type V = SnapshotModel;

    open spec fn view(&self) -> SnapshotModel {
        SnapshotModel {
            schema_version: self.schema_version,
            mode: self.mode,
            generated_at_unix_ms: self.generated_at_unix_ms,
            organization_id: self.organization.organization_id@,
            name: observed_text(self.organization.name),
            viewer_role: self.organization.viewer_role,
            total_devices: self.summary.total_devices,
            connected_devices: self.summary.connected_devices,
            revoked_devices: self.summary.revoked_devices,
            devices: device_models(self.devices@),
            subscription: observed_map(self.subscription, |s: SubscriptionView| s@),
            usage: observed_map(self.usage, |v: Vec<UsageEntry>| usage_models(v@)),
        }
    }
}

// ---------------------------------------------------------------------------
// Observed values

pub open spec fn provenance_of<T>(o: Observed<T>) -> Provenance {
    match o {
        Observed::Live { .. } => Provenance::Live,
        Observed::Unknown { .. } => Provenance::Unknown,
        Observed::Simulated { .. } => Provenance::Simulated,
    }
}

pub open spec fn known_value<T>(o: Observed<T>) -> Option<T> {
    match o {
        Observed::Live { value, .. } => Some(value),
        Observed::Simulated { value } => Some(value),
        Observed::Unknown { .. } => None,
    }
}

pub open spec fn observation_time<T>(o: Observed<T>) -> Option<u64> {
    match o {
        Observed::Live { observed_at_unix_ms, .. } => Some(observed_at_unix_ms),
        _ => None,
    }
}

impl<T> Observed<T> {
    pub fn live(value: T, observed_at_unix_ms: u64) -> (o: Observed<T>)
        ensures
            o == (Observed::Live { value, observed_at_unix_ms }),
    {
        Observed::Live { value, observed_at_unix_ms }
    }

    pub fn unknown(reason: UnknownReason) -> (o: Observed<T>)
        ensures
            o == (Observed::<T>::Unknown { reason }),
    {
        Observed::Unknown { reason }
    }

    pub fn simulated(value: T) -> (o: Observed<T>)
        ensures
            o == (Observed::Simulated { value }),
    {
        Observed::Simulated { value }
    }

    pub fn provenance(&self) -> (p: Provenance)
        ensures
            p == provenance_of(*self),
    {
        match self {
            Observed::Live { .. } => Provenance::Live,
            Observed::Unknown { .. } => Provenance::Unknown,
            Observed::Simulated { .. } => Provenance::Simulated,
        }
    }

    /// The value when it is known (`live` or `simulated`).
    pub fn known(&self) -> (value: Option<&T>)
        ensures
            value is Some == known_value(*self) is Some,
            value is Some ==> *value->0 == known_value(*self)->0,
    {
        match self {
            Observed::Live { value, .. } => Some(value),
            Observed::Simulated { value } => Some(value),
            Observed::Unknown { .. } => None,
        }
    }

    fn observed_at(&self) -> (at: Option<u64>)
        ensures
            at == observation_time(*self),
    {
        match self {
            Observed::Live { observed_at_unix_ms, .. } => Some(*observed_at_unix_ms),
            _ => None,
        }
    }
}

pub open spec fn viewer_role(role: TenantRole) -> ViewerRole {
    match role {
        TenantRole::Viewer => ViewerRole::Viewer,
        TenantRole::Operator => ViewerRole::Operator,
        TenantRole::Admin => ViewerRole::Admin,
    }
}

impl From<TenantRole> for ViewerRole {
    fn from(role: TenantRole) -> (r: ViewerRole) {
        match role {
            TenantRole::Viewer => ViewerRole::Viewer,
            TenantRole::Operator => ViewerRole::Operator,
            TenantRole::Admin => ViewerRole::Admin,
        }
    }
}

impl vstd::std_specs::convert::FromSpecImpl<TenantRole> for ViewerRole {
    open spec fn obeys_from_spec() -> bool {
        true
    }

    open spec fn from_spec(role: TenantRole) -> ViewerRole {
        viewer_role(role)
    }
}

impl DeviceKey {
    pub fn new(organization_id: String, device_id: String) -> (key: DeviceKey)
        ensures
            key.organization_id == organization_id,
            key.device_id == device_id,
    {
        DeviceKey { organization_id, device_id }
    }
}

// ---------------------------------------------------------------------------
// Tagged fields

pub open spec fn field_at<T>(path: Seq<char>, o: Observed<T>) -> FieldModel {
    FieldModel { path, provenance: provenance_of(o), observed_at: observation_time(o) }
}

/// `devices[i]`
pub open spec fn device_path(i: int) -> Seq<char> {
    "devices["@ + text::decimal_text(i as nat) + "]"@
}

pub open spec fn device_fields(i: int, d: DeviceModel) -> Seq<FieldModel> {
    seq![
        field_at(device_path(i) + ".status"@, d.status),
        field_at(device_path(i) + ".display_name"@, d.display_name),
        field_at(device_path(i) + ".os"@, d.os),
        field_at(device_path(i) + ".agent_version"@, d.agent_version),
        field_at(device_path(i) + ".capabilities"@, d.capabilities),
        field_at(device_path(i) + ".last_seen_unix_ms"@, d.last_seen_unix_ms),
    ]
}

pub open spec fn all_device_fields(devices: Seq<DeviceModel>) -> Seq<FieldModel>
    decreases devices.len(),
{
    if devices.len() == 0 {
        Seq::empty()
    } else {
        all_device_fields(devices.drop_last()) + device_fields(devices.len() - 1, devices.last())
    }
}

/// Every tagged field of a snapshot, in order.
pub open spec fn tagged_fields(s: SnapshotModel) -> Seq<FieldModel> {
    seq![
        field_at("organization.name"@, s.name),
        field_at("organization.viewer_role"@, s.viewer_role),
        field_at("summary.total_devices"@, s.total_devices),
        field_at("summary.connected_devices"@, s.connected_devices),
        field_at("summary.revoked_devices"@, s.revoked_devices),
    ] + all_device_fields(s.devices) + seq![
        field_at("subscription"@, s.subscription),
        field_at("usage"@, s.usage),
    ]
}

/// A field that breaks the promise of the snapshot's mode or time, if it does.
pub open spec fn field_error(mode: SnapshotMode, generated_at: u64, f: FieldModel) -> Option<
    ContractRefusal,
> {
    if f.provenance == forbidden_in(mode) {
        Some(ContractRefusal::MixedProvenance(mode, f.provenance, f.path))
    } else if f.observed_at is Some && f.observed_at->0 > generated_at {
        Some(ContractRefusal::ObservedInFuture(f.path))
    } else {
        None
    }
}

/// What a snapshot of a mode may not hold.
pub open spec fn forbidden_in(mode: SnapshotMode) -> Provenance {
    match mode {
        SnapshotMode::Live => Provenance::Simulated,
        SnapshotMode::Simulated => Provenance::Live,
    }
}

/// The error of the first field that has one.
pub open spec fn fields_error(mode: SnapshotMode, generated_at: u64, fields: Seq<FieldModel>) -> Option<
    ContractRefusal,
>
    decreases fields.len(),
{
    if fields.len() == 0 {
        None
    } else if fields_error(mode, generated_at, fields.drop_last()) is Some {
        fields_error(mode, generated_at, fields.drop_last())
    } else {
        field_error(mode, generated_at, fields.last())
    }
}

fn push_field<T>(fields: &mut Vec<VisitedField>, prefix: &[char], name: &str, value: &Observed<T>)
    ensures
        field_models(final(fields)@) == field_models(old(fields)@).push(
            field_at(prefix@ + name@, *value),
        ),
{
    let ghost before = fields@;
    let mut path: Vec<char> = Vec::new();
    text::push_all(&mut path, prefix);
    text::push_text(&mut path, name);
    proof {
        assert(path@ =~= prefix@ + name@);
    }
    fields.push(
        VisitedField {
            path: text::string_of(path.as_slice()),
            provenance: value.provenance(),
            observed_at_unix_ms: value.observed_at(),
        },
    );
    proof {
        assert(field_models(fields@) =~= field_models(before).push(
            field_at(prefix@ + name@, *value),
        ));
    }
}

fn device_prefix(i: usize) -> (prefix: Vec<char>)
    ensures
        prefix@ == device_path(i as int),
{
    let mut prefix: Vec<char> = text::chars_of("devices[");
    let digits = text::decimal(i as u64);
    text::push_all(&mut prefix, digits.as_slice());
    text::push_text(&mut prefix, "]");
    prefix
}

/// The tag of a mapped value is that of the value.
proof fn lemma_mapped_tag<T, U>(o: Observed<T>, f: spec_fn(T) -> U, path: Seq<char>)
    ensures
        field_at(path, observed_map(o, f)) == field_at(path, o),
{
}

// ---------------------------------------------------------------------------
// Identifiers

/// The first thing wrong with the workspaces of device `i`, if anything.
pub open spec fn workspaces_error(workspace_ids: Seq<Seq<char>>, i: int) -> Option<ContractRefusal>
    decreases workspace_ids.len(),
{
    if workspace_ids.len() == 0 {
        None
    } else if workspaces_error(workspace_ids.drop_last(), i) is Some {
        workspaces_error(workspace_ids.drop_last(), i)
    } else if text::is_blank(workspace_ids.last()) {
        Some(ContractRefusal::BlankWorkspaceId(device_path(i) + ".workspace_ids"@))
    } else if workspace_ids.drop_last().contains(workspace_ids.last()) {
        Some(ContractRefusal::DuplicateWorkspace(device_path(i) + ".workspace_ids"@))
    } else {
        None
    }
}

/// The device id occurs in the list.
pub open spec fn device_listed(devices: Seq<DeviceModel>, device_id: Seq<char>) -> bool {
    exists|j: int| 0 <= j < devices.len() && (#[trigger] devices[j]).device_id == device_id
}

/// The first thing wrong with the identifiers of the devices, if anything.
pub open spec fn devices_error(devices: Seq<DeviceModel>) -> Option<ContractRefusal>
    decreases devices.len(),
{
    if devices.len() == 0 {
        None
    } else if devices_error(devices.drop_last()) is Some {
        devices_error(devices.drop_last())
    } else if text::is_blank(devices.last().device_id) {
        Some(ContractRefusal::BlankDeviceId)
    } else if device_listed(devices.drop_last(), devices.last().device_id) {
        Some(ContractRefusal::DuplicateDevice)
    } else {
        workspaces_error(devices.last().workspace_ids, devices.len() - 1)
    }
}

/// The list holds an entry for the workspace and the key.
pub open spec fn usage_listed(
    entries: Seq<UsageModel>,
    workspace_id: Option<Seq<char>>,
    usage_key: Seq<char>,
) -> bool {
    exists|j: int|
        0 <= j < entries.len() && (#[trigger] entries[j]).workspace_id == workspace_id
            && entries[j].usage_key == usage_key
}

/// The first thing wrong with the usage entries, if anything.
pub open spec fn usage_error(entries: Seq<UsageModel>) -> Option<ContractRefusal>
    decreases entries.len(),
{
    if entries.len() == 0 {
        None
    } else if usage_error(entries.drop_last()) is Some {
        usage_error(entries.drop_last())
    } else if text::is_blank(entries.last().usage_key) {
        Some(ContractRefusal::BlankUsageKey)
    } else if entries.last().workspace_id is Some && text::is_blank(
        entries.last().workspace_id->0,
    ) {
        Some(ContractRefusal::BlankWorkspaceId("usage"@))
    } else if usage_listed(
        entries.drop_last(),
        entries.last().workspace_id,
        entries.last().usage_key,
    ) {
        Some(ContractRefusal::DuplicateUsage)
    } else {
        None
    }
}

pub open spec fn identifiers_error(s: SnapshotModel) -> Option<ContractRefusal> {
    if devices_error(s.devices) is Some {
        devices_error(s.devices)
    } else if known_value(s.usage) is Some && usage_error(known_value(s.usage)->0) is Some {
        usage_error(known_value(s.usage)->0)
    } else if known_value(s.subscription) is Some && text::is_blank(
        known_value(s.subscription)->0.plan,
    ) {
        Some(ContractRefusal::BlankPlan)
    } else {
        None
    }
}

// ---------------------------------------------------------------------------
// Counts

/// How many devices are known to have a status.
pub open spec fn count_status(devices: Seq<DeviceModel>, status: DeviceStatus) -> nat
    decreases devices.len(),
{
    if devices.len() == 0 {
        0
    } else {
        count_status(devices.drop_last(), status) + if known_value(devices.last().status) == Some(
            status,
        ) {
            1nat
        } else {
            0
        }
    }
}

/// How many devices have no known status.
pub open spec fn count_unknown(devices: Seq<DeviceModel>) -> nat
    decreases devices.len(),
{
    if devices.len() == 0 {
        0
    } else {
        count_unknown(devices.drop_last()) + if known_value(devices.last().status) is None {
            1nat
        } else {
            0
        }
    }
}

/// A known count fits the device list: it lies between the devices known to
/// have the status and those that may have it.
pub open spec fn count_fits(count: Observed<u32>, devices: Seq<DeviceModel>, status: DeviceStatus) -> bool {
    known_value(count) matches Some(n) ==> count_status(devices, status) <= n <= count_status(
        devices,
        status,
    ) + count_unknown(devices)
}

pub open spec fn summary_error(s: SnapshotModel) -> Option<ContractRefusal> {
    let listed = s.devices.len();
    if listed > u32::MAX {
        Some(ContractRefusal::TooManyDevices)
    } else if known_value(s.total_devices) is Some && known_value(s.total_devices)->0 != listed {
        Some(ContractRefusal::InconsistentCount("total_devices"@))
    } else if !count_fits(s.connected_devices, s.devices, DeviceStatus::Connected) {
        Some(ContractRefusal::InconsistentCount("connected_devices"@))
    } else if !count_fits(s.revoked_devices, s.devices, DeviceStatus::Revoked) {
        Some(ContractRefusal::InconsistentCount("revoked_devices"@))
    } else if known_value(s.connected_devices) is Some && known_value(s.revoked_devices) is Some
        && known_value(s.connected_devices)->0 + known_value(s.revoked_devices)->0 > listed {
        Some(ContractRefusal::InconsistentCount("connected_devices + revoked_devices"@))
    } else {
        None
    }
}

proof fn lemma_counts_bounded(devices: Seq<DeviceModel>, status: DeviceStatus)
    ensures
        count_status(devices, status) + count_unknown(devices) <= devices.len(),
    decreases devices.len(),
{
    if devices.len() > 0 {
        lemma_counts_bounded(devices.drop_last(), status);
    }
}

// ---------------------------------------------------------------------------
// Validation

/// Why a snapshot may not be shown, if that is so.
pub open spec fn snapshot_error(s: SnapshotModel) -> Option<ContractRefusal> {
    if s.schema_version != SNAPSHOT_SCHEMA_VERSION {
        Some(ContractRefusal::UnsupportedVersion(s.schema_version))
    } else if text::is_blank(s.organization_id) {
        Some(ContractRefusal::MissingOrganization)
    } else if identifiers_error(s) is Some {
        identifiers_error(s)
    } else if fields_error(s.mode, s.generated_at_unix_ms, tagged_fields(s)) is Some {
        fields_error(s.mode, s.generated_at_unix_ms, tagged_fields(s))
    } else {
        summary_error(s)
    }
}

proof fn lemma_fields_prefix(mode: SnapshotMode, at: u64, fields: Seq<FieldModel>, i: int)
    requires
        0 <= i <= fields.len(),
        fields_error(mode, at, fields.take(i)) is Some,
    ensures
        fields_error(mode, at, fields) == fields_error(mode, at, fields.take(i)),
    decreases fields.len() - i,
{
    if i < fields.len() {
        assert(fields.take(i + 1).drop_last() =~= fields.take(i));
        lemma_fields_prefix(mode, at, fields, i + 1);
    } else {
        assert(fields.take(i) =~= fields);
    }
}

proof fn lemma_devices_prefix(devices: Seq<DeviceModel>, i: int)
    requires
        0 <= i <= devices.len(),
        devices_error(devices.take(i)) is Some,
    ensures
        devices_error(devices) == devices_error(devices.take(i)),
    decreases devices.len() - i,
{
    if i < devices.len() {
        assert(devices.take(i + 1).drop_last() =~= devices.take(i));
        lemma_devices_prefix(devices, i + 1);
    } else {
        assert(devices.take(i) =~= devices);
    }
}

proof fn lemma_workspaces_prefix(list: Seq<Seq<char>>, n: int, i: int)
    requires
        0 <= i <= list.len(),
        workspaces_error(list.take(i), n) is Some,
    ensures
        workspaces_error(list, n) == workspaces_error(list.take(i), n),
    decreases list.len() - i,
{
    if i < list.len() {
        assert(list.take(i + 1).drop_last() =~= list.take(i));
        lemma_workspaces_prefix(list, n, i + 1);
    } else {
        assert(list.take(i) =~= list);
    }
}

proof fn lemma_usage_prefix(entries: Seq<UsageModel>, i: int)
    requires
        0 <= i <= entries.len(),
        usage_error(entries.take(i)) is Some,
    ensures
        usage_error(entries) == usage_error(entries.take(i)),
    decreases entries.len() - i,
{
    if i < entries.len() {
        assert(entries.take(i + 1).drop_last() =~= entries.take(i));
        lemma_usage_prefix(entries, i + 1);
    } else {
        assert(entries.take(i) =~= entries);
    }
}

fn check_workspaces(workspace_ids: &Vec<String>, index: usize) -> (r: Result<(), ContractError>)
    ensures
        r is Err == workspaces_error(text::texts(workspace_ids@), index as int) is Some,
        r is Err ==> r->Err_0@ == workspaces_error(text::texts(workspace_ids@), index as int)->0,
{
    let ghost list = text::texts(workspace_ids@);
    let mut field = device_prefix(index);
    text::push_text(&mut field, ".workspace_ids");
    let mut i: usize = 0;
    while i < workspace_ids.len()
        invariant
            i <= workspace_ids@.len(),
            list == text::texts(workspace_ids@),
            field@ == device_path(index as int) + ".workspace_ids"@,
            workspaces_error(list.take(i as int), index as int) is None,
        decreases workspace_ids@.len() - i,
    {
        proof {
            assert(list.take(i + 1).drop_last() =~= list.take(i as int));
            assert(list.take(i + 1).last() == workspace_ids@[i as int]@);
            if workspaces_error(list.take(i + 1), index as int) is Some {
                lemma_workspaces_prefix(list, index as int, i + 1);
            }
        }
        if text::blank(workspace_ids[i].as_str()) {
            return Err(ContractError::BlankWorkspaceId(text::string_of(field.as_slice())));
        }
        let mut j: usize = 0;
        while j < i
            invariant
                j <= i < workspace_ids@.len(),
                list == text::texts(workspace_ids@),
                field@ == device_path(index as int) + ".workspace_ids"@,
                workspaces_error(list.take(i as int), index as int) is None,
                !text::is_blank(workspace_ids@[i as int]@),
                list.take(i + 1).drop_last() == list.take(i as int),
                list.take(i + 1).last() == workspace_ids@[i as int]@,
                workspaces_error(list.take(i + 1), index as int) is Some ==> workspaces_error(
                    list,
                    index as int,
                ) == workspaces_error(list.take(i + 1), index as int),
                forall|k: int|
                    0 <= k < j ==> workspace_ids@[k]@ != workspace_ids@[i as int]@,
            decreases i - j,
        {
            if text::same_text(workspace_ids[j].as_str(), workspace_ids[i].as_str()) {
                proof {
                    assert(list.take(i as int)[j as int] == workspace_ids@[i as int]@);
                    assert(list.take(i as int).contains(workspace_ids@[i as int]@));
                }
                return Err(ContractError::DuplicateWorkspace(text::string_of(field.as_slice())));
            }
            j = j + 1;
        }
        proof {
            assert(!list.take(i as int).contains(workspace_ids@[i as int]@)) by {
                if list.take(i as int).contains(workspace_ids@[i as int]@) {
                    let k = choose|k: int|
                        0 <= k < i && list.take(i as int)[k] == workspace_ids@[i as int]@;
                    assert(workspace_ids@[k]@ == workspace_ids@[i as int]@);
                }
            }
        }
        i = i + 1;
    }
    proof {
        assert(list.take(list.len() as int) =~= list);
    }
    Ok(())
}

/// Is the id that of one of the first `n` devices?
fn listed_before(devices: &Vec<DeviceView>, n: usize, device_id: &str) -> (r: bool)
    requires
        n <= devices@.len(),
    ensures
        r == device_listed(device_models(devices@).take(n as int), device_id@),
{
    let ghost models = device_models(devices@).take(n as int);
    let mut j: usize = 0;
    while j < n
        invariant
            j <= n <= devices@.len(),
            models == device_models(devices@).take(n as int),
            forall|k: int| 0 <= k < j ==> (#[trigger] models[k]).device_id != device_id@,
        decreases n - j,
    {
        assert(models[j as int] == devices@[j as int]@);
        if text::same_text(devices[j].device_id.as_str(), device_id) {
            return true;
        }
        j = j + 1;
    }
    false
}

fn check_devices(devices: &Vec<DeviceView>) -> (r: Result<(), ContractError>)
    ensures
        r is Err == devices_error(device_models(devices@)) is Some,
        r is Err ==> r->Err_0@ == devices_error(device_models(devices@))->0,
{
    let ghost models = device_models(devices@);
    let mut i: usize = 0;
    while i < devices.len()
        invariant
            i <= devices@.len(),
            models == device_models(devices@),
            devices_error(models.take(i as int)) is None,
        decreases devices@.len() - i,
    {
        proof {
            assert(models.take(i + 1).drop_last() =~= models.take(i as int));
            assert(models.take(i + 1).last() == devices@[i as int]@);
            if devices_error(models.take(i + 1)) is Some {
                lemma_devices_prefix(models, i + 1);
            }
        }
        let device = &devices[i];
        if text::blank(device.device_id.as_str()) {
            return Err(ContractError::BlankDeviceId);
        }
        if listed_before(devices, i, device.device_id.as_str()) {
            return Err(ContractError::DuplicateDevice);
        }
        if let Err(error) = check_workspaces(&device.workspace_ids, i) {
            return Err(error);
        }
        i = i + 1;
    }
    proof {
        assert(models.take(models.len() as int) =~= models);
    }
    Ok(())
}

/// Do two entries name the same workspace, or none?
fn same_workspace(a: &UsageEntry, b: &UsageEntry) -> (r: bool)
    ensures
        r == (a@.workspace_id == b@.workspace_id),
{
    match &a.workspace_id {
        None => b.workspace_id.is_none(),
        Some(name) => match &b.workspace_id {
            None => false,
            Some(other) => text::same_text(name.as_str(), other.as_str()),
        },
    }
}

/// Is the key of entry `n` that of an entry before it?
fn usage_before(entries: &Vec<UsageEntry>, n: usize) -> (r: bool)
    requires
        n < entries@.len(),
    ensures
        r == usage_listed(
            usage_models(entries@).take(n as int),
            entries@[n as int]@.workspace_id,
            entries@[n as int]@.usage_key,
        ),
{
    let ghost models = usage_models(entries@).take(n as int);
    let ghost wanted = entries@[n as int]@;
    let mut j: usize = 0;
    while j < n
        invariant
            j <= n < entries@.len(),
            models == usage_models(entries@).take(n as int),
            wanted == entries@[n as int]@,
            forall|k: int|
                0 <= k < j ==> !((#[trigger] models[k]).workspace_id == wanted.workspace_id
                    && models[k].usage_key == wanted.usage_key),
        decreases n - j,
    {
        assert(models[j as int] == entries@[j as int]@);
        if same_workspace(&entries[j], &entries[n]) && text::same_text(
            entries[j].usage_key.as_str(),
            entries[n].usage_key.as_str(),
        ) {
            return true;
        }
        j = j + 1;
    }
    false
}

fn check_usage(entries: &Vec<UsageEntry>) -> (r: Result<(), ContractError>)
    ensures
        r is Err == usage_error(usage_models(entries@)) is Some,
        r is Err ==> r->Err_0@ == usage_error(usage_models(entries@))->0,
{
    let ghost models = usage_models(entries@);
    let mut i: usize = 0;
    while i < entries.len()
        invariant
            i <= entries@.len(),
            models == usage_models(entries@),
            usage_error(models.take(i as int)) is None,
        decreases entries@.len() - i,
    {
        proof {
            assert(models.take(i + 1).drop_last() =~= models.take(i as int));
            assert(models.take(i + 1).last() == entries@[i as int]@);
            if usage_error(models.take(i + 1)) is Some {
                lemma_usage_prefix(models, i + 1);
            }
        }
        if text::blank(entries[i].usage_key.as_str()) {
            return Err(ContractError::BlankUsageKey);
        }
        if let Some(workspace) = &entries[i].workspace_id {
            if text::blank(workspace.as_str()) {
                return Err(ContractError::BlankWorkspaceId(text::copied("usage")));
            }
        }
        if usage_before(entries, i) {
            return Err(ContractError::DuplicateUsage);
        }
        i = i + 1;
    }
    proof {
        assert(models.take(models.len() as int) =~= models);
    }
    Ok(())
}

/// How many devices have the status, and how many have none that is known.
fn count_devices(devices: &Vec<DeviceView>, status: DeviceStatus) -> (counts: (u64, u64))
    ensures
        counts.0 == count_status(device_models(devices@), status),
        counts.1 == count_unknown(device_models(devices@)),
        counts.0 + counts.1 <= devices@.len(),
{
    let ghost models = device_models(devices@);
    let mut matching: u64 = 0;
    let mut unknown: u64 = 0;
    let mut i: usize = 0;
    while i < devices.len()
        invariant
            i <= devices@.len(),
            models == device_models(devices@),
            matching == count_status(models.take(i as int), status),
            unknown == count_unknown(models.take(i as int)),
            matching + unknown <= i,
        decreases devices@.len() - i,
    {
        proof {
            assert(models.take(i + 1).drop_last() =~= models.take(i as int));
            assert(models.take(i + 1).last() == devices@[i as int]@);
        }
        match devices[i].status.known() {
            None => {
                unknown = unknown + 1;
            },
            Some(known) => {
                if *known == status {
                    matching = matching + 1;
                }
            },
        }
        i = i + 1;
    }
    proof {
        assert(models.take(models.len() as int) =~= models);
    }
    (matching, unknown)
}

fn check_count(count: &Observed<u32>, devices: &Vec<DeviceView>, status: DeviceStatus) -> (r: bool)
    ensures
        r == count_fits(*count, device_models(devices@), status),
{
    match count.known() {
        None => true,
        Some(n) => {
            let (matching, unknown) = count_devices(devices, status);
            let n: u64 = *n as u64;
            matching <= n && n - matching <= unknown
        },
    }
}

impl DashboardSnapshot {
    pub fn validate(&self) -> (r: Result<(), ContractError>)
        ensures
            r is Err == snapshot_error(self@) is Some,
            r is Err ==> r->Err_0@ == snapshot_error(self@)->0,
    {
        if self.schema_version != SNAPSHOT_SCHEMA_VERSION {
            return Err(ContractError::UnsupportedVersion(self.schema_version));
        }
        if text::blank(self.organization.organization_id.as_str()) {
            return Err(ContractError::MissingOrganization);
        }
        if let Err(error) = self.validate_identifiers() {
            return Err(error);
        }
        if let Err(error) = self.validate_provenance() {
            return Err(error);
        }
        self.validate_summary()
    }

    fn validate_identifiers(&self) -> (r: Result<(), ContractError>)
        ensures
            r is Err == identifiers_error(self@) is Some,
            r is Err ==> r->Err_0@ == identifiers_error(self@)->0,
    {
        if let Err(error) = check_devices(&self.devices) {
            return Err(error);
        }
        if let Some(entries) = self.usage.known() {
            if let Err(error) = check_usage(entries) {
                return Err(error);
            }
        }
        if let Some(subscription) = self.subscription.known() {
            if text::blank(subscription.plan.as_str()) {
                return Err(ContractError::BlankPlan);
            }
        }
        Ok(())
    }

    fn validate_provenance(&self) -> (r: Result<(), ContractError>)
        ensures
            r is Err == fields_error(
                self.mode,
                self.generated_at_unix_ms,
                tagged_fields(self@),
            ) is Some,
            r is Err ==> r->Err_0@ == fields_error(
                self.mode,
                self.generated_at_unix_ms,
                tagged_fields(self@),
            )->0,
    {
        let forbidden = match self.mode {
            SnapshotMode::Live => Provenance::Simulated,
            SnapshotMode::Simulated => Provenance::Live,
        };
        let fields = self.visit_fields();
        let ghost models = field_models(fields@);
        let mut i: usize = 0;
        while i < fields.len()
            invariant
                i <= fields@.len(),
                models == field_models(fields@),
                models == tagged_fields(self@),
                forbidden == forbidden_in(self.mode),
                fields_error(self.mode, self.generated_at_unix_ms, models.take(i as int)) is None,
            decreases fields@.len() - i,
        {
            proof {
                assert(models.take(i + 1).drop_last() =~= models.take(i as int));
                assert(models.take(i + 1).last() == fields@[i as int]@);
                if fields_error(self.mode, self.generated_at_unix_ms, models.take(i + 1)) is Some {
                    lemma_fields_prefix(self.mode, self.generated_at_unix_ms, models, i + 1);
                }
            }
            let field = &fields[i];
            if field.provenance == forbidden {
                return Err(
                    ContractError::MixedProvenance {
                        mode: self.mode,
                        provenance: field.provenance,
                        field: field.path.clone(),
                    },
                );
            }
            if let Some(at) = field.observed_at_unix_ms {
                if at > self.generated_at_unix_ms {
                    return Err(ContractError::ObservedInFuture(field.path.clone()));
                }
            }
            i = i + 1;
        }
        proof {
            assert(models.take(models.len() as int) =~= models);
        }
        Ok(())
    }

    /// Known counts must fit the device list; an unknown count is never
    /// compared.
    fn validate_summary(&self) -> (r: Result<(), ContractError>)
        ensures
            r is Err == summary_error(self@) is Some,
            r is Err ==> r->Err_0@ == summary_error(self@)->0,
    {
        if self.devices.len() > u32::MAX as usize {
            return Err(ContractError::TooManyDevices);
        }
        let listed: u32 = self.devices.len() as u32;
        if let Some(total) = self.summary.total_devices.known() {
            if *total != listed {
                return Err(ContractError::InconsistentCount("total_devices"));
            }
        }
        if !check_count(&self.summary.connected_devices, &self.devices, DeviceStatus::Connected) {
            return Err(ContractError::InconsistentCount("connected_devices"));
        }
        if !check_count(&self.summary.revoked_devices, &self.devices, DeviceStatus::Revoked) {
            return Err(ContractError::InconsistentCount("revoked_devices"));
        }
        if let Some(connected) = self.summary.connected_devices.known() {
            if let Some(revoked) = self.summary.revoked_devices.known() {
                if *connected as u64 + *revoked as u64 > listed as u64 {
                    return Err(
                        ContractError::InconsistentCount("connected_devices + revoked_devices"),
                    );
                }
            }
        }
        Ok(())
    }

    /// Every tagged field with a stable path.
    pub fn visit_fields(&self) -> (fields: Vec<VisitedField>)
        ensures
            field_models(fields@) == tagged_fields(self@),
    {
        let mut fields: Vec<VisitedField> = Vec::new();
        let none: Vec<char> = Vec::new();
        let top = none.as_slice();
        proof {
            assert(field_models(fields@) =~= Seq::<FieldModel>::empty());
            assert(forall|t: Seq<char>| top@ + t =~= t);
        }
        push_field(&mut fields, top, "organization.name", &self.organization.name);
        push_field(&mut fields, top, "organization.viewer_role", &self.organization.viewer_role);
        push_field(&mut fields, top, "summary.total_devices", &self.summary.total_devices);
        push_field(&mut fields, top, "summary.connected_devices", &self.summary.connected_devices);
        push_field(&mut fields, top, "summary.revoked_devices", &self.summary.revoked_devices);
        let ghost head = field_models(fields@);
        let ghost models = device_models(self.devices@);
        proof {
            lemma_mapped_tag(
                self.organization.name,
                |s: String| s@,
                "organization.name"@,
            );
            assert(all_device_fields(models.take(0)) =~= Seq::<FieldModel>::empty());
            assert(head + all_device_fields(models.take(0)) =~= head);
            assert(head =~= seq![
                field_at("organization.name"@, self@.name),
                field_at("organization.viewer_role"@, self@.viewer_role),
                field_at("summary.total_devices"@, self@.total_devices),
                field_at("summary.connected_devices"@, self@.connected_devices),
                field_at("summary.revoked_devices"@, self@.revoked_devices),
            ]);
        }
        let mut i: usize = 0;
        while i < self.devices.len()
            invariant
                i <= self.devices@.len(),
                models == device_models(self.devices@),
                field_models(fields@) == head + all_device_fields(models.take(i as int)),
            decreases self.devices@.len() - i,
        {
            let ghost before = field_models(fields@);
            let device = &self.devices[i];
            let prefix = device_prefix(i);
            push_field(&mut fields, prefix.as_slice(), ".status", &device.status);
            push_field(&mut fields, prefix.as_slice(), ".display_name", &device.display_name);
            push_field(&mut fields, prefix.as_slice(), ".os", &device.os);
            push_field(&mut fields, prefix.as_slice(), ".agent_version", &device.agent_version);
            push_field(&mut fields, prefix.as_slice(), ".capabilities", &device.capabilities);
            push_field(
                &mut fields,
                prefix.as_slice(),
                ".last_seen_unix_ms",
                &device.last_seen_unix_ms,
            );
            proof {
                let path = device_path(i as int);
                lemma_mapped_tag(device.display_name, |s: String| s@, path + ".display_name"@);
                lemma_mapped_tag(device.os, |s: String| s@, path + ".os"@);
                lemma_mapped_tag(device.agent_version, |s: String| s@, path + ".agent_version"@);
                lemma_mapped_tag(
                    device.capabilities,
                    |v: Vec<String>| text::texts(v@),
                    path + ".capabilities"@,
                );
                assert(field_models(fields@) =~= before + device_fields(i as int, device@));
                assert(models.take(i + 1).drop_last() =~= models.take(i as int));
                assert(models.take(i + 1).last() == device@);
                assert(field_models(fields@) =~= head + all_device_fields(models.take(i + 1)));
            }
            i = i + 1;
        }
        let ghost before = field_models(fields@);
        push_field(&mut fields, top, "subscription", &self.subscription);
        push_field(&mut fields, top, "usage", &self.usage);
        proof {
            assert(models.take(models.len() as int) =~= models);
            lemma_mapped_tag(
                self.subscription,
                |s: SubscriptionView| s@,
                "subscription"@,
            );
            lemma_mapped_tag(
                self.usage,
                |v: Vec<UsageEntry>| usage_models(v@),
                "usage"@,
            );
            assert(field_models(fields@) =~= before + seq![
                field_at("subscription"@, self@.subscription),
                field_at("usage"@, self@.usage),
            ]);
        }
        fields
    }
}

// ---------------------------------------------------------------------------
// The live projection

/// Backend state of one authenticated organization; every record must belong
/// to it.
pub struct TenantProjectionInput<'a> {
    pub organization: &'a OrganizationRecord,
    pub viewer_role: TenantRole,
    pub devices: &'a [TenantDeviceRecord],
    /// Devices with a live link to this gateway. Those of other organizations
    /// may be among them, and never match.
    pub connected_devices: &'a [DeviceKey],
    /// `None` when no subscription record exists for the organization.
    pub subscription: Option<&'a SubscriptionRecord>,
    /// `None` while usage metering is not wired to the request path.
    pub usage: Option<&'a [UsageRecord]>,
    pub now_unix_ms: u64,
}

/// Some record belongs to another organization.
pub open spec fn crosses_tenants(input: TenantProjectionInput<'_>) -> bool {
    let organization_id = input.organization.organization_id@;
    ||| exists|i: int|
        0 <= i < input.devices@.len() && (#[trigger] input.devices@[i]).organization_id@
            != organization_id
    ||| input.subscription is Some && input.subscription->0.organization_id@ != organization_id
    ||| input.usage is Some && exists|i: int|
        0 <= i < input.usage->0@.len() && (#[trigger] input.usage->0@[i]).organization_id@
            != organization_id
}

/// The device holds a link, as a device of this organization.
pub open spec fn is_connected(
    connected: Seq<DeviceKey>,
    organization_id: Seq<char>,
    device_id: Seq<char>,
) -> bool {
    exists|i: int|
        0 <= i < connected.len() && (#[trigger] connected[i]).organization_id@ == organization_id
            && connected[i].device_id@ == device_id
}

pub open spec fn device_status(
    record: TenantDeviceRecord,
    connected: Seq<DeviceKey>,
    organization_id: Seq<char>,
) -> DeviceStatus {
    if record.revoked {
        DeviceStatus::Revoked
    } else if is_connected(connected, organization_id, record.device_id@) {
        DeviceStatus::Connected
    } else {
        DeviceStatus::NotConnected
    }
}

/// What is shown of a device record.
pub open spec fn projected_device(
    record: TenantDeviceRecord,
    connected: Seq<DeviceKey>,
    organization_id: Seq<char>,
    now: u64,
) -> DeviceModel {
    DeviceModel {
        device_id: record.device_id@,
        workspace_ids: record.workspace_ids.items(),
        status: Observed::Live {
            value: device_status(record, connected, organization_id),
            observed_at_unix_ms: now,
        },
        display_name: Observed::Unknown { reason: UnknownReason::NotReported },
        os: Observed::Unknown { reason: UnknownReason::NotReported },
        agent_version: Observed::Unknown { reason: UnknownReason::NotReported },
        capabilities: Observed::Unknown { reason: UnknownReason::NotReported },
        last_seen_unix_ms: Observed::Unknown { reason: UnknownReason::NotImplemented },
    }
}

/// Where a device goes in an ordered list: behind all that do not come after
/// it.
pub open spec fn device_place(list: Seq<DeviceModel>, device_id: Seq<char>) -> int
    decreases list.len(),
{
    if list.len() > 0 && table::text_before(device_id, list.last().device_id) {
        device_place(list.drop_last(), device_id)
    } else {
        list.len() as int
    }
}

/// The devices of some records, ordered by id.
pub open spec fn projected_devices(
    records: Seq<TenantDeviceRecord>,
    connected: Seq<DeviceKey>,
    organization_id: Seq<char>,
    now: u64,
) -> Seq<DeviceModel>
    decreases records.len(),
{
    if records.len() == 0 {
        Seq::empty()
    } else {
        let before = projected_devices(records.drop_last(), connected, organization_id, now);
        let device = projected_device(records.last(), connected, organization_id, now);
        before.insert(device_place(before, device.device_id), device)
    }
}

pub open spec fn projected_usage(rows: Seq<UsageRecord>) -> Seq<UsageModel> {
    rows.map_values(
        |row: UsageRecord|
            UsageModel {
                workspace_id: tenants::usage_workspace(row),
                usage_key: row.usage_key@,
                units: row.units,
            },
    )
}

/// The snapshot that the records of an organization make.
pub open spec fn projected_snapshot(input: TenantProjectionInput<'_>) -> SnapshotModel {
    let organization_id = input.organization.organization_id@;
    let now = input.now_unix_ms;
    let devices = projected_devices(
        input.devices@,
        input.connected_devices@,
        organization_id,
        now,
    );
    SnapshotModel {
        schema_version: SNAPSHOT_SCHEMA_VERSION,
        mode: SnapshotMode::Live,
        generated_at_unix_ms: now,
        organization_id,
        name: Observed::Live { value: input.organization.name@, observed_at_unix_ms: now },
        viewer_role: Observed::Live {
            value: viewer_role(input.viewer_role),
            observed_at_unix_ms: now,
        },
        total_devices: Observed::Live { value: devices.len() as u32, observed_at_unix_ms: now },
        connected_devices: Observed::Live {
            value: count_status(devices, DeviceStatus::Connected) as u32,
            observed_at_unix_ms: now,
        },
        revoked_devices: Observed::Live {
            value: count_status(devices, DeviceStatus::Revoked) as u32,
            observed_at_unix_ms: now,
        },
        devices,
        subscription: match input.subscription {
            Some(record) => Observed::Live {
                value: PlanModel { plan: record.plan@, active: record.active },
                observed_at_unix_ms: now,
            },
            None => Observed::Unknown { reason: UnknownReason::NotReported },
        },
        usage: match input.usage {
            Some(rows) => Observed::Live {
                value: projected_usage(rows@),
                observed_at_unix_ms: now,
            },
            None => Observed::Unknown { reason: UnknownReason::NotImplemented },
        },
    }
}

/// Why records make no snapshot, if they do not.
pub open spec fn projection_error(input: TenantProjectionInput<'_>) -> Option<ContractRefusal> {
    if crosses_tenants(input) {
        Some(ContractRefusal::CrossTenantRecord)
    } else if input.devices@.len() > u32::MAX {
        Some(ContractRefusal::TooManyDevices)
    } else {
        snapshot_error(projected_snapshot(input))
    }
}

fn devices_cross(devices: &[TenantDeviceRecord], organization_id: &str) -> (r: bool)
    ensures
        r == exists|i: int|
            0 <= i < devices@.len() && (#[trigger] devices@[i]).organization_id@
                != organization_id@,
{
    let mut i: usize = 0;
    while i < devices.len()
        invariant
            i <= devices@.len(),
            forall|k: int|
                0 <= k < i ==> (#[trigger] devices@[k]).organization_id@ == organization_id@,
        decreases devices@.len() - i,
    {
        if !text::same_text(devices[i].organization_id.as_str(), organization_id) {
            return true;
        }
        i = i + 1;
    }
    false
}

fn usage_crosses(rows: &[UsageRecord], organization_id: &str) -> (r: bool)
    ensures
        r == exists|i: int|
            0 <= i < rows@.len() && (#[trigger] rows@[i]).organization_id@ != organization_id@,
{
    let mut i: usize = 0;
    while i < rows.len()
        invariant
            i <= rows@.len(),
            forall|k: int|
                0 <= k < i ==> (#[trigger] rows@[k]).organization_id@ == organization_id@,
        decreases rows@.len() - i,
    {
        if !text::same_text(rows[i].organization_id.as_str(), organization_id) {
            return true;
        }
        i = i + 1;
    }
    false
}

fn connected(keys: &[DeviceKey], organization_id: &str, device_id: &str) -> (r: bool)
    ensures
        r == is_connected(keys@, organization_id@, device_id@),
{
    let mut i: usize = 0;
    while i < keys.len()
        invariant
            i <= keys@.len(),
            forall|k: int|
                0 <= k < i ==> !((#[trigger] keys@[k]).organization_id@ == organization_id@
                    && keys@[k].device_id@ == device_id@),
        decreases keys@.len() - i,
    {
        if text::same_text(keys[i].organization_id.as_str(), organization_id) && text::same_text(
            keys[i].device_id.as_str(),
            device_id,
        ) {
            return true;
        }
        i = i + 1;
    }
    false
}

/// The members of a set as a list.
fn members(set: &ids::TextSet) -> (list: Vec<String>)
    ensures
        text::texts(list@) == set.items(),
{
    let mut list: Vec<String> = Vec::new();
    let n: usize = set.len();
    let mut i: usize = 0;
    while i < n
        invariant
            i <= n,
            n == set.items().len(),
            list@.len() == i,
            forall|k: int| 0 <= k < i ==> list@[k]@ == set.items()[k],
        decreases n - i,
    {
        list.push(set.item(i).clone());
        i = i + 1;
    }
    proof {
        assert(text::texts(list@) =~= set.items());
    }
    list
}

fn project_device(
    record: &TenantDeviceRecord,
    keys: &[DeviceKey],
    organization_id: &str,
    now: u64,
) -> (device: DeviceView)
    ensures
        device@ == projected_device(*record, keys@, organization_id@, now),
{
    let status = if record.revoked {
        DeviceStatus::Revoked
    } else if connected(keys, organization_id, record.device_id.as_str()) {
        DeviceStatus::Connected
    } else {
        DeviceStatus::NotConnected
    };
    DeviceView {
        device_id: record.device_id.clone(),
        workspace_ids: members(&record.workspace_ids),
        status: Observed::live(status, now),
        display_name: Observed::unknown(UnknownReason::NotReported),
        os: Observed::unknown(UnknownReason::NotReported),
        agent_version: Observed::unknown(UnknownReason::NotReported),
        capabilities: Observed::unknown(UnknownReason::NotReported),
        last_seen_unix_ms: Observed::unknown(UnknownReason::NotImplemented),
    }
}

fn place_of(list: &Vec<DeviceView>, device_id: &str) -> (at: usize)
    ensures
        at <= list@.len(),
        at == device_place(device_models(list@), device_id@),
{
    let ghost models = device_models(list@);
    let mut at: usize = list.len();
    proof {
        assert(models.take(models.len() as int) =~= models);
    }
    while at > 0 && table::comes_before(device_id, list[at - 1].device_id.as_str())
        invariant
            at <= list@.len(),
            models == device_models(list@),
            device_place(models, device_id@) == device_place(models.take(at as int), device_id@),
        decreases at,
    {
        proof {
            assert(models.take(at as int).last() == list@[at - 1]@);
            assert(models.take(at as int).drop_last() =~= models.take(at - 1));
        }
        at = at - 1;
    }
    proof {
        if at > 0 {
            assert(models.take(at as int).last() == list@[at - 1]@);
        }
    }
    at
}

fn project_devices(
    records: &[TenantDeviceRecord],
    keys: &[DeviceKey],
    organization_id: &str,
    now: u64,
) -> (list: Vec<DeviceView>)
    ensures
        device_models(list@) == projected_devices(records@, keys@, organization_id@, now),
        list@.len() == records@.len(),
{
    let mut list: Vec<DeviceView> = Vec::new();
    let mut i: usize = 0;
    proof {
        assert(device_models(list@) =~= projected_devices(
            records@.take(0),
            keys@,
            organization_id@,
            now,
        ));
    }
    while i < records.len()
        invariant
            i <= records@.len(),
            list@.len() == i,
            device_models(list@) == projected_devices(
                records@.take(i as int),
                keys@,
                organization_id@,
                now,
            ),
        decreases records@.len() - i,
    {
        let ghost before = device_models(list@);
        proof {
            assert(records@.take(i + 1).drop_last() =~= records@.take(i as int));
            assert(records@.take(i + 1).last() == records@[i as int]);
        }
        let device = project_device(&records[i], keys, organization_id, now);
        let at: usize = place_of(&list, device.device_id.as_str());
        let ghost model = device@;
        list.insert(at, device);
        proof {
            assert(device_models(list@) =~= before.insert(at as int, model));
        }
        i = i + 1;
    }
    proof {
        assert(records@.take(records@.len() as int) =~= records@);
    }
    list
}

fn project_usage(rows: &[UsageRecord]) -> (entries: Vec<UsageEntry>)
    ensures
        usage_models(entries@) == projected_usage(rows@),
{
    let mut entries: Vec<UsageEntry> = Vec::new();
    let mut i: usize = 0;
    while i < rows.len()
        invariant
            i <= rows@.len(),
            entries@.len() == i,
            forall|k: int|
                0 <= k < i ==> (#[trigger] entries@[k])@ == (UsageModel {
                    workspace_id: tenants::usage_workspace(rows@[k]),
                    usage_key: rows@[k].usage_key@,
                    units: rows@[k].units,
                }),
        decreases rows@.len() - i,
    {
        entries.push(
            UsageEntry {
                workspace_id: match &rows[i].workspace_id {
                    Some(name) => Some(name.clone()),
                    None => None,
                },
                usage_key: rows[i].usage_key.clone(),
                units: rows[i].units,
            },
        );
        i = i + 1;
    }
    proof {
        assert(usage_models(entries@) =~= projected_usage(rows@));
    }
    entries
}

/// Projects tenant records into a live snapshot. What the backend does not
/// track is unknown, never guessed.
pub fn project_live_snapshot(input: &TenantProjectionInput<'_>) -> (snapshot: Result<
    DashboardSnapshot,
    ContractError,
>)
    ensures
        snapshot is Err == projection_error(*input) is Some,
        snapshot is Err ==> snapshot->Err_0@ == projection_error(*input)->0,
        snapshot is Ok ==> snapshot->Ok_0@ == projected_snapshot(*input),
{
    let organization_id = input.organization.organization_id.as_str();
    let now: u64 = input.now_unix_ms;
    if devices_cross(input.devices, organization_id) {
        return Err(ContractError::CrossTenantRecord);
    }
    if let Some(subscription) = input.subscription {
        if !text::same_text(subscription.organization_id.as_str(), organization_id) {
            return Err(ContractError::CrossTenantRecord);
        }
    }
    if let Some(rows) = input.usage {
        if usage_crosses(rows, organization_id) {
            return Err(ContractError::CrossTenantRecord);
        }
    }
    let devices = project_devices(input.devices, input.connected_devices, organization_id, now);
    if devices.len() > u32::MAX as usize {
        return Err(ContractError::TooManyDevices);
    }
    let (connected_count, _) = count_devices(&devices, DeviceStatus::Connected);
    let (revoked_count, _) = count_devices(&devices, DeviceStatus::Revoked);
    let summary = SummaryView {
        total_devices: Observed::live(devices.len() as u32, now),
        connected_devices: Observed::live(connected_count as u32, now),
        revoked_devices: Observed::live(revoked_count as u32, now),
    };
    let subscription = match input.subscription {
        Some(record) => Observed::live(
            SubscriptionView { plan: record.plan.clone(), active: record.active },
            now,
        ),
        None => Observed::unknown(UnknownReason::NotReported),
    };
    let usage = match input.usage {
        Some(rows) => Observed::live(project_usage(rows), now),
        None => Observed::unknown(UnknownReason::NotImplemented),
    };
    let snapshot = DashboardSnapshot {
        schema_version: SNAPSHOT_SCHEMA_VERSION,
        mode: SnapshotMode::Live,
        generated_at_unix_ms: now,
        organization: OrganizationView {
            organization_id: text::copied(organization_id),
            name: Observed::live(input.organization.name.clone(), now),
            viewer_role: Observed::live(ViewerRole::from(input.viewer_role), now),
        },
        summary,
        devices,
        subscription,
        usage,
    };
    proof {
        assert(snapshot@ =~= projected_snapshot(*input));
    }
    match snapshot.validate() {
        Err(error) => Err(error),
        Ok(()) => Ok(snapshot),
    }
}

// ---------------------------------------------------------------------------
// The simulated preview

pub open spec fn preview_device(
    device_id: Seq<char>,
    name: Seq<char>,
    status: DeviceStatus,
    os: Seq<char>,
) -> DeviceModel {
    DeviceModel {
        device_id,
        workspace_ids: seq!["ws_example"@],
        status: Observed::Simulated { value: status },
        display_name: Observed::Simulated { value: name },
        os: Observed::Simulated { value: os },
        agent_version: Observed::Simulated { value: "0.0.0-preview"@ },
        capabilities: Observed::Simulated { value: seq!["filesystem.read"@, "git.status"@] },
        last_seen_unix_ms: Observed::Unknown { reason: UnknownReason::NotImplemented },
    }
}

/// The preview: synthetic throughout, with reserved example names.
pub open spec fn preview_model(generated_at_unix_ms: u64) -> SnapshotModel {
    SnapshotModel {
        schema_version: SNAPSHOT_SCHEMA_VERSION,
        mode: SnapshotMode::Simulated,
        generated_at_unix_ms,
        organization_id: "org_example"@,
        name: Observed::Simulated { value: "Example Organization"@ },
        viewer_role: Observed::Simulated { value: ViewerRole::Admin },
        total_devices: Observed::Simulated { value: 3u32 },
        connected_devices: Observed::Simulated { value: 1u32 },
        revoked_devices: Observed::Simulated { value: 1u32 },
        devices: seq![
            preview_device(
                "dev_example_laptop"@,
                "Example laptop"@,
                DeviceStatus::NotConnected,
                "Linux"@,
            ),
            preview_device(
                "dev_example_retired"@,
                "Example retired device"@,
                DeviceStatus::Revoked,
                "Windows"@,
            ),
            preview_device(
                "dev_example_workstation"@,
                "Example workstation"@,
                DeviceStatus::Connected,
                "Windows"@,
            ),
        ],
        subscription: Observed::Simulated { value: PlanModel { plan: "preview"@, active: false } },
        usage: Observed::Unknown { reason: UnknownReason::NotImplemented },
    }
}

fn make_preview_device(device_id: &str, name: &str, status: DeviceStatus, os: &str) -> (device:
    DeviceView)
    ensures
        device@ == preview_device(device_id@, name@, status, os@),
{
    let mut workspace_ids: Vec<String> = Vec::new();
    workspace_ids.push(text::copied("ws_example"));
    let mut capabilities: Vec<String> = Vec::new();
    capabilities.push(text::copied("filesystem.read"));
    capabilities.push(text::copied("git.status"));
    proof {
        assert(text::texts(workspace_ids@) =~= seq!["ws_example"@]);
        assert(text::texts(capabilities@) =~= seq!["filesystem.read"@, "git.status"@]);
    }
    DeviceView {
        device_id: text::copied(device_id),
        workspace_ids,
        status: Observed::simulated(status),
        display_name: Observed::simulated(text::copied(name)),
        os: Observed::simulated(text::copied(os)),
        agent_version: Observed::simulated(text::copied("0.0.0-preview")),
        capabilities: Observed::simulated(capabilities),
        last_seen_unix_ms: Observed::unknown(UnknownReason::NotImplemented),
    }
}

/// Synthetic preview data. Every observable value is simulated or unknown, and
/// every identifier is a reserved example name.
pub fn simulated_preview_snapshot(generated_at_unix_ms: u64) -> (snapshot: DashboardSnapshot)
    ensures
        snapshot@ == preview_model(generated_at_unix_ms),
        snapshot_error(snapshot@) is None,
{
    let mut devices: Vec<DeviceView> = Vec::new();
    devices.push(
        make_preview_device(
            "dev_example_laptop",
            "Example laptop",
            DeviceStatus::NotConnected,
            "Linux",
        ),
    );
    devices.push(
        make_preview_device(
            "dev_example_retired",
            "Example retired device",
            DeviceStatus::Revoked,
            "Windows",
        ),
    );
    devices.push(
        make_preview_device(
            "dev_example_workstation",
            "Example workstation",
            DeviceStatus::Connected,
            "Windows",
        ),
    );
    let snapshot = DashboardSnapshot {
        schema_version: SNAPSHOT_SCHEMA_VERSION,
        mode: SnapshotMode::Simulated,
        generated_at_unix_ms,
        organization: OrganizationView {
            organization_id: text::copied("org_example"),
            name: Observed::simulated(text::copied("Example Organization")),
            viewer_role: Observed::simulated(ViewerRole::Admin),
        },
        summary: SummaryView {
            total_devices: Observed::simulated(3),
            connected_devices: Observed::simulated(1),
            revoked_devices: Observed::simulated(1),
        },
        devices,
        subscription: Observed::simulated(
            SubscriptionView { plan: text::copied("preview"), active: false },
        ),
        usage: Observed::unknown(UnknownReason::NotImplemented),
    };
    proof {
        assert(device_models(devices@) =~= preview_model(generated_at_unix_ms).devices);
        assert(snapshot@ =~= preview_model(generated_at_unix_ms));
        preview_is_valid(generated_at_unix_ms);
    }
    snapshot
}

// ---------------------------------------------------------------------------
// Laws

proof fn lemma_not_blank(s: Seq<char>)
    requires
        s.len() > 0,
        !text::is_white_space(s[0]),
    ensures
        !text::is_blank(s),
{
}

/// Where no field has an error, none is found.
proof fn lemma_clean_fields(mode: SnapshotMode, at: u64, fields: Seq<FieldModel>)
    requires
        forall|i: int| 0 <= i < fields.len() ==> field_error(mode, at, #[trigger] fields[i]) is None,
    ensures
        fields_error(mode, at, fields) is None,
    decreases fields.len(),
{
    if fields.len() > 0 {
        assert forall|i: int| 0 <= i < fields.drop_last().len() implies field_error(
            mode,
            at,
            #[trigger] fields.drop_last()[i],
        ) is None by {
            assert(fields.drop_last()[i] == fields[i]);
        }
        lemma_clean_fields(mode, at, fields.drop_last());
        assert(field_error(mode, at, fields[fields.len() - 1]) is None);
    }
}

/// Where no error is found, no field has one.
proof fn lemma_fields_clean(mode: SnapshotMode, at: u64, fields: Seq<FieldModel>, i: int)
    requires
        fields_error(mode, at, fields) is None,
        0 <= i < fields.len(),
    ensures
        field_error(mode, at, fields[i]) is None,
    decreases fields.len(),
{
    if i < fields.len() - 1 {
        lemma_fields_clean(mode, at, fields.drop_last(), i);
    }
}

/// The fields of clean devices are clean.
proof fn lemma_clean_devices(mode: SnapshotMode, at: u64, devices: Seq<DeviceModel>)
    requires
        forall|d: int, k: int|
            0 <= d < devices.len() && 0 <= k < 6 ==> field_error(
                mode,
                at,
                #[trigger] device_fields(d, devices[d])[k],
            ) is None,
    ensures
        forall|i: int|
            0 <= i < all_device_fields(devices).len() ==> field_error(
                mode,
                at,
                #[trigger] all_device_fields(devices)[i],
            ) is None,
    decreases devices.len(),
{
    if devices.len() > 0 {
        let shorter = devices.drop_last();
        let n = devices.len() - 1;
        assert forall|d: int, k: int| 0 <= d < shorter.len() && 0 <= k < 6 implies field_error(
            mode,
            at,
            #[trigger] device_fields(d, shorter[d])[k],
        ) is None by {
            assert(shorter[d] == devices[d]);
            assert(field_error(mode, at, device_fields(d, devices[d])[k]) is None);
        }
        lemma_clean_devices(mode, at, shorter);
        let before = all_device_fields(shorter);
        let all = all_device_fields(devices);
        assert forall|i: int| 0 <= i < all.len() implies field_error(
            mode,
            at,
            #[trigger] all[i],
        ) is None by {
            if i < before.len() {
                assert(all[i] == before[i]);
            } else {
                assert(all[i] == device_fields(n, devices[n])[i - before.len()]);
            }
        }
    }
}

/// The preview is valid, whenever it is made.
pub proof fn preview_is_valid(generated_at_unix_ms: u64)
    ensures
        snapshot_error(preview_model(generated_at_unix_ms)) is None,
{
    let s = preview_model(generated_at_unix_ms);
    let d = s.devices;
    reveal_strlit("org_example");
    reveal_strlit("dev_example_laptop");
    reveal_strlit("dev_example_retired");
    reveal_strlit("dev_example_workstation");
    reveal_strlit("ws_example");
    reveal_strlit("preview");
    lemma_not_blank("org_example"@);
    lemma_not_blank("dev_example_laptop"@);
    lemma_not_blank("dev_example_retired"@);
    lemma_not_blank("dev_example_workstation"@);
    lemma_not_blank("ws_example"@);
    lemma_not_blank("preview"@);
    let w = seq!["ws_example"@];
    assert(w.drop_last() =~= Seq::<Seq<char>>::empty());
    assert(w.drop_last().len() == 0);
    assert forall|i: int| #[trigger] workspaces_error(w, i) is None by {
        assert(workspaces_error(w.drop_last(), i) is None);
        assert(!w.drop_last().contains(w.last()));
    }
    let d2 = d.drop_last();
    let d1 = d2.drop_last();
    let d0 = d1.drop_last();
    assert(d0.len() == 0);
    assert(d1.last() == d[0] && d2.last() == d[1] && d.last() == d[2]);
    assert("dev_example_laptop"@.len() == 18 && "dev_example_retired"@.len() == 19
        && "dev_example_workstation"@.len() == 23);
    assert(devices_error(d0) is None);
    assert(workspaces_error(w, 0) is None);
    assert(workspaces_error(w, 1) is None);
    assert(workspaces_error(w, 2) is None);
    assert(devices_error(d1) is None);
    assert(devices_error(d2) is None);
    assert(devices_error(d) is None);
    assert(count_status(d0, DeviceStatus::Connected) == 0);
    assert(count_status(d1, DeviceStatus::Connected) == 0);
    assert(count_status(d2, DeviceStatus::Connected) == 0);
    assert(count_status(d, DeviceStatus::Connected) == 1);
    assert(count_status(d0, DeviceStatus::Revoked) == 0);
    assert(count_status(d1, DeviceStatus::Revoked) == 0);
    assert(count_status(d2, DeviceStatus::Revoked) == 1);
    assert(count_status(d, DeviceStatus::Revoked) == 1);
    assert(count_unknown(d0) == 0);
    assert(count_unknown(d1) == 0);
    assert(count_unknown(d2) == 0);
    assert(count_unknown(d) == 0);
    lemma_clean_devices(s.mode, s.generated_at_unix_ms, d);
    let fields = tagged_fields(s);
    let middle = all_device_fields(d);
    assert forall|i: int| 0 <= i < fields.len() implies field_error(
        s.mode,
        s.generated_at_unix_ms,
        #[trigger] fields[i],
    ) is None by {
        if 5 <= i < 5 + middle.len() {
            assert(fields[i] == middle[i - 5]);
        }
    }
    lemma_clean_fields(s.mode, s.generated_at_unix_ms, fields);
}

/// A valid snapshot mixes no live with simulated values, and nothing in it was
/// observed after it was made.
pub proof fn valid_snapshots_never_mix(s: SnapshotModel, i: int)
    requires
        snapshot_error(s) is None,
        0 <= i < tagged_fields(s).len(),
    ensures
        s.mode == SnapshotMode::Live ==> tagged_fields(s)[i].provenance != Provenance::Simulated,
        s.mode == SnapshotMode::Simulated ==> tagged_fields(s)[i].provenance != Provenance::Live,
        tagged_fields(s)[i].observed_at is Some ==> tagged_fields(s)[i].observed_at->0
            <= s.generated_at_unix_ms,
{
    lemma_fields_clean(s.mode, s.generated_at_unix_ms, tagged_fields(s), i);
}

/// In a valid snapshot no identifier is blank, and none stands twice: no device,
/// no workspace of a device, and no usage key of a workspace.
pub proof fn valid_identifiers_are_unique(s: SnapshotModel)
    requires
        snapshot_error(s) is None,
    ensures
        !text::is_blank(s.organization_id),
        forall|i: int|
            0 <= i < s.devices.len() ==> !text::is_blank((#[trigger] s.devices[i]).device_id)
                && s.devices[i].workspace_ids.no_duplicates() && forall|k: int|
                0 <= k < s.devices[i].workspace_ids.len() ==> !text::is_blank(
                    #[trigger] s.devices[i].workspace_ids[k],
                ),
        forall|i: int, j: int|
            0 <= i < j < s.devices.len() ==> (#[trigger] s.devices[i]).device_id != (
            #[trigger] s.devices[j]).device_id,
        known_value(s.usage) matches Some(entries) ==> {
            &&& forall|i: int|
                0 <= i < entries.len() ==> !text::is_blank((#[trigger] entries[i]).usage_key) && (
                entries[i].workspace_id is Some ==> !text::is_blank(entries[i].workspace_id->0))
            &&& forall|i: int, j: int|
                0 <= i < j < entries.len() ==> (#[trigger] entries[i]).workspace_id != (
                #[trigger] entries[j]).workspace_id || entries[i].usage_key != entries[j].usage_key
        },
{
    lemma_devices_unique(s.devices);
    if known_value(s.usage) is Some {
        lemma_usage_unique(known_value(s.usage)->0);
    }
}

proof fn lemma_workspaces_unique(list: Seq<Seq<char>>, n: int)
    requires
        workspaces_error(list, n) is None,
    ensures
        list.no_duplicates(),
        forall|k: int| 0 <= k < list.len() ==> !text::is_blank(#[trigger] list[k]),
    decreases list.len(),
{
    if list.len() > 0 {
        let before = list.drop_last();
        lemma_workspaces_unique(before, n);
        assert forall|i: int, j: int| 0 <= i < j < list.len() implies list[i] != list[j] by {
            assert(before[i] == list[i]);
            if j < list.len() - 1 {
                assert(before[j] == list[j]);
            }
        }
        assert forall|k: int| 0 <= k < list.len() implies !text::is_blank(#[trigger] list[k]) by {
            if k < list.len() - 1 {
                assert(before[k] == list[k]);
            }
        }
    }
}

proof fn lemma_devices_unique(devices: Seq<DeviceModel>)
    requires
        devices_error(devices) is None,
    ensures
        forall|i: int|
            0 <= i < devices.len() ==> !text::is_blank((#[trigger] devices[i]).device_id)
                && devices[i].workspace_ids.no_duplicates() && forall|k: int|
                0 <= k < devices[i].workspace_ids.len() ==> !text::is_blank(
                    #[trigger] devices[i].workspace_ids[k],
                ),
        forall|i: int, j: int|
            0 <= i < j < devices.len() ==> (#[trigger] devices[i]).device_id != (
            #[trigger] devices[j]).device_id,
    decreases devices.len(),
{
    if devices.len() > 0 {
        let before = devices.drop_last();
        lemma_devices_unique(before);
        lemma_workspaces_unique(devices.last().workspace_ids, devices.len() - 1);
        assert forall|i: int| 0 <= i < before.len() implies before[i] == #[trigger] devices[i] by {}
        assert forall|i: int, j: int| 0 <= i < j < devices.len() implies (
        #[trigger] devices[i]).device_id != (#[trigger] devices[j]).device_id by {
            assert(before[i] == devices[i]);
            if j < devices.len() - 1 {
                assert(before[j] == devices[j]);
            }
        }
    }
}

proof fn lemma_usage_unique(entries: Seq<UsageModel>)
    requires
        usage_error(entries) is None,
    ensures
        forall|i: int|
            0 <= i < entries.len() ==> !text::is_blank((#[trigger] entries[i]).usage_key) && (
            entries[i].workspace_id is Some ==> !text::is_blank(entries[i].workspace_id->0)),
        forall|i: int, j: int|
            0 <= i < j < entries.len() ==> (#[trigger] entries[i]).workspace_id != (
            #[trigger] entries[j]).workspace_id || entries[i].usage_key != entries[j].usage_key,
    decreases entries.len(),
{
    if entries.len() > 0 {
        let before = entries.drop_last();
        lemma_usage_unique(before);
        assert forall|i: int| 0 <= i < before.len() implies before[i] == #[trigger] entries[i] by {}
        assert forall|i: int, j: int| 0 <= i < j < entries.len() implies (
        #[trigger] entries[i]).workspace_id != (#[trigger] entries[j]).workspace_id
            || entries[i].usage_key != entries[j].usage_key by {
            assert(before[i] == entries[i]);
            if j < entries.len() - 1 {
                assert(before[j] == entries[j]);
            }
        }
    }
}

/// What is projected is a valid live snapshot.
pub proof fn projections_are_valid(input: TenantProjectionInput<'_>)
    requires
        projection_error(input) is None,
    ensures
        snapshot_error(projected_snapshot(input)) is None,
        projected_snapshot(input).mode == SnapshotMode::Live,
        projected_snapshot(input).organization_id == input.organization.organization_id@,
{
}

/// A revoked device shows as revoked, whatever link it holds.
pub proof fn revoked_devices_show_as_revoked(
    record: TenantDeviceRecord,
    connected: Seq<DeviceKey>,
    organization_id: Seq<char>,
)
    requires
        record.revoked,
    ensures
        device_status(record, connected, organization_id) == DeviceStatus::Revoked,
{
}

/// Links of other organizations do not count.
pub proof fn foreign_links_do_not_count(
    connected: Seq<DeviceKey>,
    key: DeviceKey,
    organization_id: Seq<char>,
    device_id: Seq<char>,
)
    requires
        key.organization_id@ != organization_id,
    ensures
        is_connected(connected.push(key), organization_id, device_id) == is_connected(
            connected,
            organization_id,
            device_id,
        ),
{
    let more = connected.push(key);
    if is_connected(connected, organization_id, device_id) {
        let i = choose|i: int|
            0 <= i < connected.len() && (#[trigger] connected[i]).organization_id@
                == organization_id && connected[i].device_id@ == device_id;
        assert(more[i] == connected[i]);
    }
    if is_connected(more, organization_id, device_id) {
        let i = choose|i: int|
            0 <= i < more.len() && (#[trigger] more[i]).organization_id@ == organization_id
                && more[i].device_id@ == device_id;
        assert(connected[i] == more[i]);
    }
}

/// The devices are in the order of their ids.
pub open spec fn devices_ordered(list: Seq<DeviceModel>) -> bool {
    forall|i: int, j: int|
        0 <= i < j < list.len() ==> !table::text_before(
            (#[trigger] list[j]).device_id,
            (#[trigger] list[i]).device_id,
        )
}

proof fn lemma_device_place(list: Seq<DeviceModel>, device_id: Seq<char>)
    requires
        devices_ordered(list),
    ensures
        0 <= device_place(list, device_id) <= list.len(),
        forall|i: int|
            0 <= i < device_place(list, device_id) ==> !table::text_before(
                device_id,
                (#[trigger] list[i]).device_id,
            ),
        forall|i: int|
            device_place(list, device_id) <= i < list.len() ==> table::text_before(
                device_id,
                (#[trigger] list[i]).device_id,
            ),
    decreases list.len(),
{
    if list.len() > 0 {
        let last = list.last();
        if table::text_before(device_id, last.device_id) {
            assert(devices_ordered(list.drop_last()));
            lemma_device_place(list.drop_last(), device_id);
            assert forall|i: int| device_place(list, device_id) <= i < list.len() implies table::text_before(
                device_id,
                (#[trigger] list[i]).device_id,
            ) by {
                if i < list.len() - 1 {
                    assert(list.drop_last()[i] == list[i]);
                }
            }
            assert forall|i: int| 0 <= i < device_place(list, device_id) implies !table::text_before(
                device_id,
                (#[trigger] list[i]).device_id,
            ) by {
                assert(list.drop_last()[i] == list[i]);
            }
        } else {
            assert forall|i: int| 0 <= i < list.len() implies !table::text_before(
                device_id,
                (#[trigger] list[i]).device_id,
            ) by {
                if table::text_before(device_id, list[i].device_id) && i < list.len() - 1 {
                    assert(!table::text_before(last.device_id, list[i].device_id)) by {
                        assert(list[list.len() - 1] == last);
                    }
                    table::lemma_order_chain(device_id, list[i].device_id, last.device_id);
                }
            }
        }
    }
}

/// The projected devices are ordered by id, one for each record.
pub proof fn projected_devices_are_ordered(
    records: Seq<TenantDeviceRecord>,
    connected: Seq<DeviceKey>,
    organization_id: Seq<char>,
    now: u64,
)
    ensures
        devices_ordered(projected_devices(records, connected, organization_id, now)),
        projected_devices(records, connected, organization_id, now).to_multiset()
            == records.map_values(
            |r: TenantDeviceRecord| projected_device(r, connected, organization_id, now),
        ).to_multiset(),
    decreases records.len(),
{
    broadcast use vstd::seq_lib::group_to_multiset_ensures;

    let f = |r: TenantDeviceRecord| projected_device(r, connected, organization_id, now);
    if records.len() > 0 {
        let before = projected_devices(records.drop_last(), connected, organization_id, now);
        let device = projected_device(records.last(), connected, organization_id, now);
        let at = device_place(before, device.device_id);
        let after = before.insert(at, device);
        projected_devices_are_ordered(records.drop_last(), connected, organization_id, now);
        lemma_device_place(before, device.device_id);
        assert forall|i: int, j: int| 0 <= i < j < after.len() implies !table::text_before(
            (#[trigger] after[j]).device_id,
            (#[trigger] after[i]).device_id,
        ) by {
            if j == at {
                assert(after[i] == before[i]);
                assert(!table::text_before(device.device_id, before[i].device_id));
            } else if i == at {
                assert(after[j] == before[j - 1]);
                assert(table::text_before(device.device_id, before[j - 1].device_id));
                table::lemma_order_strict(device.device_id, before[j - 1].device_id);
            } else {
                let i0 = if i < at { i } else { i - 1 };
                let j0 = if j < at { j } else { j - 1 };
                assert(after[i] == before[i0] && after[j] == before[j0]);
            }
        }
        assert(after.to_multiset() =~= before.to_multiset().insert(device)) by {
            vstd::seq_lib::to_multiset_insert(before, at, device);
        }
        let mapped = records.map_values(f);
        assert(mapped =~= records.drop_last().map_values(f).push(device));
        assert(mapped.to_multiset() =~= records.drop_last().map_values(f).to_multiset().insert(
            device,
        ));
    } else {
        assert(records.map_values(f) =~= Seq::<DeviceModel>::empty());
    }
}

/// Workspaces of a device are in order exactly when none is blank and none stands twice.
pub open spec fn workspaces_in_order(list: Seq<Seq<char>>) -> bool {
    &&& forall|i: int| 0 <= i < list.len() ==> !text::is_blank(#[trigger] list[i])
    &&& forall|i: int, j: int| 0 <= i < j < list.len() ==> #[trigger] list[i] != #[trigger] list[j]
}

proof fn lemma_workspaces_in_order(list: Seq<Seq<char>>, n: int)
    ensures
        workspaces_error(list, n) is None <==> workspaces_in_order(list),
    decreases list.len(),
{
    if list.len() > 0 {
        let fewer = list.drop_last();
        let m = list.len() - 1;
        lemma_workspaces_in_order(fewer, n);
        assert forall|i: int| 0 <= i < m implies fewer[i] == list[i] by {}
        if workspaces_error(list, n) is None {
            assert forall|i: int| 0 <= i < list.len() implies !text::is_blank(
                #[trigger] list[i],
            ) by {
                if i < m {
                    assert(fewer[i] == list[i]);
                }
            }
            assert forall|i: int, j: int| 0 <= i < j < list.len() implies #[trigger] list[i]
                != #[trigger] list[j] by {
                assert(fewer[i] == list[i]);
                if j < m {
                    assert(fewer[j] == list[j]);
                } else {
                    assert(fewer.contains(fewer[i]));
                }
            }
        }
        if workspaces_in_order(list) {
            assert(list[m] == list.last());
            assert forall|i: int, j: int| 0 <= i < j < fewer.len() implies #[trigger] fewer[i]
                != #[trigger] fewer[j] by {
                assert(list[i] != list[j]);
            }
            if fewer.contains(list.last()) {
                let i = choose|i: int| 0 <= i < fewer.len() && fewer[i] == list.last();
                assert(list[i] != list[m]);
            }
        }
    }
}

/// Devices are in order exactly when each has a name of its own and its workspaces are in
/// order.
pub open spec fn devices_in_order(devices: Seq<DeviceModel>) -> bool {
    &&& forall|i: int|
        0 <= i < devices.len() ==> !text::is_blank((#[trigger] devices[i]).device_id)
            && workspaces_in_order(devices[i].workspace_ids)
    &&& forall|i: int, j: int|
        0 <= i < j < devices.len() ==> (#[trigger] devices[i]).device_id != (
        #[trigger] devices[j]).device_id
}

proof fn lemma_devices_in_order(devices: Seq<DeviceModel>)
    ensures
        devices_error(devices) is None <==> devices_in_order(devices),
    decreases devices.len(),
{
    if devices.len() > 0 {
        let fewer = devices.drop_last();
        let m = devices.len() - 1;
        lemma_devices_in_order(fewer);
        lemma_workspaces_in_order(devices.last().workspace_ids, m);
        assert forall|i: int| 0 <= i < m implies fewer[i] == devices[i] by {}
        if devices_error(devices) is None {
            assert forall|i: int| 0 <= i < devices.len() implies !text::is_blank(
                (#[trigger] devices[i]).device_id,
            ) && workspaces_in_order(devices[i].workspace_ids) by {
                if i < m {
                    assert(fewer[i] == devices[i]);
                }
            }
            assert forall|i: int, j: int| 0 <= i < j < devices.len() implies (
            #[trigger] devices[i]).device_id != (#[trigger] devices[j]).device_id by {
                assert(fewer[i] == devices[i]);
                if j < m {
                    assert(fewer[j] == devices[j]);
                }
            }
        }
        if devices_in_order(devices) {
            assert(devices[m] == devices.last());
            assert forall|i: int, j: int| 0 <= i < j < fewer.len() implies (
            #[trigger] fewer[i]).device_id != (#[trigger] fewer[j]).device_id by {
                assert(devices[i].device_id != devices[j].device_id);
            }
            if device_listed(fewer, devices.last().device_id) {
                let i = choose|i: int|
                    0 <= i < fewer.len() && (#[trigger] fewer[i]).device_id
                        == devices.last().device_id;
                assert(devices[i].device_id != devices[m].device_id);
            }
        }
    }
}

/// What was used is in order exactly when no name is blank and none stands twice within a
/// workspace.
pub open spec fn usage_in_order(entries: Seq<UsageModel>) -> bool {
    &&& forall|i: int|
        0 <= i < entries.len() ==> !text::is_blank((#[trigger] entries[i]).usage_key) && (
        entries[i].workspace_id is None || !text::is_blank(entries[i].workspace_id->0))
    &&& forall|i: int, j: int|
        0 <= i < j < entries.len() ==> (#[trigger] entries[i]).workspace_id != (
        #[trigger] entries[j]).workspace_id || entries[i].usage_key != entries[j].usage_key
}

proof fn lemma_usage_in_order(entries: Seq<UsageModel>)
    ensures
        usage_error(entries) is None <==> usage_in_order(entries),
    decreases entries.len(),
{
    if entries.len() > 0 {
        let fewer = entries.drop_last();
        let m = entries.len() - 1;
        lemma_usage_in_order(fewer);
        assert forall|i: int| 0 <= i < m implies fewer[i] == entries[i] by {}
        if usage_error(entries) is None {
            assert forall|i: int| 0 <= i < entries.len() implies !text::is_blank(
                (#[trigger] entries[i]).usage_key,
            ) && (entries[i].workspace_id is None || !text::is_blank(entries[i].workspace_id->0)) by {
                if i < m {
                    assert(fewer[i] == entries[i]);
                }
            }
            assert forall|i: int, j: int| 0 <= i < j < entries.len() implies (
            #[trigger] entries[i]).workspace_id != (#[trigger] entries[j]).workspace_id
                || entries[i].usage_key != entries[j].usage_key by {
                assert(fewer[i] == entries[i]);
                if j < m {
                    assert(fewer[j] == entries[j]);
                }
            }
        }
        if usage_in_order(entries) {
            assert(entries[m] == entries.last());
            assert forall|i: int, j: int| 0 <= i < j < fewer.len() implies (
            #[trigger] fewer[i]).workspace_id != (#[trigger] fewer[j]).workspace_id
                || fewer[i].usage_key != fewer[j].usage_key by {
                assert(entries[i].workspace_id != entries[j].workspace_id || entries[i].usage_key
                    != entries[j].usage_key);
            }
            if usage_listed(fewer, entries.last().workspace_id, entries.last().usage_key) {
                let i = choose|i: int|
                    0 <= i < fewer.len() && (#[trigger] fewer[i]).workspace_id
                        == entries.last().workspace_id && fewer[i].usage_key
                        == entries.last().usage_key;
                assert(entries[i].workspace_id != entries[m].workspace_id || entries[i].usage_key
                    != entries[m].usage_key);
            }
        }
    }
}

/// A field fits a snapshot exactly when it is not made up in a live one, not live in a made
/// up one, and was not observed after the snapshot.
pub open spec fn field_in_order(mode: SnapshotMode, generated_at: u64, f: FieldModel) -> bool {
    &&& mode is Live ==> !(f.provenance is Simulated)
    &&& mode is Simulated ==> !(f.provenance is Live)
    &&& f.observed_at is None || f.observed_at->0 <= generated_at
}

proof fn lemma_fields_in_order(mode: SnapshotMode, generated_at: u64, fields: Seq<FieldModel>)
    ensures
        fields_error(mode, generated_at, fields) is None <==> forall|i: int|
            0 <= i < fields.len() ==> field_in_order(mode, generated_at, #[trigger] fields[i]),
    decreases fields.len(),
{
    if fields.len() > 0 {
        let fewer = fields.drop_last();
        lemma_fields_in_order(mode, generated_at, fewer);
        assert(fields[fields.len() - 1] == fields.last());
        assert forall|i: int| 0 <= i < fewer.len() implies fewer[i] == fields[i] by {}
        if fields_error(mode, generated_at, fields) is None {
            assert forall|i: int| 0 <= i < fields.len() implies field_in_order(
                mode,
                generated_at,
                #[trigger] fields[i],
            ) by {
                if i < fewer.len() {
                    assert(fewer[i] == fields[i]);
                }
            }
        }
        if forall|i: int|
            0 <= i < fields.len() ==> field_in_order(mode, generated_at, #[trigger] fields[i]) {
            assert(field_in_order(mode, generated_at, fields[fields.len() - 1]));
            assert forall|i: int| 0 <= i < fewer.len() implies field_in_order(
                mode,
                generated_at,
                #[trigger] fewer[i],
            ) by {
                assert(field_in_order(mode, generated_at, fields[i]));
            }
        }
    }
}

/// The devices that are known to have a status are those that say so, and the others that
/// may have it are those whose status is not known.
pub proof fn devices_are_counted_by_status(devices: Seq<DeviceModel>, status: DeviceStatus)
    ensures
        count_status(devices, status) == devices.filter(
            |d: DeviceModel| known_value(d.status) == Some(status),
        ).len(),
        count_unknown(devices) == devices.filter(|d: DeviceModel| d.status is Unknown).len(),
    decreases devices.len(),
{
    reveal(Seq::filter);
    if devices.len() > 0 {
        devices_are_counted_by_status(devices.drop_last(), status);
    }
}

/// A value is known where it is live or made up, and has a time where it is live.
pub proof fn observed_values_are_known<T>(value: T, at: u64, reason: UnknownReason)
    ensures
        known_value(Observed::Live { value, observed_at_unix_ms: at }) == Some(value),
        known_value(Observed::Simulated { value }) == Some(value),
        known_value(Observed::<T>::Unknown { reason }) is None,
        observation_time(Observed::Live { value, observed_at_unix_ms: at }) == Some(at),
        observation_time(Observed::Simulated { value }) is None,
        observation_time(Observed::<T>::Unknown { reason }) is None,
        provenance_of(Observed::Live { value, observed_at_unix_ms: at }) is Live,
        provenance_of(Observed::Simulated { value }) is Simulated,
        provenance_of(Observed::<T>::Unknown { reason }) is Unknown,
{
}

/// A snapshot is valid exactly when it is of the first version, names its organization, its
/// devices and what was used are in order, the plan is not blank, every field fits it, and
/// the numbers of devices agree with the devices.
pub proof fn snapshots_are_valid_exactly_when_in_order(s: SnapshotModel)
    ensures
        snapshot_error(s) is None <==> {
            &&& s.schema_version == 1
            &&& !text::is_blank(s.organization_id)
            &&& devices_in_order(s.devices)
            &&& known_value(s.usage) is Some ==> usage_in_order(known_value(s.usage)->0)
            &&& known_value(s.subscription) is Some ==> !text::is_blank(
                known_value(s.subscription)->0.plan,
            )
            &&& forall|i: int|
                0 <= i < tagged_fields(s).len() ==> field_in_order(
                    s.mode,
                    s.generated_at_unix_ms,
                    #[trigger] tagged_fields(s)[i],
                )
            &&& numbers_agree(s)
        },
        s.schema_version != 1 ==> snapshot_error(s) == Some(
            ContractRefusal::UnsupportedVersion(s.schema_version),
        ),
        s.schema_version == 1 && text::is_blank(s.organization_id) ==> snapshot_error(s) == Some(
            ContractRefusal::MissingOrganization,
        ),
{
    lemma_devices_in_order(s.devices);
    if known_value(s.usage) is Some {
        lemma_usage_in_order(known_value(s.usage)->0);
    }
    lemma_fields_in_order(s.mode, s.generated_at_unix_ms, tagged_fields(s));
    devices_are_counted_by_status(s.devices, DeviceStatus::Connected);
    devices_are_counted_by_status(s.devices, DeviceStatus::Revoked);
}

/// The total is the number of devices listed; each of the two others is at least the number
/// of devices that say so and at most that and those that say nothing; and together they are
/// no more than all.
pub open spec fn numbers_agree(s: SnapshotModel) -> bool {
    let n = s.devices.len();
    let silent = s.devices.filter(|d: DeviceModel| d.status is Unknown).len();
    let connected = s.devices.filter(
        |d: DeviceModel| known_value(d.status) == Some(DeviceStatus::Connected),
    ).len();
    let revoked = s.devices.filter(
        |d: DeviceModel| known_value(d.status) == Some(DeviceStatus::Revoked),
    ).len();
    let total = known_value(s.total_devices);
    let up = known_value(s.connected_devices);
    let out = known_value(s.revoked_devices);
    &&& n <= 0xffff_ffff
    &&& total is Some ==> total->0 == n
    &&& up is Some ==> connected <= up->0 <= connected + silent
    &&& out is Some ==> revoked <= out->0 <= revoked + silent
    &&& up is Some && out is Some ==> up->0 + out->0 <= n
}

/// Every field is told once, by its path: five of the snapshot, six of each device, and two
/// more.
pub proof fn every_field_is_told_by_its_path(s: SnapshotModel, i: int)
    requires
        0 <= i < s.devices.len(),
    ensures
        ({
            let f = tagged_fields(s);
            let n = s.devices.len() as int;
            let d = s.devices[i];
            let path = "devices["@ + text::decimal_text(i as nat) + "]"@;
            &&& f.len() == 7 + 6 * n
            &&& f[0] == field_at("organization.name"@, s.name)
            &&& f[1] == field_at("organization.viewer_role"@, s.viewer_role)
            &&& f[2] == field_at("summary.total_devices"@, s.total_devices)
            &&& f[3] == field_at("summary.connected_devices"@, s.connected_devices)
            &&& f[4] == field_at("summary.revoked_devices"@, s.revoked_devices)
            &&& f[5 + 6 * i] == field_at(path + ".status"@, d.status)
            &&& f[6 + 6 * i] == field_at(path + ".display_name"@, d.display_name)
            &&& f[7 + 6 * i] == field_at(path + ".os"@, d.os)
            &&& f[8 + 6 * i] == field_at(path + ".agent_version"@, d.agent_version)
            &&& f[9 + 6 * i] == field_at(path + ".capabilities"@, d.capabilities)
            &&& f[10 + 6 * i] == field_at(path + ".last_seen_unix_ms"@, d.last_seen_unix_ms)
            &&& f[5 + 6 * n] == field_at("subscription"@, s.subscription)
            &&& f[6 + 6 * n] == field_at("usage"@, s.usage)
        }),
{
    let all = all_device_fields(s.devices);
    lemma_device_fields(s.devices, i);
    let d = device_fields(i, s.devices[i]);
    let f = tagged_fields(s);
    let n = s.devices.len() as int;
    assert(f[5 + 6 * i] == all[6 * i]);
    assert(f[6 + 6 * i] == all[6 * i + 1]);
    assert(f[7 + 6 * i] == all[6 * i + 2]);
    assert(f[8 + 6 * i] == all[6 * i + 3]);
    assert(f[9 + 6 * i] == all[6 * i + 4]);
    assert(f[10 + 6 * i] == all[6 * i + 5]);
    let first = seq![
        field_at("organization.name"@, s.name),
        field_at("organization.viewer_role"@, s.viewer_role),
        field_at("summary.total_devices"@, s.total_devices),
        field_at("summary.connected_devices"@, s.connected_devices),
        field_at("summary.revoked_devices"@, s.revoked_devices),
    ];
    let last = seq![field_at("subscription"@, s.subscription), field_at("usage"@, s.usage)];
    assert(f == first + all + last);
    assert(f[0] == first[0] && f[1] == first[1] && f[2] == first[2] && f[3] == first[3] && f[4]
        == first[4]);
    assert(f[5 + 6 * n] == last[0] && f[6 + 6 * n] == last[1]);
}

proof fn lemma_device_fields(devices: Seq<DeviceModel>, i: int)
    requires
        0 <= i < devices.len(),
    ensures
        all_device_fields(devices).len() == 6 * devices.len(),
        forall|k: int|
            0 <= k < 6 ==> #[trigger] device_fields(i, devices[i])[k] == all_device_fields(
                devices,
            )[6 * i + k],
    decreases devices.len(),
{
    let fewer = devices.drop_last();
    let all = all_device_fields(devices);
    let before = all_device_fields(fewer);
    let last = device_fields(devices.len() - 1, devices.last());
    assert(last.len() == 6);
    if fewer.len() > 0 {
        let j = if i < fewer.len() {
            i
        } else {
            0
        };
        lemma_device_fields(fewer, j);
        if i < fewer.len() {
            assert(fewer[i] == devices[i]);
            assert forall|k: int| 0 <= k < 6 implies #[trigger] device_fields(i, devices[i])[k]
                == all[6 * i + k] by {
                assert(device_fields(i, fewer[i])[k] == before[6 * i + k]);
            }
        }
    }
    assert(before.len() == 6 * fewer.len());
    if i == fewer.len() {
        assert(devices[i] == devices.last());
        assert forall|k: int| 0 <= k < 6 implies #[trigger] device_fields(i, devices[i])[k]
            == all[6 * i + k] by {
            assert(all[6 * i + k] == last[k]);
        }
    }
}

/// A device is revoked where that was stored, else connected exactly where a link of its own
/// organization is; what devices do not report is said not to be reported.
pub proof fn devices_are_shown_as_they_are(
    record: TenantDeviceRecord,
    connected: Seq<DeviceKey>,
    organization_id: Seq<char>,
    now: u64,
)
    ensures
        ({
            let linked = exists|i: int|
                0 <= i < connected.len() && (#[trigger] connected[i]).organization_id@
                    == organization_id && connected[i].device_id@ == record.device_id@;
            let d = projected_device(record, connected, organization_id, now);
            &&& d.device_id == record.device_id@
            &&& d.workspace_ids == record.workspace_ids.items()
            &&& d.status is Live
            &&& d.status->observed_at_unix_ms == now
            &&& d.status->Live_value is Revoked <==> record.revoked
            &&& d.status->Live_value is Connected <==> !record.revoked && linked
            &&& d.status->Live_value is NotConnected <==> !record.revoked && !linked
            &&& d.display_name == (Observed::<Seq<char>>::Unknown {
                reason: UnknownReason::NotReported,
            })
            &&& d.os == (Observed::<Seq<char>>::Unknown { reason: UnknownReason::NotReported })
            &&& d.agent_version == (Observed::<Seq<char>>::Unknown {
                reason: UnknownReason::NotReported,
            })
            &&& d.capabilities == (Observed::<Seq<Seq<char>>>::Unknown {
                reason: UnknownReason::NotReported,
            })
            &&& d.last_seen_unix_ms == (Observed::<u64>::Unknown {
                reason: UnknownReason::NotImplemented,
            })
        }),
{
}

/// A live snapshot is of now and shows what is stored for the organization: its name, the
/// role of who looks, the devices and their numbers, the plan and what was used where they
/// are known.
pub proof fn snapshots_show_what_is_stored(input: TenantProjectionInput<'_>)
    ensures
        ({
            let s = projected_snapshot(input);
            let now = input.now_unix_ms;
            let devices = projected_devices(
                input.devices@,
                input.connected_devices@,
                input.organization.organization_id@,
                now,
            );
            let live = |n: nat| Observed::Live { value: n as u32, observed_at_unix_ms: now };
            &&& s.schema_version == 1
            &&& s.mode is Live
            &&& s.generated_at_unix_ms == now
            &&& s.organization_id == input.organization.organization_id@
            &&& s.name == (Observed::Live {
                value: input.organization.name@,
                observed_at_unix_ms: now,
            })
            &&& s.viewer_role is Live
            &&& s.viewer_role->Live_value is Viewer <==> input.viewer_role is Viewer
            &&& s.viewer_role->Live_value is Operator <==> input.viewer_role is Operator
            &&& s.viewer_role->Live_value is Admin <==> input.viewer_role is Admin
            &&& s.devices == devices
            &&& s.total_devices == live(devices.len())
            &&& s.connected_devices == live(
                devices.filter(
                    |d: DeviceModel| known_value(d.status) == Some(DeviceStatus::Connected),
                ).len(),
            )
            &&& s.revoked_devices == live(
                devices.filter(
                    |d: DeviceModel| known_value(d.status) == Some(DeviceStatus::Revoked),
                ).len(),
            )
            &&& input.subscription matches Some(record) ==> s.subscription == (Observed::Live {
                value: PlanModel { plan: record.plan@, active: record.active },
                observed_at_unix_ms: now,
            })
            &&& input.subscription is None ==> s.subscription == (Observed::<PlanModel>::Unknown {
                reason: UnknownReason::NotReported,
            })
            &&& input.usage is None ==> s.usage == (Observed::<Seq<UsageModel>>::Unknown {
                reason: UnknownReason::NotImplemented,
            })
            &&& input.usage is Some ==> s.usage is Live && s.usage->observed_at_unix_ms == now
        }),
{
    let devices = projected_devices(
        input.devices@,
        input.connected_devices@,
        input.organization.organization_id@,
        input.now_unix_ms,
    );
    devices_are_counted_by_status(devices, DeviceStatus::Connected);
    devices_are_counted_by_status(devices, DeviceStatus::Revoked);
}

/// What was used is shown row by row.
pub proof fn usage_is_shown_row_by_row(rows: Seq<UsageRecord>, i: int)
    requires
        0 <= i < rows.len(),
    ensures
        projected_usage(rows).len() == rows.len(),
        projected_usage(rows)[i].usage_key == rows[i].usage_key@,
        projected_usage(rows)[i].units == rows[i].units,
        rows[i].workspace_id is None ==> projected_usage(rows)[i].workspace_id is None,
        rows[i].workspace_id matches Some(name) ==> projected_usage(rows)[i].workspace_id == Some(
            name@,
        ),
{
}

/// A snapshot of one organization is made exactly when no record of another is among what is
/// given, the devices can be counted, and what it shows is in order.
pub proof fn snapshots_are_made_exactly_when_of_one_organization(input: TenantProjectionInput<'_>)
    ensures
        ({
            let own = input.organization.organization_id@;
            let pure = {
                &&& forall|i: int|
                    0 <= i < input.devices@.len() ==> (#[trigger] input.devices@[i]).organization_id@
                        == own
                &&& input.subscription is Some ==> input.subscription->0.organization_id@ == own
                &&& input.usage is Some ==> forall|i: int|
                    0 <= i < input.usage->0@.len() ==> (
                    #[trigger] input.usage->0@[i]).organization_id@ == own
            };
            let r = projection_error(input);
            &&& r is None <==> pure && input.devices@.len() <= 0xffff_ffff && snapshot_error(
                projected_snapshot(input),
            ) is None
            &&& !pure ==> r == Some(ContractRefusal::CrossTenantRecord)
            &&& pure && input.devices@.len() > 0xffff_ffff ==> r == Some(
                ContractRefusal::TooManyDevices,
            )
        }),
{
}

/// The preview is made up throughout, with three devices, one of each status, of which one
/// is counted as connected and one as revoked.
pub proof fn previews_are_made_up(now: u64)
    ensures
        ({
            let s = preview_model(now);
            &&& s.schema_version == 1
            &&& s.mode is Simulated
            &&& s.generated_at_unix_ms == now
            &&& s.organization_id == "org_example"@
            &&& s.name == (Observed::Simulated { value: "Example Organization"@ })
            &&& s.viewer_role == (Observed::Simulated { value: ViewerRole::Admin })
            &&& s.total_devices == (Observed::Simulated { value: 3u32 })
            &&& s.connected_devices == (Observed::Simulated { value: 1u32 })
            &&& s.revoked_devices == (Observed::Simulated { value: 1u32 })
            &&& s.devices.len() == 3
            &&& s.devices[0].device_id == "dev_example_laptop"@
            &&& s.devices[0].status == (Observed::Simulated { value: DeviceStatus::NotConnected })
            &&& s.devices[0].os == (Observed::Simulated { value: "Linux"@ })
            &&& s.devices[1].device_id == "dev_example_retired"@
            &&& s.devices[1].status == (Observed::Simulated { value: DeviceStatus::Revoked })
            &&& s.devices[1].os == (Observed::Simulated { value: "Windows"@ })
            &&& s.devices[2].device_id == "dev_example_workstation"@
            &&& s.devices[2].status == (Observed::Simulated { value: DeviceStatus::Connected })
            &&& s.devices[2].os == (Observed::Simulated { value: "Windows"@ })
            &&& s.subscription == (Observed::Simulated {
                value: PlanModel { plan: "preview"@, active: false },
            })
            &&& s.usage is Unknown
            &&& forall|i: int|
                0 <= i < 3 ==> (#[trigger] s.devices[i]).workspace_ids == seq!["ws_example"@]
                    && s.devices[i].agent_version == (Observed::Simulated {
                    value: "0.0.0-preview"@,
                }) && s.devices[i].capabilities == (Observed::Simulated {
                    value: seq!["filesystem.read"@, "git.status"@],
                }) && s.devices[i].last_seen_unix_ms is Unknown
        }),
{
}

} // verus!
