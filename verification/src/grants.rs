//! Grants: bearer tokens with scopes, and the pairing codes that buy one.
//! Tokens and codes are kept as hashes only.

use vstd::prelude::*;
use vstd::utf8::*;

use crate::codec;
use crate::crypto;
use crate::ids;
use crate::ids::TextSet;
use crate::shown;
use crate::table::Table;
use crate::table;
use crate::text;

verus! {

/// The random bytes of a token.
pub const TOKEN_BYTES: usize = 32;

/// The random bytes of a pairing code.
pub const PAIRING_CODE_BYTES: usize = 20;

/// How often the lock of a stored state is tried for.
pub const LOCK_ATTEMPTS: usize = 100;

/// How long to wait between two tries.
pub const LOCK_DELAY_MS: u64 = 10;

#[derive(Debug)]
pub struct GrantRecord {
    pub grant_id: String,
    pub organization_id: String,
    pub actor_id: String,
    pub workspace_ids: TextSet,
    pub scopes: TextSet,
    pub issued_at_unix_ms: u64,
    pub expires_at_unix_ms: u64,
    pub revoked: bool,
}

/// A grant with its token, which is shown this once.
pub struct IssuedGrant {
    token: String,
    pub record: GrantRecord,
}

#[derive(Debug)]
pub struct PairingRecord {
    pub pairing_id: String,
    pub scopes: TextSet,
    pub created_at_unix_ms: u64,
    pub expires_at_unix_ms: u64,
    pub grant_ttl_ms: u64,
}

/// A pairing with its code, which is shown this once.
pub struct IssuedPairing {
    code: String,
    pub record: PairingRecord,
}

#[derive(Debug)]
pub struct OAuthClientRecord {
    pub redirect_uris: Vec<String>,
    pub client_name: String,
    pub registered_at_unix_ms: u64,
}

#[derive(Debug, PartialEq, Eq)]
pub enum AuthError {
    InvalidState,
    InvalidTtl,
    InvalidActor,
    InvalidTenant,
    NoScopes,
    Unauthorized,
    InsufficientScope(String),
    Poisoned,
    LockTimeout,
}

/// The grants, pairings and clients of a device.
#[derive(Debug)]
pub struct GrantStore {
    pub device_id: String,
    pub grants: Table<GrantRecord>,
    pub pairings: Table<PairingRecord>,
    pub oauth_clients: Table<OAuthClientRecord>,
}

// ---------------------------------------------------------------------------
// Models

/// An error by what it says.
#[verifier::ext_equal]
pub enum Refusal {
    InvalidState,
    InvalidTtl,
    InvalidActor,
    InvalidTenant,
    NoScopes,
    Unauthorized,
    InsufficientScope(Seq<char>),
    Poisoned,
    LockTimeout,
}

impl View for AuthError {
    type V = Refusal;

    open spec fn view(&self) -> Refusal {
        match self {
            AuthError::InvalidState => Refusal::InvalidState,
            AuthError::InvalidTtl => Refusal::InvalidTtl,
            AuthError::InvalidActor => Refusal::InvalidActor,
            AuthError::InvalidTenant => Refusal::InvalidTenant,
            AuthError::NoScopes => Refusal::NoScopes,
            AuthError::Unauthorized => Refusal::Unauthorized,
            AuthError::InsufficientScope(scope) => Refusal::InsufficientScope(scope@),
            AuthError::Poisoned => Refusal::Poisoned,
            AuthError::LockTimeout => Refusal::LockTimeout,
        }
    }
}

/// A grant by its texts.
#[verifier::ext_equal]
pub struct GrantView {
    pub grant_id: Seq<char>,
    pub organization_id: Seq<char>,
    pub actor_id: Seq<char>,
    pub workspace_ids: Set<Seq<char>>,
    pub scopes: Set<Seq<char>>,
    pub issued_at_unix_ms: u64,
    pub expires_at_unix_ms: u64,
    pub revoked: bool,
}

impl View for GrantRecord {
    type V = GrantView;

    open spec fn view(&self) -> GrantView {
        GrantView {
            grant_id: self.grant_id@,
            organization_id: self.organization_id@,
            actor_id: self.actor_id@,
            workspace_ids: self.workspace_ids@,
            scopes: self.scopes@,
            issued_at_unix_ms: self.issued_at_unix_ms,
            expires_at_unix_ms: self.expires_at_unix_ms,
            revoked: self.revoked,
        }
    }
}

#[verifier::ext_equal]
pub struct PairingView {
    pub pairing_id: Seq<char>,
    pub scopes: Set<Seq<char>>,
    pub created_at_unix_ms: u64,
    pub expires_at_unix_ms: u64,
    pub grant_ttl_ms: u64,
}

impl View for PairingRecord {
    type V = PairingView;

    open spec fn view(&self) -> PairingView {
        PairingView {
            pairing_id: self.pairing_id@,
            scopes: self.scopes@,
            created_at_unix_ms: self.created_at_unix_ms,
            expires_at_unix_ms: self.expires_at_unix_ms,
            grant_ttl_ms: self.grant_ttl_ms,
        }
    }
}

#[verifier::ext_equal]
pub struct ClientView {
    pub redirect_uris: Seq<Seq<char>>,
    pub client_name: Seq<char>,
    pub registered_at_unix_ms: u64,
}

impl View for OAuthClientRecord {
    type V = ClientView;

    open spec fn view(&self) -> ClientView {
        ClientView {
            redirect_uris: text::texts(self.redirect_uris@),
            client_name: self.client_name@,
            registered_at_unix_ms: self.registered_at_unix_ms,
        }
    }
}

pub open spec fn grant_views(m: Map<Seq<char>, GrantRecord>) -> Map<Seq<char>, GrantView> {
    m.map_values(|g: GrantRecord| g@)
}

pub open spec fn pairing_views(m: Map<Seq<char>, PairingRecord>) -> Map<Seq<char>, PairingView> {
    m.map_values(|p: PairingRecord| p@)
}

pub open spec fn client_views(m: Map<Seq<char>, OAuthClientRecord>) -> Map<Seq<char>, ClientView> {
    m.map_values(|c: OAuthClientRecord| c@)
}

/// The key that a token or a code is kept under.
pub open spec fn token_hash(token: Seq<char>) -> Seq<char> {
    codec::hex_text(crypto::sha256_of(encode_utf8(token)))
}

fn token_hash_hex(token: &str) -> (hash: String)
    ensures
        hash@ == token_hash(token@),
{
    let digest = crypto::sha256(token.as_bytes());
    codec::to_hex(digest.as_slice())
}

/// Whether to try for a lock again that was held each of so many times.
pub fn lock_held(tried: usize) -> (r: Result<(), AuthError>)
    ensures
        r is Ok == (tried < LOCK_ATTEMPTS),
        r is Err ==> r->Err_0 == AuthError::LockTimeout,
{
    if tried < LOCK_ATTEMPTS {
        Ok(())
    } else {
        Err(AuthError::LockTimeout)
    }
}

/// A grant as it is written for a log.
pub open spec fn grant_line(record: GrantRecord) -> Seq<char> {
    "GrantRecord { grant_id: "@
        + shown::quoted_text(record.grant_id@)
        + ", organization_id: "@
        + shown::quoted_text(record.organization_id@)
        + ", actor_id: "@
        + shown::quoted_text(record.actor_id@)
        + ", workspace_ids: {"@
        + shown::quoted_list(record.workspace_ids.items())
        + "}, scopes: {"@
        + shown::quoted_list(record.scopes.items())
        + "}, issued_at_unix_ms: "@
        + text::decimal_text(record.issued_at_unix_ms as nat)
        + ", expires_at_unix_ms: "@
        + text::decimal_text(record.expires_at_unix_ms as nat)
        + ", revoked: "@
        + shown::bool_line(record.revoked)
        + " }"@
}

fn grant_shown(record: &GrantRecord) -> (line: Vec<char>)
    ensures
        line@ == grant_line(*record),
{
    let mut line = text::chars_of("GrantRecord { grant_id: ");
    shown::push_quoted(&mut line, record.grant_id.as_str());
    text::push_text(&mut line, ", organization_id: ");
    shown::push_quoted(&mut line, record.organization_id.as_str());
    text::push_text(&mut line, ", actor_id: ");
    shown::push_quoted(&mut line, record.actor_id.as_str());
    text::push_text(&mut line, ", workspace_ids: {");
    shown::push_members(&mut line, &record.workspace_ids);
    text::push_text(&mut line, "}, scopes: {");
    shown::push_members(&mut line, &record.scopes);
    text::push_text(&mut line, "}, issued_at_unix_ms: ");
    shown::push_number(&mut line, record.issued_at_unix_ms);
    text::push_text(&mut line, ", expires_at_unix_ms: ");
    shown::push_number(&mut line, record.expires_at_unix_ms);
    text::push_text(&mut line, ", revoked: ");
    shown::push_bool(&mut line, record.revoked);
    text::push_text(&mut line, " }");
    line
}

/// A pairing as it is written for a log.
pub open spec fn pairing_line(record: PairingRecord) -> Seq<char> {
    "PairingRecord { pairing_id: "@
        + shown::quoted_text(record.pairing_id@)
        + ", scopes: {"@
        + shown::quoted_list(record.scopes.items())
        + "}, created_at_unix_ms: "@
        + text::decimal_text(record.created_at_unix_ms as nat)
        + ", expires_at_unix_ms: "@
        + text::decimal_text(record.expires_at_unix_ms as nat)
        + ", grant_ttl_ms: "@
        + text::decimal_text(record.grant_ttl_ms as nat)
        + " }"@
}

fn pairing_shown(record: &PairingRecord) -> (line: Vec<char>)
    ensures
        line@ == pairing_line(*record),
{
    let mut line = text::chars_of("PairingRecord { pairing_id: ");
    shown::push_quoted(&mut line, record.pairing_id.as_str());
    text::push_text(&mut line, ", scopes: {");
    shown::push_members(&mut line, &record.scopes);
    text::push_text(&mut line, "}, created_at_unix_ms: ");
    shown::push_number(&mut line, record.created_at_unix_ms);
    text::push_text(&mut line, ", expires_at_unix_ms: ");
    shown::push_number(&mut line, record.expires_at_unix_ms);
    text::push_text(&mut line, ", grant_ttl_ms: ");
    shown::push_number(&mut line, record.grant_ttl_ms);
    text::push_text(&mut line, " }");
    line
}

impl IssuedGrant {
    pub closed spec fn secret(&self) -> Seq<char> {
        self.token@
    }

    pub closed spec fn granted(&self) -> GrantRecord {
        self.record
    }

    pub fn token(&self) -> (token: &str)
        ensures
            token@ == self.secret(),
    {
        self.token.as_str()
    }

    pub fn record(&self) -> (record: &GrantRecord)
        ensures
            *record == self.granted(),
    {
        &self.record
    }

    /// The grant for a log: the token is left out.
    pub fn redacted(&self) -> (line: String)
        ensures
            line@ == "IssuedGrant { token: \"<redacted>\", record: "@ + grant_line(self.granted())
                + " }"@,
    {
        let mut line: Vec<char> = text::chars_of("IssuedGrant { token: \"<redacted>\", record: ");
        let record = grant_shown(&self.record);
        text::push_all(&mut line, record.as_slice());
        text::push_text(&mut line, " }");
        text::string_of(line.as_slice())
    }
}

impl IssuedPairing {
    pub closed spec fn secret(&self) -> Seq<char> {
        self.code@
    }

    pub closed spec fn pairing(&self) -> PairingRecord {
        self.record
    }

    pub fn code(&self) -> (code: &str)
        ensures
            code@ == self.secret(),
    {
        self.code.as_str()
    }

    pub fn record(&self) -> (record: &PairingRecord)
        ensures
            *record == self.pairing(),
    {
        &self.record
    }

    /// The pairing for a log: the code is left out.
    pub fn redacted(&self) -> (line: String)
        ensures
            line@ == "IssuedPairing { code: \"<redacted>\", record: "@ + pairing_line(self.pairing())
                + " }"@,
    {
        let mut line: Vec<char> = text::chars_of("IssuedPairing { code: \"<redacted>\", record: ");
        let record = pairing_shown(&self.record);
        text::push_all(&mut line, record.as_slice());
        text::push_text(&mut line, " }");
        text::string_of(line.as_slice())
    }
}

impl GrantRecord {
    /// The same record once more.
    pub fn copy(&self) -> (record: GrantRecord)
        ensures
            record@ == self@,
    {
        GrantRecord {
            grant_id: self.grant_id.clone(),
            organization_id: self.organization_id.clone(),
            actor_id: self.actor_id.clone(),
            workspace_ids: self.workspace_ids.copy(),
            scopes: self.scopes.copy(),
            issued_at_unix_ms: self.issued_at_unix_ms,
            expires_at_unix_ms: self.expires_at_unix_ms,
            revoked: self.revoked,
        }
    }
}

impl PairingRecord {
    pub fn copy(&self) -> (record: PairingRecord)
        ensures
            record@ == self@,
    {
        PairingRecord {
            pairing_id: self.pairing_id.clone(),
            scopes: self.scopes.copy(),
            created_at_unix_ms: self.created_at_unix_ms,
            expires_at_unix_ms: self.expires_at_unix_ms,
            grant_ttl_ms: self.grant_ttl_ms,
        }
    }
}

impl OAuthClientRecord {
    pub fn copy(&self) -> (record: OAuthClientRecord)
        ensures
            record@ == self@,
    {
        let mut redirect_uris: Vec<String> = Vec::new();
        let mut i: usize = 0;
        while i < self.redirect_uris.len()
            invariant
                i <= self.redirect_uris@.len(),
                redirect_uris@.len() == i,
                forall|k: int| 0 <= k < i ==> redirect_uris@[k]@ == self.redirect_uris@[k]@,
            decreases self.redirect_uris@.len() - i,
        {
            redirect_uris.push(self.redirect_uris[i].clone());
            i = i + 1;
        }
        proof {
            assert(text::texts(redirect_uris@) =~= text::texts(self.redirect_uris@));
        }
        OAuthClientRecord {
            redirect_uris,
            client_name: self.client_name.clone(),
            registered_at_unix_ms: self.registered_at_unix_ms,
        }
    }
}

// ---------------------------------------------------------------------------
// Rules

/// What is wrong with a stored grant, if anything.
pub open spec fn grant_defect(grant: GrantView) -> Option<Refusal> {
    if !ids::is_id(grant.organization_id) {
        Some(Refusal::InvalidTenant)
    } else if !ids::is_id(grant.actor_id) {
        Some(Refusal::InvalidActor)
    } else if !ids::all_ids(grant.workspace_ids) {
        Some(Refusal::InvalidTenant)
    } else {
        None
    }
}

/// Why no grant is issued, if none is.
pub open spec fn issue_refusal(
    organization_id: Seq<char>,
    actor_id: Seq<char>,
    workspace_ids: Seq<Seq<char>>,
    scopes: Seq<Seq<char>>,
    ttl_ms: u64,
    now_unix_ms: u64,
) -> Option<Refusal> {
    if ttl_ms == 0 {
        Some(Refusal::InvalidTtl)
    } else if !ids::is_id(organization_id) {
        Some(Refusal::InvalidTenant)
    } else if !ids::is_id(actor_id) {
        Some(Refusal::InvalidActor)
    } else if !ids::all_ids(ids::solid_set(workspace_ids)) {
        Some(Refusal::InvalidTenant)
    } else if ids::solid_set(scopes) == Set::<Seq<char>>::empty() {
        Some(Refusal::NoScopes)
    } else if now_unix_ms + ttl_ms > u64::MAX {
        Some(Refusal::InvalidTtl)
    } else {
        None
    }
}

/// Why no pairing is created, if none is.
pub open spec fn pairing_refusal(
    scopes: Seq<Seq<char>>,
    pairing_ttl_ms: u64,
    grant_ttl_ms: u64,
    now_unix_ms: u64,
) -> Option<Refusal> {
    if pairing_ttl_ms == 0 || grant_ttl_ms == 0 {
        Some(Refusal::InvalidTtl)
    } else if ids::solid_set(scopes) == Set::<Seq<char>>::empty() {
        Some(Refusal::NoScopes)
    } else if now_unix_ms + pairing_ttl_ms > u64::MAX {
        Some(Refusal::InvalidTtl)
    } else {
        None
    }
}

/// The grant can be used at a time.
pub open spec fn is_live(grant: GrantView, now_unix_ms: u64) -> bool {
    !grant.revoked && now_unix_ms < grant.expires_at_unix_ms
}

/// Why a token is not good for a scope, if it is not.
pub open spec fn token_refusal(
    grants: Map<Seq<char>, GrantView>,
    token: Seq<char>,
    required_scope: Seq<char>,
    now_unix_ms: u64,
) -> Option<Refusal> {
    let grant = grants[token_hash(token)];
    if token.len() == 0 || required_scope.len() == 0 {
        Some(Refusal::Unauthorized)
    } else if !grants.contains_key(token_hash(token)) || !is_live(grant, now_unix_ms) {
        Some(Refusal::Unauthorized)
    } else if !grant.scopes.contains(required_scope) && !grant.scopes.contains("*"@) {
        Some(Refusal::InsufficientScope(required_scope))
    } else {
        None
    }
}

/// A token is good for every scope of a grant until the grant expires, and it is
/// that grant that it is good for.
pub open spec fn serves(
    grants: Map<Seq<char>, GrantView>,
    token: Seq<char>,
    record: GrantView,
) -> bool {
    &&& grants.contains_key(token_hash(token))
    &&& grants[token_hash(token)] == record
    &&& forall|scope: Seq<char>, now_unix_ms: u64|
        scope.len() > 0 && (record.scopes.contains(scope) || record.scopes.contains("*"@))
            && now_unix_ms < record.expires_at_unix_ms ==> #[trigger] token_refusal(
            grants,
            token,
            scope,
            now_unix_ms,
        ) is None
}

/// Why a token is not good for a scope within a tenant, if it is not.
pub open spec fn tenant_token_refusal(
    grants: Map<Seq<char>, GrantView>,
    token: Seq<char>,
    required_scope: Seq<char>,
    organization_id: Seq<char>,
    workspace_id: Option<Seq<char>>,
    now_unix_ms: u64,
) -> Option<Refusal> {
    let grant = grants[token_hash(token)];
    if token_refusal(grants, token, required_scope, now_unix_ms) is Some {
        token_refusal(grants, token, required_scope, now_unix_ms)
    } else if grant.organization_id != organization_id {
        Some(Refusal::Unauthorized)
    } else if workspace_id is Some && !grant.workspace_ids.contains(workspace_id->0) {
        Some(Refusal::Unauthorized)
    } else {
        None
    }
}

/// Why a code buys no grant, if it does not.
pub open spec fn redeem_refusal(
    pairings: Map<Seq<char>, PairingView>,
    code: Seq<char>,
    actor_id: Seq<char>,
    now_unix_ms: u64,
) -> Option<Refusal> {
    let pairing = pairings[token_hash(code)];
    if code.len() == 0 || text::is_blank(actor_id) {
        Some(Refusal::Unauthorized)
    } else if !pairings.contains_key(token_hash(code)) || pairing.expires_at_unix_ms
        <= now_unix_ms {
        Some(Refusal::Unauthorized)
    } else if now_unix_ms + pairing.grant_ttl_ms > u64::MAX {
        Some(Refusal::InvalidTtl)
    } else {
        None
    }
}

/// The grant has this id and, where one is given, belongs to this organization.
pub open spec fn names_grant(
    grant: GrantView,
    grant_id: Seq<char>,
    organization_id: Option<Seq<char>>,
) -> bool {
    grant.grant_id == grant_id && (organization_id is Some ==> grant.organization_id
        == organization_id->0)
}

/// The grant is kept under this key, and no other of the name comes before it.
pub open spec fn is_first_grant(
    grants: Map<Seq<char>, GrantView>,
    key: Seq<char>,
    grant_id: Seq<char>,
    organization_id: Option<Seq<char>>,
) -> bool {
    &&& grants.contains_key(key)
    &&& names_grant(grants[key], grant_id, organization_id)
    &&& forall|other: Seq<char>| #[trigger]
        grants.contains_key(other) && names_grant(grants[other], grant_id, organization_id)
            ==> other == key || table::text_before(key, other)
}

/// Some grant has the name.
pub open spec fn has_grant(
    grants: Map<Seq<char>, GrantView>,
    grant_id: Seq<char>,
    organization_id: Option<Seq<char>>,
) -> bool {
    exists|key: Seq<char>| #[trigger]
        grants.contains_key(key) && names_grant(grants[key], grant_id, organization_id)
}

/// The grants that are still good.
pub open spec fn live_grants(grants: Map<Seq<char>, GrantView>, now_unix_ms: u64) -> Map<
    Seq<char>,
    GrantView,
> {
    grants.restrict(
        Set::new(|key: Seq<char>| grants.contains_key(key) && is_live(grants[key], now_unix_ms)),
    )
}

/// The pairings that have not expired.
pub open spec fn live_pairings(pairings: Map<Seq<char>, PairingView>, now_unix_ms: u64) -> Map<
    Seq<char>,
    PairingView,
> {
    pairings.restrict(
        Set::new(
            |key: Seq<char>|
                pairings.contains_key(key) && now_unix_ms < pairings[key].expires_at_unix_ms,
        ),
    )
}

/// Two stores differ in their grants at most.
pub open spec fn same_but_grants(a: GrantStore, b: GrantStore) -> bool {
    a.device_id == b.device_id && a.pairings == b.pairings && a.oauth_clients == b.oauth_clients
}

// ---------------------------------------------------------------------------
// The store

fn random_id(bytes: [u8; 16]) -> (id: String)
    ensures
        id@ == codec::hex_text(bytes@),
{
    codec::to_hex(bytes.as_slice())
}

/// The first grant in key order with a defect, if any, says what is wrong.
pub open spec fn grants_defect(grants: Map<Seq<char>, GrantView>, refusal: Refusal) -> bool {
    exists|key: Seq<char>|
        {
            &&& #[trigger] grants.contains_key(key)
            &&& grant_defect(grants[key]) == Some(refusal)
            &&& forall|other: Seq<char>| #[trigger]
                grants.contains_key(other) && grant_defect(grants[other]) is Some ==> other == key
                    || table::text_before(key, other)
        }
}

/// No stored grant has a defect.
pub open spec fn grants_sound(grants: Map<Seq<char>, GrantView>) -> bool {
    forall|key: Seq<char>| #[trigger]
        grants.contains_key(key) ==> grant_defect(grants[key]) is None
}

fn check_grant(record: &GrantRecord) -> (r: Result<(), AuthError>)
    ensures
        r is Err == grant_defect(record@) is Some,
        r is Err ==> r->Err_0@ == grant_defect(record@)->0,
{
    if !ids::valid_id(record.organization_id.as_str()) {
        return Err(AuthError::InvalidTenant);
    }
    if !ids::valid_id(record.actor_id.as_str()) {
        return Err(AuthError::InvalidActor);
    }
    if !ids::every_id(&record.workspace_ids) {
        return Err(AuthError::InvalidTenant);
    }
    Ok(())
}

fn validate_grants(grants: &Table<GrantRecord>) -> (r: Result<(), AuthError>)
    ensures
        r is Ok == grants_sound(grant_views(grants@)),
        r is Err ==> grants_defect(grant_views(grants@), r->Err_0@),
{
    let ghost all = grant_views(grants@);
    let n: usize = grants.len();
    let mut i: usize = 0;
    while i < n
        invariant
            i <= n,
            n == grants.keys().len(),
            all == grant_views(grants@),
            grants@.dom() == grants.keys().to_set(),
            forall|a: int, b: int|
                0 <= a < b < grants.keys().len() ==> table::text_before(
                    #[trigger] grants.keys()[a],
                    #[trigger] grants.keys()[b],
                ),
            forall|k: int|
                0 <= k < i ==> grant_defect(grants@[#[trigger] grants.keys()[k]]@) is None,
        decreases n - i,
    {
        let record = grants.value_at(i);
        if let Err(error) = check_grant(record) {
            proof {
                let key = grants.keys()[i as int];
                assert(grants@.contains_key(key));
                assert(all.contains_key(key));
                assert forall|other: Seq<char>| #[trigger]
                    all.contains_key(other) && grant_defect(all[other]) is Some implies other == key
                    || table::text_before(key, other) by {
                    let k = choose|k: int|
                        0 <= k < grants.keys().len() && grants.keys()[k] == other;
                    assert(grants@.dom().contains(other));
                    assert(grants.keys().contains(other));
                    assert(k >= i);
                }
            }
            return Err(error);
        }
        i = i + 1;
    }
    proof {
        assert forall|key: Seq<char>| #[trigger] all.contains_key(key) implies grant_defect(
            all[key],
        ) is None by {
            assert(grants@.dom().contains(key));
            assert(grants.keys().contains(key));
            let k = choose|k: int| 0 <= k < grants.keys().len() && grants.keys()[k] == key;
            assert(grant_defect(grants@[grants.keys()[k]]@) is None);
        }
    }
    Ok(())
}

impl GrantStore {
    /// An empty store for a device that has just been set up.
    pub fn create() -> (store: GrantStore)
        ensures
            store.device_id@.len() == 32,
            codec::is_hex(store.device_id@),
            store.grants@ == Map::<Seq<char>, GrantRecord>::empty(),
            store.pairings@ == Map::<Seq<char>, PairingRecord>::empty(),
            store.oauth_clients@ == Map::<Seq<char>, OAuthClientRecord>::empty(),
    {
        let bytes = crypto::random_bytes::<16>();
        proof {
            codec::hex_round_trip(bytes@);
        }
        GrantStore {
            device_id: random_id(bytes),
            grants: Table::new(),
            pairings: Table::new(),
            oauth_clients: Table::new(),
        }
    }

    /// A store over what was read back, if that is sound.
    pub fn restore(
        version: u32,
        device_id: String,
        grants: Table<GrantRecord>,
        pairings: Table<PairingRecord>,
        oauth_clients: Table<OAuthClientRecord>,
    ) -> (store: Result<GrantStore, AuthError>)
        ensures
            store is Ok == (version == 1 && device_id@.len() > 0 && grants_sound(
                grant_views(grants@),
            )),
            store is Err && (version != 1 || device_id@.len() == 0) ==> store->Err_0@
                == Refusal::InvalidState,
            store is Err && version == 1 && device_id@.len() > 0 ==> grants_defect(
                grant_views(grants@),
                store->Err_0@,
            ),
            store is Ok ==> store->Ok_0 == (GrantStore {
                device_id,
                grants,
                pairings,
                oauth_clients,
            }),
    {
        if version != 1 || device_id.as_str().is_empty() {
            return Err(AuthError::InvalidState);
        }
        if let Err(error) = validate_grants(&grants) {
            return Err(error);
        }
        Ok(GrantStore { device_id, grants, pairings, oauth_clients })
    }

    pub fn device_id(&self) -> (id: String)
        ensures
            id@ == self.device_id@,
    {
        self.device_id.clone()
    }

    pub fn register_oauth_client(
        &mut self,
        client_id: String,
        redirect_uris: Vec<String>,
        client_name: String,
        registered_at_unix_ms: u64,
    ) -> (client: Result<OAuthClientRecord, AuthError>)
        ensures
            final(self).device_id == old(self).device_id,
            final(self).grants == old(self).grants,
            final(self).pairings == old(self).pairings,
            client is Ok == (!text::is_blank(client_id@) && !text::is_blank(client_name@)
                && redirect_uris@.len() > 0),
            client is Err ==> client->Err_0@ == Refusal::Unauthorized && *final(self) == *old(self),
            client is Ok ==> {
                let record = (ClientView {
                    redirect_uris: text::texts(redirect_uris@),
                    client_name: client_name@,
                    registered_at_unix_ms,
                });
                &&& client->Ok_0@ == record
                &&& client_views(final(self).oauth_clients@) == client_views(
                    old(self).oauth_clients@,
                ).insert(client_id@, record)
            },
    {
        if text::blank(client_id.as_str()) || text::blank(client_name.as_str())
            || redirect_uris.len() == 0 {
            return Err(AuthError::Unauthorized);
        }
        let record = OAuthClientRecord { redirect_uris, client_name, registered_at_unix_ms };
        let kept = record.copy();
        let ghost before = self.oauth_clients@;
        self.oauth_clients.insert(client_id, kept);
        proof {
            assert(client_views(self.oauth_clients@) =~= client_views(before).insert(
                client_id@,
                record@,
            ));
        }
        Ok(record)
    }

    pub fn oauth_client(&self, client_id: &str) -> (client: Option<OAuthClientRecord>)
        ensures
            client is Some == (client_id@.len() > 0 && self.oauth_clients@.contains_key(client_id@)),
            client is Some ==> client->0@ == self.oauth_clients@[client_id@]@,
    {
        if client_id.is_empty() {
            return None;
        }
        match self.oauth_clients.get(client_id) {
            None => None,
            Some(record) => Some(record.copy()),
        }
    }

    /// A grant for an actor of the device itself.
    pub fn issue(&mut self, actor_id: String, scopes: Vec<String>, ttl_ms: u64, now_unix_ms: u64) -> (issued:
        Result<IssuedGrant, AuthError>)
        ensures
            same_but_grants(*final(self), *old(self)),
            issued is Err == issue_refusal(
                "local"@,
                actor_id@,
                Seq::empty(),
                text::texts(scopes@),
                ttl_ms,
                now_unix_ms,
            ) is Some,
            issued is Err ==> issued->Err_0@ == issue_refusal(
                "local"@,
                actor_id@,
                Seq::empty(),
                text::texts(scopes@),
                ttl_ms,
                now_unix_ms,
            )->0 && *final(self) == *old(self),
            issued is Ok ==> {
                let record = issued->Ok_0.granted()@;
                &&& record == (GrantView {
                    grant_id: record.grant_id,
                    organization_id: "local"@,
                    actor_id: actor_id@,
                    workspace_ids: Set::empty(),
                    scopes: ids::solid_set(text::texts(scopes@)),
                    issued_at_unix_ms: now_unix_ms,
                    expires_at_unix_ms: (now_unix_ms + ttl_ms) as u64,
                    revoked: false,
                })
                &&& grant_views(final(self).grants@) == grant_views(old(self).grants@).insert(
                    token_hash(issued->Ok_0.secret()),
                    record,
                )
                &&& serves(grant_views(final(self).grants@), issued->Ok_0.secret(), record)
                &&& !record.scopes.contains(Seq::empty())
            },
    {
        let none: Vec<String> = Vec::new();
        proof {
            assert(text::texts(none@) =~= Seq::<Seq<char>>::empty());
            assert(ids::solid_set(text::texts(none@)) =~= Set::<Seq<char>>::empty());
        }
        self.issue_for_tenant(text::copied("local"), actor_id, none, scopes, ttl_ms, now_unix_ms)
    }

    /// A grant for an actor of an organization, with a fresh token.
    pub fn issue_for_tenant(
        &mut self,
        organization_id: String,
        actor_id: String,
        workspace_ids: Vec<String>,
        scopes: Vec<String>,
        ttl_ms: u64,
        now_unix_ms: u64,
    ) -> (issued: Result<IssuedGrant, AuthError>)
        ensures
            same_but_grants(*final(self), *old(self)),
            issued is Err == issue_refusal(
                organization_id@,
                actor_id@,
                text::texts(workspace_ids@),
                text::texts(scopes@),
                ttl_ms,
                now_unix_ms,
            ) is Some,
            issued is Err ==> issued->Err_0@ == issue_refusal(
                organization_id@,
                actor_id@,
                text::texts(workspace_ids@),
                text::texts(scopes@),
                ttl_ms,
                now_unix_ms,
            )->0 && *final(self) == *old(self),
            issued is Ok ==> {
                let record = issued->Ok_0.granted()@;
                &&& record == (GrantView {
                    grant_id: record.grant_id,
                    organization_id: organization_id@,
                    actor_id: actor_id@,
                    workspace_ids: ids::solid_set(text::texts(workspace_ids@)),
                    scopes: ids::solid_set(text::texts(scopes@)),
                    issued_at_unix_ms: now_unix_ms,
                    expires_at_unix_ms: (now_unix_ms + ttl_ms) as u64,
                    revoked: false,
                })
                &&& grant_views(final(self).grants@) == grant_views(old(self).grants@).insert(
                    token_hash(issued->Ok_0.secret()),
                    record,
                )
                &&& serves(grant_views(final(self).grants@), issued->Ok_0.secret(), record)
                &&& !record.scopes.contains(Seq::empty())
            },
    {
        self.issue_with(
            organization_id,
            actor_id,
            workspace_ids,
            scopes,
            ttl_ms,
            now_unix_ms,
            crypto::random_bytes::<32>(),
            crypto::random_bytes::<16>(),
        )
    }

    /// A grant whose token and id are made of given bytes.
    pub fn issue_with(
        &mut self,
        organization_id: String,
        actor_id: String,
        workspace_ids: Vec<String>,
        scopes: Vec<String>,
        ttl_ms: u64,
        now_unix_ms: u64,
        token_bytes: [u8; 32],
        id_bytes: [u8; 16],
    ) -> (issued: Result<IssuedGrant, AuthError>)
        ensures
            same_but_grants(*final(self), *old(self)),
            issued is Err == issue_refusal(
                organization_id@,
                actor_id@,
                text::texts(workspace_ids@),
                text::texts(scopes@),
                ttl_ms,
                now_unix_ms,
            ) is Some,
            issued is Err ==> issued->Err_0@ == issue_refusal(
                organization_id@,
                actor_id@,
                text::texts(workspace_ids@),
                text::texts(scopes@),
                ttl_ms,
                now_unix_ms,
            )->0 && *final(self) == *old(self),
            issued is Ok ==> {
                let record = (GrantView {
                    grant_id: codec::hex_text(id_bytes@),
                    organization_id: organization_id@,
                    actor_id: actor_id@,
                    workspace_ids: ids::solid_set(text::texts(workspace_ids@)),
                    scopes: ids::solid_set(text::texts(scopes@)),
                    issued_at_unix_ms: now_unix_ms,
                    expires_at_unix_ms: (now_unix_ms + ttl_ms) as u64,
                    revoked: false,
                });
                &&& issued->Ok_0.secret() == codec::url_base64(token_bytes@)
                &&& issued->Ok_0.granted()@ == record
                &&& grant_views(final(self).grants@) == grant_views(old(self).grants@).insert(
                    token_hash(codec::url_base64(token_bytes@)),
                    record,
                )
                &&& serves(grant_views(final(self).grants@), issued->Ok_0.secret(), record)
                &&& !record.scopes.contains(Seq::empty())
            },
    {
        if ttl_ms == 0 {
            return Err(AuthError::InvalidTtl);
        }
        if !ids::valid_id(organization_id.as_str()) {
            return Err(AuthError::InvalidTenant);
        }
        if !ids::valid_id(actor_id.as_str()) {
            return Err(AuthError::InvalidActor);
        }
        let workspaces = ids::collect_solid(&workspace_ids);
        if !ids::every_id(&workspaces) {
            return Err(AuthError::InvalidTenant);
        }
        let scope_set = ids::collect_solid(&scopes);
        if scope_set.is_empty() {
            return Err(AuthError::NoScopes);
        }
        if ttl_ms > u64::MAX - now_unix_ms {
            return Err(AuthError::InvalidTtl);
        }
        let token = codec::to_url_base64(token_bytes.as_slice());
        let hash = token_hash_hex(token.as_str());
        let record = GrantRecord {
            grant_id: random_id(id_bytes),
            organization_id,
            actor_id,
            workspace_ids: workspaces,
            scopes: scope_set,
            issued_at_unix_ms: now_unix_ms,
            expires_at_unix_ms: now_unix_ms + ttl_ms,
            revoked: false,
        };
        let kept = record.copy();
        let ghost before = self.grants@;
        self.grants.insert(hash, kept);
        proof {
            assert(grant_views(self.grants@) =~= grant_views(before).insert(hash@, record@));
            issued_tokens_are_good(grant_views(before), token@, record@);
            assert(text::is_blank(Seq::empty()));
        }
        Ok(IssuedGrant { token, record })
    }

    /// A pairing with a fresh code.
    pub fn create_pairing(
        &mut self,
        scopes: Vec<String>,
        pairing_ttl_ms: u64,
        grant_ttl_ms: u64,
        now_unix_ms: u64,
    ) -> (issued: Result<IssuedPairing, AuthError>)
        ensures
            final(self).device_id == old(self).device_id,
            final(self).grants == old(self).grants,
            final(self).oauth_clients == old(self).oauth_clients,
            issued is Err == pairing_refusal(
                text::texts(scopes@),
                pairing_ttl_ms,
                grant_ttl_ms,
                now_unix_ms,
            ) is Some,
            issued is Err ==> issued->Err_0@ == pairing_refusal(
                text::texts(scopes@),
                pairing_ttl_ms,
                grant_ttl_ms,
                now_unix_ms,
            )->0 && *final(self) == *old(self),
            issued is Ok ==> {
                let record = issued->Ok_0.pairing()@;
                &&& record == (PairingView {
                    pairing_id: record.pairing_id,
                    scopes: ids::solid_set(text::texts(scopes@)),
                    created_at_unix_ms: now_unix_ms,
                    expires_at_unix_ms: (now_unix_ms + pairing_ttl_ms) as u64,
                    grant_ttl_ms,
                })
                &&& pairing_views(final(self).pairings@) == pairing_views(
                    old(self).pairings@,
                ).insert(token_hash(issued->Ok_0.secret()), record)
                &&& issued->Ok_0.secret().len() > 0
            },
    {
        self.create_pairing_with(
            scopes,
            pairing_ttl_ms,
            grant_ttl_ms,
            now_unix_ms,
            crypto::random_bytes::<20>(),
            crypto::random_bytes::<16>(),
        )
    }

    /// A pairing whose code and id are made of given bytes.
    pub fn create_pairing_with(
        &mut self,
        scopes: Vec<String>,
        pairing_ttl_ms: u64,
        grant_ttl_ms: u64,
        now_unix_ms: u64,
        code_bytes: [u8; 20],
        id_bytes: [u8; 16],
    ) -> (issued: Result<IssuedPairing, AuthError>)
        ensures
            final(self).device_id == old(self).device_id,
            final(self).grants == old(self).grants,
            final(self).oauth_clients == old(self).oauth_clients,
            issued is Err == pairing_refusal(
                text::texts(scopes@),
                pairing_ttl_ms,
                grant_ttl_ms,
                now_unix_ms,
            ) is Some,
            issued is Err ==> issued->Err_0@ == pairing_refusal(
                text::texts(scopes@),
                pairing_ttl_ms,
                grant_ttl_ms,
                now_unix_ms,
            )->0 && *final(self) == *old(self),
            issued is Ok ==> {
                let record = (PairingView {
                    pairing_id: codec::hex_text(id_bytes@),
                    scopes: ids::solid_set(text::texts(scopes@)),
                    created_at_unix_ms: now_unix_ms,
                    expires_at_unix_ms: (now_unix_ms + pairing_ttl_ms) as u64,
                    grant_ttl_ms,
                });
                &&& issued->Ok_0.secret() == codec::url_base64(code_bytes@)
                &&& issued->Ok_0.pairing()@ == record
                &&& pairing_views(final(self).pairings@) == pairing_views(
                    old(self).pairings@,
                ).insert(token_hash(codec::url_base64(code_bytes@)), record)
                &&& issued->Ok_0.secret().len() > 0
            },
    {
        if pairing_ttl_ms == 0 || grant_ttl_ms == 0 {
            return Err(AuthError::InvalidTtl);
        }
        let scope_set = ids::collect_solid(&scopes);
        if scope_set.is_empty() {
            return Err(AuthError::NoScopes);
        }
        if pairing_ttl_ms > u64::MAX - now_unix_ms {
            return Err(AuthError::InvalidTtl);
        }
        let code = codec::to_url_base64(code_bytes.as_slice());
        let record = PairingRecord {
            pairing_id: random_id(id_bytes),
            scopes: scope_set,
            created_at_unix_ms: now_unix_ms,
            expires_at_unix_ms: now_unix_ms + pairing_ttl_ms,
            grant_ttl_ms,
        };
        let kept = record.copy();
        let hash = token_hash_hex(code.as_str());
        let ghost before = self.pairings@;
        self.pairings.insert(hash, kept);
        proof {
            assert(pairing_views(self.pairings@) =~= pairing_views(before).insert(hash@, record@));
        }
        Ok(IssuedPairing { code, record })
    }

    /// The grant of a token, if it is good for a scope.
    pub fn validate(&self, token: &str, required_scope: &str, now_unix_ms: u64) -> (grant: Result<
        GrantRecord,
        AuthError,
    >)
        ensures
            grant is Err == token_refusal(
                grant_views(self.grants@),
                token@,
                required_scope@,
                now_unix_ms,
            ) is Some,
            grant is Err ==> grant->Err_0@ == token_refusal(
                grant_views(self.grants@),
                token@,
                required_scope@,
                now_unix_ms,
            )->0,
            grant is Ok ==> grant->Ok_0@ == grant_views(self.grants@)[token_hash(token@)],
    {
        if token.is_empty() || required_scope.is_empty() {
            return Err(AuthError::Unauthorized);
        }
        let hash = token_hash_hex(token);
        match self.grants.get(hash.as_str()) {
            None => Err(AuthError::Unauthorized),
            Some(record) => {
                if record.revoked || record.expires_at_unix_ms <= now_unix_ms {
                    return Err(AuthError::Unauthorized);
                }
                if !record.scopes.contains(required_scope) && !record.scopes.contains("*") {
                    return Err(AuthError::InsufficientScope(text::copied(required_scope)));
                }
                Ok(record.copy())
            },
        }
    }

    /// Turns a pairing code into a grant, once.
    pub fn redeem_pairing(&mut self, code: &str, actor_id: String, now_unix_ms: u64) -> (issued:
        Result<IssuedGrant, AuthError>)
        ensures
            final(self).device_id == old(self).device_id,
            final(self).oauth_clients == old(self).oauth_clients,
            issued is Err == redeem_refusal(
                pairing_views(old(self).pairings@),
                code@,
                actor_id@,
                now_unix_ms,
            ) is Some,
            issued is Err ==> issued->Err_0@ == redeem_refusal(
                pairing_views(old(self).pairings@),
                code@,
                actor_id@,
                now_unix_ms,
            )->0 && *final(self) == *old(self),
            issued is Ok ==> {
                let record = issued->Ok_0.granted()@;
                let pairing = pairing_views(old(self).pairings@)[token_hash(code@)];
                &&& record == (GrantView {
                    grant_id: record.grant_id,
                    organization_id: "local"@,
                    actor_id: actor_id@,
                    workspace_ids: Set::empty(),
                    scopes: pairing.scopes,
                    issued_at_unix_ms: now_unix_ms,
                    expires_at_unix_ms: (now_unix_ms + pairing.grant_ttl_ms) as u64,
                    revoked: false,
                })
                &&& pairing_views(final(self).pairings@) == pairing_views(
                    old(self).pairings@,
                ).remove(token_hash(code@))
                &&& grant_views(final(self).grants@) == grant_views(old(self).grants@).insert(
                    token_hash(issued->Ok_0.secret()),
                    record,
                )
                &&& serves(grant_views(final(self).grants@), issued->Ok_0.secret(), record)
            },
    {
        self.redeem_pairing_with(
            code,
            actor_id,
            now_unix_ms,
            crypto::random_bytes::<32>(),
            crypto::random_bytes::<16>(),
        )
    }

    /// Turns a pairing code into a grant whose token and id are made of given
    /// bytes.
    pub fn redeem_pairing_with(
        &mut self,
        code: &str,
        actor_id: String,
        now_unix_ms: u64,
        token_bytes: [u8; 32],
        id_bytes: [u8; 16],
    ) -> (issued: Result<IssuedGrant, AuthError>)
        ensures
            final(self).device_id == old(self).device_id,
            final(self).oauth_clients == old(self).oauth_clients,
            issued is Err == redeem_refusal(
                pairing_views(old(self).pairings@),
                code@,
                actor_id@,
                now_unix_ms,
            ) is Some,
            issued is Err ==> issued->Err_0@ == redeem_refusal(
                pairing_views(old(self).pairings@),
                code@,
                actor_id@,
                now_unix_ms,
            )->0 && *final(self) == *old(self),
            issued is Ok ==> {
                let pairing = pairing_views(old(self).pairings@)[token_hash(code@)];
                let record = (GrantView {
                    grant_id: codec::hex_text(id_bytes@),
                    organization_id: "local"@,
                    actor_id: actor_id@,
                    workspace_ids: Set::empty(),
                    scopes: pairing.scopes,
                    issued_at_unix_ms: now_unix_ms,
                    expires_at_unix_ms: (now_unix_ms + pairing.grant_ttl_ms) as u64,
                    revoked: false,
                });
                &&& issued->Ok_0.secret() == codec::url_base64(token_bytes@)
                &&& issued->Ok_0.granted()@ == record
                &&& pairing_views(final(self).pairings@) == pairing_views(
                    old(self).pairings@,
                ).remove(token_hash(code@))
                &&& grant_views(final(self).grants@) == grant_views(old(self).grants@).insert(
                    token_hash(codec::url_base64(token_bytes@)),
                    record,
                )
                &&& serves(grant_views(final(self).grants@), issued->Ok_0.secret(), record)
            },
    {
        if code.is_empty() || text::blank(actor_id.as_str()) {
            return Err(AuthError::Unauthorized);
        }
        let code_hash = token_hash_hex(code);
        let (scopes, expires_at_unix_ms) = match self.pairings.get(code_hash.as_str()) {
            None => {
                return Err(AuthError::Unauthorized);
            },
            Some(pairing) => {
                if pairing.expires_at_unix_ms <= now_unix_ms {
                    return Err(AuthError::Unauthorized);
                }
                if pairing.grant_ttl_ms > u64::MAX - now_unix_ms {
                    return Err(AuthError::InvalidTtl);
                }
                (pairing.scopes.copy(), now_unix_ms + pairing.grant_ttl_ms)
            },
        };
        let token = codec::to_url_base64(token_bytes.as_slice());
        let record = GrantRecord {
            grant_id: random_id(id_bytes),
            organization_id: text::copied("local"),
            actor_id,
            workspace_ids: TextSet::new(),
            scopes,
            issued_at_unix_ms: now_unix_ms,
            expires_at_unix_ms,
            revoked: false,
        };
        let kept = record.copy();
        let hash = token_hash_hex(token.as_str());
        let ghost grants_before = self.grants@;
        let ghost pairings_before = self.pairings@;
        let _ = self.pairings.remove(code_hash.as_str());
        self.grants.insert(hash, kept);
        proof {
            assert(pairing_views(self.pairings@) =~= pairing_views(pairings_before).remove(
                code_hash@,
            ));
            assert(grant_views(self.grants@) =~= grant_views(grants_before).insert(
                hash@,
                record@,
            ));
            issued_tokens_are_good(grant_views(grants_before), token@, record@);
        }
        Ok(IssuedGrant { token, record })
    }

    /// The grant of a token, if it is good for a scope within a tenant.
    pub fn validate_for_tenant(
        &self,
        token: &str,
        required_scope: &str,
        organization_id: &str,
        workspace_id: Option<&str>,
        now_unix_ms: u64,
    ) -> (grant: Result<GrantRecord, AuthError>)
        ensures
            grant is Err == tenant_token_refusal(
                grant_views(self.grants@),
                token@,
                required_scope@,
                organization_id@,
                ids::optional_str(workspace_id),
                now_unix_ms,
            ) is Some,
            grant is Err ==> grant->Err_0@ == tenant_token_refusal(
                grant_views(self.grants@),
                token@,
                required_scope@,
                organization_id@,
                ids::optional_str(workspace_id),
                now_unix_ms,
            )->0,
            grant is Ok ==> grant->Ok_0@ == grant_views(self.grants@)[token_hash(token@)],
    {
        let record = match self.validate(token, required_scope, now_unix_ms) {
            Err(error) => {
                return Err(error);
            },
            Ok(record) => record,
        };
        if !text::same_text(record.organization_id.as_str(), organization_id) {
            return Err(AuthError::Unauthorized);
        }
        if let Some(workspace) = workspace_id {
            if !record.workspace_ids.contains(workspace) {
                return Err(AuthError::Unauthorized);
            }
        }
        Ok(record)
    }

    /// The place of the first grant of a name.
    fn find_grant(&self, grant_id: &str, organization_id: Option<&str>) -> (found: Option<usize>)
        ensures
            found is Some == has_grant(
                grant_views(self.grants@),
                grant_id@,
                ids::optional_str(organization_id),
            ),
            found is Some ==> found->0 < self.grants.keys().len() && is_first_grant(
                grant_views(self.grants@),
                self.grants.keys()[found->0 as int],
                grant_id@,
                ids::optional_str(organization_id),
            ),
    {
        let ghost all = grant_views(self.grants@);
        let ghost org = ids::optional_str(organization_id);
        let n: usize = self.grants.len();
        let mut i: usize = 0;
        while i < n
            invariant
                i <= n,
                n == self.grants.keys().len(),
                all == grant_views(self.grants@),
                org == ids::optional_str(organization_id),
                self.grants@.dom() == self.grants.keys().to_set(),
                forall|a: int, b: int|
                    0 <= a < b < self.grants.keys().len() ==> table::text_before(
                        #[trigger] self.grants.keys()[a],
                        #[trigger] self.grants.keys()[b],
                    ),
                forall|k: int|
                    0 <= k < i ==> !names_grant(
                        self.grants@[#[trigger] self.grants.keys()[k]]@,
                        grant_id@,
                        org,
                    ),
            decreases n - i,
        {
            let record = self.grants.value_at(i);
            let fits = match organization_id {
                None => true,
                Some(organization) => text::same_text(
                    record.organization_id.as_str(),
                    organization,
                ),
            };
            if fits && text::same_text(record.grant_id.as_str(), grant_id) {
                proof {
                    let key = self.grants.keys()[i as int];
                    assert(self.grants.keys().contains(key));
                    assert(self.grants@.dom().contains(key));
                    assert(all.contains_key(key));
                    assert forall|other: Seq<char>| #[trigger]
                        all.contains_key(other) && names_grant(
                            all[other],
                            grant_id@,
                            org,
                        ) implies other == key || table::text_before(key, other) by {
                        assert(self.grants@.dom().contains(other));
                        assert(self.grants.keys().contains(other));
                        let k = choose|k: int|
                            0 <= k < self.grants.keys().len() && self.grants.keys()[k] == other;
                        assert(k >= i);
                    }
                }
                return Some(i);
            }
            i = i + 1;
        }
        proof {
            assert forall|key: Seq<char>| #[trigger] all.contains_key(key) implies !names_grant(
                all[key],
                grant_id@,
                org,
            ) by {
                assert(self.grants@.dom().contains(key));
                assert(self.grants.keys().contains(key));
                let k = choose|k: int|
                    0 <= k < self.grants.keys().len() && self.grants.keys()[k] == key;
                assert(!names_grant(self.grants@[self.grants.keys()[k]]@, grant_id@, org));
            }
        }
        None
    }

    pub fn revoke(&mut self, grant_id: &str) -> (revoked: bool)
        ensures
            same_but_grants(*final(self), *old(self)),
            revokes(
                grant_views(old(self).grants@),
                grant_views(final(self).grants@),
                grant_id@,
                None,
                revoked,
            ),
    {
        self.revoke_matching(grant_id, None)
    }

    pub fn revoke_for_tenant(&mut self, grant_id: &str, organization_id: &str) -> (revoked: Result<
        bool,
        AuthError,
    >)
        ensures
            same_but_grants(*final(self), *old(self)),
            revoked is Ok == ids::is_id(organization_id@),
            revoked is Err ==> revoked->Err_0@ == Refusal::InvalidTenant && *final(self) == *old(
                self,
            ),
            revoked is Ok ==> revokes(
                grant_views(old(self).grants@),
                grant_views(final(self).grants@),
                grant_id@,
                Some(organization_id@),
                revoked->Ok_0,
            ),
    {
        if !ids::valid_id(organization_id) {
            return Err(AuthError::InvalidTenant);
        }
        Ok(self.revoke_matching(grant_id, Some(organization_id)))
    }

    fn revoke_matching(&mut self, grant_id: &str, organization_id: Option<&str>) -> (revoked: bool)
        ensures
            same_but_grants(*final(self), *old(self)),
            revokes(
                grant_views(old(self).grants@),
                grant_views(final(self).grants@),
                grant_id@,
                ids::optional_str(organization_id),
                revoked,
            ),
    {
        match self.find_grant(grant_id, organization_id) {
            None => false,
            Some(i) => {
                let ghost before = self.grants@;
                let key = self.grants.key_at(i).clone();
                let record = self.grants.remove_at(i);
                let revoked = GrantRecord { revoked: true, ..record };
                proof {
                    assert(revoked@ == (GrantView { revoked: true, ..before[key@]@ }));
                }
                self.grants.insert(key, revoked);
                proof {
                    assert(grant_views(self.grants@) =~= grant_views(before).insert(
                        key@,
                        GrantView { revoked: true, ..grant_views(before)[key@] },
                    ));
                }
                true
            },
        }
    }

    /// Moves the end of a tenant's grant.
    pub fn expire_for_tenant(
        &mut self,
        grant_id: &str,
        organization_id: &str,
        expires_at_unix_ms: u64,
    ) -> (moved: Result<bool, AuthError>)
        ensures
            same_but_grants(*final(self), *old(self)),
            !ids::is_id(organization_id@) ==> moved is Err && moved->Err_0@
                == Refusal::InvalidTenant,
            moved is Err ==> *final(self) == *old(self),
            ids::is_id(organization_id@) ==> ({
                let grants = grant_views(old(self).grants@);
                let org = Some(organization_id@);
                &&& !has_grant(grants, grant_id@, org) ==> moved == Ok::<bool, AuthError>(false)
                    && *final(self) == *old(self)
                &&& forall|key: Seq<char>| #[trigger]
                    is_first_grant(grants, key, grant_id@, org) ==> if expires_at_unix_ms
                        < grants[key].issued_at_unix_ms {
                        moved is Err && moved->Err_0@ == Refusal::InvalidTtl
                    } else {
                        &&& moved == Ok::<bool, AuthError>(true)
                        &&& grant_views(final(self).grants@) == grants.insert(
                            key,
                            (GrantView { expires_at_unix_ms, ..grants[key] }),
                        )
                    }
            }),
    {
        if !ids::valid_id(organization_id) {
            return Err(AuthError::InvalidTenant);
        }
        match self.find_grant(grant_id, Some(organization_id)) {
            None => {
                proof {
                    lemma_no_first(grant_views(self.grants@), grant_id@, Some(organization_id@));
                }
                Ok(false)
            },
            Some(i) => {
                let ghost before = self.grants@;
                proof {
                    lemma_first_grant(
                        grant_views(before),
                        self.grants.keys()[i as int],
                        grant_id@,
                        Some(organization_id@),
                    );
                }
                if expires_at_unix_ms < self.grants.value_at(i).issued_at_unix_ms {
                    return Err(AuthError::InvalidTtl);
                }
                let key = self.grants.key_at(i).clone();
                let record = self.grants.remove_at(i);
                let changed = GrantRecord { expires_at_unix_ms, ..record };
                self.grants.insert(key, changed);
                proof {
                    assert(grant_views(self.grants@) =~= grant_views(before).insert(
                        key@,
                        GrantView { expires_at_unix_ms, ..grant_views(before)[key@] },
                    ));
                }
                Ok(true)
            },
        }
    }

    /// Takes a workspace out of a tenant's grant.
    pub fn remove_workspace_for_tenant(
        &mut self,
        grant_id: &str,
        organization_id: &str,
        workspace_id: &str,
    ) -> (removed: Result<bool, AuthError>)
        ensures
            same_but_grants(*final(self), *old(self)),
            removed is Ok == (ids::is_id(organization_id@) && ids::is_id(workspace_id@)),
            removed is Err ==> removed->Err_0@ == Refusal::InvalidTenant && *final(self) == *old(
                self,
            ),
            removed is Ok ==> ({
                let grants = grant_views(old(self).grants@);
                let org = Some(organization_id@);
                &&& !has_grant(grants, grant_id@, org) ==> removed == Ok::<bool, AuthError>(false)
                    && *final(self) == *old(self)
                &&& forall|key: Seq<char>| #[trigger]
                    is_first_grant(grants, key, grant_id@, org) ==> {
                        &&& removed == Ok::<bool, AuthError>(
                            grants[key].workspace_ids.contains(workspace_id@),
                        )
                        &&& grant_views(final(self).grants@) == grants.insert(
                            key,
                            (GrantView {
                                workspace_ids: grants[key].workspace_ids.remove(workspace_id@),
                                ..grants[key]
                            }),
                        )
                    }
            }),
    {
        if !ids::valid_id(organization_id) || !ids::valid_id(workspace_id) {
            return Err(AuthError::InvalidTenant);
        }
        match self.find_grant(grant_id, Some(organization_id)) {
            None => {
                proof {
                    lemma_no_first(grant_views(self.grants@), grant_id@, Some(organization_id@));
                }
                Ok(false)
            },
            Some(i) => {
                let ghost before = self.grants@;
                proof {
                    lemma_first_grant(
                        grant_views(before),
                        self.grants.keys()[i as int],
                        grant_id@,
                        Some(organization_id@),
                    );
                }
                let key = self.grants.key_at(i).clone();
                let record = self.grants.remove_at(i);
                let mut workspace_ids = record.workspace_ids;
                let removed = workspace_ids.remove(workspace_id);
                let changed = GrantRecord {
                    grant_id: record.grant_id,
                    organization_id: record.organization_id,
                    actor_id: record.actor_id,
                    workspace_ids,
                    scopes: record.scopes,
                    issued_at_unix_ms: record.issued_at_unix_ms,
                    expires_at_unix_ms: record.expires_at_unix_ms,
                    revoked: record.revoked,
                };
                self.grants.insert(key, changed);
                proof {
                    assert(grant_views(self.grants@) =~= grant_views(before).insert(
                        key@,
                        GrantView {
                            workspace_ids: grant_views(before)[key@].workspace_ids.remove(
                                workspace_id@,
                            ),
                            ..grant_views(before)[key@]
                        },
                    ));
                }
                Ok(removed)
            },
        }
    }

    /// Drops the grants that are revoked or over.
    pub fn prune_expired(&mut self, now_unix_ms: u64) -> (removed: usize)
        ensures
            same_but_grants(*final(self), *old(self)),
            grant_views(final(self).grants@) == live_grants(
                grant_views(old(self).grants@),
                now_unix_ms,
            ),
            removed == old(self).grants@.dom().len() - final(self).grants@.dom().len(),
    {
        let ghost all = self.grants@;
        let before: usize = self.grants.len();
        let mut i: usize = 0;
        let mut n: usize = before;
        while i < n
            invariant
                i <= n <= before,
                n == self.grants.keys().len(),
                self.device_id == old(self).device_id,
                self.oauth_clients == old(self).oauth_clients,
                self.pairings == old(self).pairings,
                forall|key: Seq<char>| #[trigger]
                    self.grants@.contains_key(key) ==> all.contains_key(key)
                        && self.grants@[key] == all[key],
                forall|key: Seq<char>| #[trigger]
                    all.contains_key(key) && !self.grants@.contains_key(key) ==> !is_live(all[key]@, now_unix_ms),
                forall|k: int|
                    0 <= k < i ==> is_live(all[#[trigger] self.grants.keys()[k]]@, now_unix_ms),
            decreases n - i,
        {
            let ghost keys = self.grants.keys();
            let record = self.grants.value_at(i);
            let _ = self.grants.len();
            if record.revoked || record.expires_at_unix_ms <= now_unix_ms {
                let _ = self.grants.remove_at(i);
                proof {
                    assert forall|k: int| 0 <= k < i implies #[trigger] self.grants.keys()[k]
                        == keys[k] by {}
                }
                n = n - 1;
            } else {
                i = i + 1;
            }
        }
        let left: usize = self.grants.len();
        proof {
            assert forall|key: Seq<char>| #[trigger] self.grants@.contains_key(key) implies is_live(all[key]@, now_unix_ms) by {
                assert(self.grants.keys().contains(key));
                let k = choose|k: int|
                    0 <= k < self.grants.keys().len() && self.grants.keys()[k] == key;
                assert(is_live(all[self.grants.keys()[k]]@, now_unix_ms));
            }
            assert(grant_views(self.grants@) =~= live_grants(grant_views(all), now_unix_ms));
        }
        before - left
    }

    /// Drops the pairings that are over.
    pub fn prune_expired_pairings(&mut self, now_unix_ms: u64) -> (removed: usize)
        ensures
            final(self).device_id == old(self).device_id,
            final(self).grants == old(self).grants,
            final(self).oauth_clients == old(self).oauth_clients,
            pairing_views(final(self).pairings@) == live_pairings(
                pairing_views(old(self).pairings@),
                now_unix_ms,
            ),
            removed == old(self).pairings@.dom().len() - final(self).pairings@.dom().len(),
    {
        let ghost all = self.pairings@;
        let before: usize = self.pairings.len();
        let mut i: usize = 0;
        let mut n: usize = before;
        while i < n
            invariant
                i <= n <= before,
                n == self.pairings.keys().len(),
                self.device_id == old(self).device_id,
                self.oauth_clients == old(self).oauth_clients,
                self.grants == old(self).grants,
                forall|key: Seq<char>| #[trigger]
                    self.pairings@.contains_key(key) ==> all.contains_key(key)
                        && self.pairings@[key] == all[key],
                forall|key: Seq<char>| #[trigger]
                    all.contains_key(key) && !self.pairings@.contains_key(key) ==> !(now_unix_ms < (all[key]@).expires_at_unix_ms),
                forall|k: int|
                    0 <= k < i ==> (now_unix_ms < (all[#[trigger] self.pairings.keys()[k]]@).expires_at_unix_ms),
            decreases n - i,
        {
            let ghost keys = self.pairings.keys();
            let record = self.pairings.value_at(i);
            let _ = self.pairings.len();
            if record.expires_at_unix_ms <= now_unix_ms {
                let _ = self.pairings.remove_at(i);
                proof {
                    assert forall|k: int| 0 <= k < i implies #[trigger] self.pairings.keys()[k]
                        == keys[k] by {}
                }
                n = n - 1;
            } else {
                i = i + 1;
            }
        }
        let left: usize = self.pairings.len();
        proof {
            assert forall|key: Seq<char>| #[trigger] self.pairings@.contains_key(key) implies (now_unix_ms < (all[key]@).expires_at_unix_ms) by {
                assert(self.pairings.keys().contains(key));
                let k = choose|k: int|
                    0 <= k < self.pairings.keys().len() && self.pairings.keys()[k] == key;
                assert((now_unix_ms < (all[self.pairings.keys()[k]]@).expires_at_unix_ms));
            }
            assert(pairing_views(self.pairings@) =~= live_pairings(pairing_views(all), now_unix_ms));
        }
        before - left
    }
}

/// The first grant of a name is revoked, where there is one.
pub open spec fn revokes(
    before: Map<Seq<char>, GrantView>,
    after: Map<Seq<char>, GrantView>,
    grant_id: Seq<char>,
    organization_id: Option<Seq<char>>,
    revoked: bool,
) -> bool {
    &&& revoked == has_grant(before, grant_id, organization_id)
    &&& !revoked ==> after == before
    &&& revoked ==> exists|key: Seq<char>| #[trigger]
        is_first_grant(before, key, grant_id, organization_id) && after == before.insert(
            key,
            (GrantView { revoked: true, ..before[key] }),
        )
}

proof fn lemma_no_first(
    grants: Map<Seq<char>, GrantView>,
    grant_id: Seq<char>,
    organization_id: Option<Seq<char>>,
)
    requires
        !has_grant(grants, grant_id, organization_id),
    ensures
        forall|key: Seq<char>| !#[trigger] is_first_grant(grants, key, grant_id, organization_id),
{
}

/// No two grants of a name both come first.
proof fn lemma_first_grant(
    grants: Map<Seq<char>, GrantView>,
    key: Seq<char>,
    grant_id: Seq<char>,
    organization_id: Option<Seq<char>>,
)
    requires
        is_first_grant(grants, key, grant_id, organization_id),
    ensures
        has_grant(grants, grant_id, organization_id),
        forall|other: Seq<char>| #[trigger]
            is_first_grant(grants, other, grant_id, organization_id) ==> other == key,
{
    assert forall|other: Seq<char>| #[trigger]
        is_first_grant(grants, other, grant_id, organization_id) implies other == key by {
        if other != key {
            assert(grants.contains_key(other) && grants.contains_key(key));
            table::lemma_order_strict(key, other);
        }
    }
}

// ---------------------------------------------------------------------------
// Laws

/// A token that was just issued is good for its scopes until it expires.
pub proof fn issued_tokens_are_good(
    before: Map<Seq<char>, GrantView>,
    token: Seq<char>,
    record: GrantView,
)
    requires
        token.len() > 0,
        !record.revoked,
    ensures
        serves(before.insert(token_hash(token), record), token, record),
{
}

/// The texts that a grant holds.
pub open spec fn texts_of(grant: GrantView) -> Set<Seq<char>> {
    set![grant.grant_id, grant.organization_id, grant.actor_id] + grant.workspace_ids
        + grant.scopes
}

/// The text is among the grants: as a key, or in one of them.
pub open spec fn holds_text(grants: Map<Seq<char>, GrantView>, held: Seq<char>) -> bool {
    exists|key: Seq<char>| #[trigger]
        grants.contains_key(key) && (held == key || texts_of(grants[key]).contains(held))
}

/// Of a token that is issued the store keeps the hash: every text among the grants
/// was there before, is that hash, or is in the grant that was issued.
pub proof fn tokens_are_kept_by_their_hashes(
    before: Map<Seq<char>, GrantView>,
    token: Seq<char>,
    record: GrantView,
    held: Seq<char>,
)
    ensures
        holds_text(before.insert(token_hash(token), record), held) ==> holds_text(before, held)
            || held == token_hash(token) || texts_of(record).contains(held),
{
    let after = before.insert(token_hash(token), record);
    if holds_text(after, held) {
        let key = choose|key: Seq<char>| #[trigger]
            after.contains_key(key) && (held == key || texts_of(after[key]).contains(held));
        if key != token_hash(token) {
            assert(before.contains_key(key) && after[key] == before[key]);
        }
    }
}

/// A pairing code buys one grant: once redeemed it is refused.
pub proof fn codes_are_redeemed_once(
    pairings: Map<Seq<char>, PairingView>,
    code: Seq<char>,
    actor_id: Seq<char>,
    now_unix_ms: u64,
)
    ensures
        redeem_refusal(pairings.remove(token_hash(code)), code, actor_id, now_unix_ms) == Some(
            Refusal::Unauthorized,
        ),
{
}

/// Once revoked, the token of the only grant of a name is refused for every
/// scope and at every time, and all other tokens are as good as before.
pub proof fn revoked_tokens_are_refused(
    before: Map<Seq<char>, GrantView>,
    after: Map<Seq<char>, GrantView>,
    grant_id: Seq<char>,
    organization_id: Option<Seq<char>>,
    token: Seq<char>,
    other: Seq<char>,
    scope: Seq<char>,
    now_unix_ms: u64,
)
    requires
        revokes(before, after, grant_id, organization_id, true),
        is_first_grant(before, token_hash(token), grant_id, organization_id),
        token_hash(other) != token_hash(token),
    ensures
        token_refusal(after, token, scope, now_unix_ms) == Some(Refusal::Unauthorized),
        token_refusal(after, other, scope, now_unix_ms) == token_refusal(
            before,
            other,
            scope,
            now_unix_ms,
        ),
{
    lemma_first_grant(before, token_hash(token), grant_id, organization_id);
}

/// Revoking within an organization leaves the grants of every other one alone.
pub proof fn tenants_revoke_their_own_grants(
    before: Map<Seq<char>, GrantView>,
    after: Map<Seq<char>, GrantView>,
    grant_id: Seq<char>,
    organization_id: Seq<char>,
    revoked: bool,
    key: Seq<char>,
)
    requires
        revokes(before, after, grant_id, Some(organization_id), revoked),
        before.contains_key(key),
        before[key].organization_id != organization_id,
    ensures
        after.contains_key(key),
        after[key] == before[key],
{
}

/// Pruning changes nothing about which tokens are good.
pub proof fn pruning_keeps_good_tokens(
    grants: Map<Seq<char>, GrantView>,
    token: Seq<char>,
    scope: Seq<char>,
    pruned_at: u64,
    now_unix_ms: u64,
)
    requires
        pruned_at <= now_unix_ms,
    ensures
        token_refusal(live_grants(grants, pruned_at), token, scope, now_unix_ms) == token_refusal(
            grants,
            token,
            scope,
            now_unix_ms,
        ),
{
}

/// A grant without workspaces is good for none.
pub proof fn no_workspace_authorizes_none(
    grants: Map<Seq<char>, GrantView>,
    token: Seq<char>,
    scope: Seq<char>,
    organization_id: Seq<char>,
    workspace_id: Seq<char>,
    now_unix_ms: u64,
)
    requires
        grants.contains_key(token_hash(token)),
        grants[token_hash(token)].workspace_ids == Set::<Seq<char>>::empty(),
    ensures
        tenant_token_refusal(
            grants,
            token,
            scope,
            organization_id,
            Some(workspace_id),
            now_unix_ms,
        ) is Some,
{
}

/// Tokens are kept by the digest of their bytes, in small sixteens.
pub proof fn tokens_are_hashed(token: Seq<char>)
    ensures
        token_hash(token) == codec::hex_text(crypto::sha256_of(encode_utf8(token))),
{
}

/// A token is good exactly when it and the scope are not empty, it was issued, was not
/// revoked, has not run out, and is for the scope or for every one. Where it is good but
/// for the scope, the scope is told; otherwise nothing is.
pub proof fn tokens_are_good_exactly_when_they_hold(
    grants: Map<Seq<char>, GrantView>,
    token: Seq<char>,
    scope: Seq<char>,
    now: u64,
)
    ensures
        ({
            let key = token_hash(token);
            let grant = grants[key];
            let known = token.len() > 0 && scope.len() > 0 && grants.contains_key(key)
                && !grant.revoked && now < grant.expires_at_unix_ms;
            let wide = grant.scopes.contains(scope) || grant.scopes.contains(seq!['*']);
            let r = token_refusal(grants, token, scope, now);
            &&& r is None <==> known && wide
            &&& known && !wide ==> r == Some(Refusal::InsufficientScope(scope))
            &&& !known ==> r == Some(Refusal::Unauthorized)
        }),
{
    reveal_strlit("*");
    assert("*"@ =~= seq!['*']);
}

/// A token is good for an organization exactly when it is good, is that organization's,
/// and is for the workspace where one is named.
pub proof fn tokens_are_good_for_their_organization(
    grants: Map<Seq<char>, GrantView>,
    token: Seq<char>,
    scope: Seq<char>,
    organization_id: Seq<char>,
    workspace_id: Option<Seq<char>>,
    now: u64,
)
    ensures
        ({
            let grant = grants[token_hash(token)];
            let good = token_refusal(grants, token, scope, now) is None;
            let own = grant.organization_id == organization_id && (workspace_id is None
                || grant.workspace_ids.contains(workspace_id->0));
            let r = tenant_token_refusal(
                grants,
                token,
                scope,
                organization_id,
                workspace_id,
                now,
            );
            &&& r is None <==> good && own
            &&& good && !own ==> r == Some(Refusal::Unauthorized)
            &&& !good ==> r == token_refusal(grants, token, scope, now)
        }),
{
}

/// Grants are issued exactly when they last for some time that can be told, are for an
/// organization, an actor and workspaces with names, and for some scope.
pub proof fn grants_are_issued_exactly_when_complete(
    organization_id: Seq<char>,
    actor_id: Seq<char>,
    workspace_ids: Seq<Seq<char>>,
    scopes: Seq<Seq<char>>,
    ttl_ms: u64,
    now: u64,
)
    ensures
        ({
            let named = forall|i: int|
                0 <= i < workspace_ids.len() && !text::is_blank(#[trigger] workspace_ids[i])
                    ==> ids::is_id(workspace_ids[i]);
            let scoped = exists|i: int|
                0 <= i < scopes.len() && !text::is_blank(#[trigger] scopes[i]);
            let r = issue_refusal(organization_id, actor_id, workspace_ids, scopes, ttl_ms, now);
            &&& r is None <==> ttl_ms > 0 && ids::is_id(organization_id) && ids::is_id(actor_id)
                && named && scoped && now + ttl_ms <= u64::MAX
            &&& ttl_ms == 0 ==> r == Some(Refusal::InvalidTtl)
            &&& ttl_ms > 0 && !ids::is_id(organization_id) ==> r == Some(Refusal::InvalidTenant)
            &&& ttl_ms > 0 && ids::is_id(organization_id) && !ids::is_id(actor_id) ==> r == Some(
                Refusal::InvalidActor,
            )
            &&& ttl_ms > 0 && ids::is_id(organization_id) && ids::is_id(actor_id) && !named ==> r
                == Some(Refusal::InvalidTenant)
            &&& ttl_ms > 0 && ids::is_id(organization_id) && ids::is_id(actor_id) && named
                && !scoped ==> r == Some(Refusal::NoScopes)
        }),
{
    lemma_named(workspace_ids);
    lemma_scoped(scopes);
}

proof fn lemma_named(list: Seq<Seq<char>>)
    ensures
        ids::all_ids(ids::solid_set(list)) <==> (forall|i: int|
            0 <= i < list.len() && !text::is_blank(#[trigger] list[i]) ==> ids::is_id(list[i])),
{
    let set = ids::solid_set(list);
    if ids::all_ids(set) {
        assert forall|i: int|
            0 <= i < list.len() && !text::is_blank(#[trigger] list[i]) implies ids::is_id(
            list[i],
        ) by {
            assert(list.contains(list[i]));
            assert(set.contains(list[i]));
        }
    }
    if forall|i: int|
        0 <= i < list.len() && !text::is_blank(#[trigger] list[i]) ==> ids::is_id(list[i]) {
        assert forall|t: Seq<char>| #[trigger] set.contains(t) implies ids::is_id(t) by {
            assert(list.contains(t));
            let i = choose|i: int| 0 <= i < list.len() && list[i] == t;
            assert(list[i] == t);
        }
    }
}

proof fn lemma_scoped(list: Seq<Seq<char>>)
    ensures
        ids::solid_set(list) != Set::<Seq<char>>::empty() <==> (exists|i: int|
            0 <= i < list.len() && !text::is_blank(#[trigger] list[i])),
{
    let set = ids::solid_set(list);
    if exists|i: int| 0 <= i < list.len() && !text::is_blank(#[trigger] list[i]) {
        let i = choose|i: int| 0 <= i < list.len() && !text::is_blank(#[trigger] list[i]);
        assert(list.contains(list[i]));
        assert(set.contains(list[i]));
    } else {
        assert forall|t: Seq<char>| !(#[trigger] set.contains(t)) by {
            if set.contains(t) {
                assert(list.contains(t));
                let i = choose|i: int| 0 <= i < list.len() && list[i] == t;
                assert(list[i] == t);
            }
        }
        assert(set =~= Set::<Seq<char>>::empty());
    }
}

/// Pairings are created exactly when they and their grants last for some time that can be
/// told, and are for some scope.
pub proof fn pairings_are_created_exactly_when_complete(
    scopes: Seq<Seq<char>>,
    pairing_ttl_ms: u64,
    grant_ttl_ms: u64,
    now: u64,
)
    ensures
        ({
            let scoped = exists|i: int|
                0 <= i < scopes.len() && !text::is_blank(#[trigger] scopes[i]);
            let lasting = pairing_ttl_ms > 0 && grant_ttl_ms > 0;
            let r = pairing_refusal(scopes, pairing_ttl_ms, grant_ttl_ms, now);
            &&& r is None <==> lasting && scoped && now + pairing_ttl_ms <= u64::MAX
            &&& lasting && !scoped ==> r == Some(Refusal::NoScopes)
            &&& !lasting || (scoped && now + pairing_ttl_ms > u64::MAX) ==> r == Some(
                Refusal::InvalidTtl,
            )
        }),
{
    lemma_scoped(scopes);
}

/// A code is redeemed exactly when it is not empty, comes with an actor, belongs to a
/// pairing that has not run out, and the end of the grant can be told.
pub proof fn codes_are_redeemed_exactly_when_they_hold(
    pairings: Map<Seq<char>, PairingView>,
    code: Seq<char>,
    actor_id: Seq<char>,
    now: u64,
)
    ensures
        ({
            let pairing = pairings[token_hash(code)];
            let known = code.len() > 0 && (exists|i: int|
                0 <= i < actor_id.len() && !text::is_white_space(#[trigger] actor_id[i]))
                && pairings.contains_key(token_hash(code)) && now < pairing.expires_at_unix_ms;
            let r = redeem_refusal(pairings, code, actor_id, now);
            &&& r is None <==> known && now + pairing.grant_ttl_ms <= u64::MAX
            &&& !known ==> r == Some(Refusal::Unauthorized)
            &&& known && now + pairing.grant_ttl_ms > u64::MAX ==> r == Some(Refusal::InvalidTtl)
        }),
{
}

/// A stored grant is sound exactly when its organization, its actor and its workspaces have
/// names.
pub proof fn grants_are_sound_exactly_when_named(grant: GrantView)
    ensures
        grant_defect(grant) is None <==> ids::is_id(grant.organization_id) && ids::is_id(
            grant.actor_id,
        ) && forall|t: Seq<char>| #[trigger] grant.workspace_ids.contains(t) ==> ids::is_id(t),
        grant_defect(grant) == Some(Refusal::InvalidActor) <==> ids::is_id(grant.organization_id)
            && !ids::is_id(grant.actor_id),
        grant_defect(grant) is None || grant_defect(grant) == Some(Refusal::InvalidActor)
            || grant_defect(grant) == Some(Refusal::InvalidTenant),
{
}

/// What is pruned is what was revoked or has run out; what stays is as it was.
pub proof fn pruning_takes_what_has_run_out(
    grants: Map<Seq<char>, GrantView>,
    pairings: Map<Seq<char>, PairingView>,
    key: Seq<char>,
    now: u64,
)
    ensures
        live_grants(grants, now).contains_key(key) <==> grants.contains_key(key)
            && !grants[key].revoked && now < grants[key].expires_at_unix_ms,
        live_grants(grants, now).contains_key(key) ==> live_grants(grants, now)[key]
            == grants[key],
        live_pairings(pairings, now).contains_key(key) <==> pairings.contains_key(key) && now
            < pairings[key].expires_at_unix_ms,
        live_pairings(pairings, now).contains_key(key) ==> live_pairings(pairings, now)[key]
            == pairings[key],
{
}

/// Revoking a grant by its name, within an organization where one is named, changes the
/// first such grant and nothing else, and is told to have happened exactly when there is
/// one.
pub proof fn revoking_changes_one_grant(
    before: Map<Seq<char>, GrantView>,
    after: Map<Seq<char>, GrantView>,
    grant_id: Seq<char>,
    organization_id: Option<Seq<char>>,
    revoked: bool,
    key: Seq<char>,
)
    requires
        revokes(before, after, grant_id, organization_id, revoked),
        before.contains_key(key),
    ensures
        after.contains_key(key),
        after[key] == before[key] || after[key] == (GrantView { revoked: true, ..before[key] }),
        after[key] != before[key] ==> before[key].grant_id == grant_id && (organization_id is None
            || organization_id == Some(before[key].organization_id)),
        before[key].grant_id == grant_id && (organization_id is None || organization_id == Some(
            before[key].organization_id,
        )) ==> revoked,
        revoked ==> exists|k: Seq<char>|
            before.contains_key(k) && before[k].grant_id == grant_id && #[trigger] after[k] == (
            GrantView { revoked: true, ..before[k] }),
{
    if names_grant(before[key], grant_id, organization_id) {
        assert(has_grant(before, grant_id, organization_id));
    }
    if revoked {
        let k = choose|k: Seq<char>| #[trigger]
            is_first_grant(before, k, grant_id, organization_id) && after == before.insert(
                k,
                (GrantView { revoked: true, ..before[k] }),
            );
        assert(after[k] == (GrantView { revoked: true, ..before[k] }));
    }
}

/// A grant is shown by its fields, in this order.
pub proof fn grants_are_shown_by_field(record: GrantRecord)
    ensures
        grant_line(record) == "GrantRecord { "@ + shown::field("grant_id"@, shown::quoted_text(record.grant_id@)) + ", "@
            + shown::field("organization_id"@, shown::quoted_text(record.organization_id@)) + ", "@
            + shown::field("actor_id"@, shown::quoted_text(record.actor_id@)) + ", "@
            + shown::field("workspace_ids"@, shown::between("{"@, shown::quoted_list(record.workspace_ids.items()), "}"@)) + ", "@
            + shown::field("scopes"@, shown::between("{"@, shown::quoted_list(record.scopes.items()), "}"@)) + ", "@
            + shown::field("issued_at_unix_ms"@, text::decimal_text(record.issued_at_unix_ms as nat)) + ", "@
            + shown::field("expires_at_unix_ms"@, text::decimal_text(record.expires_at_unix_ms as nat)) + ", "@
            + shown::field("revoked"@, shown::bool_line(record.revoked)) + " }"@,
{
    reveal_strlit(", ");
    reveal_strlit(": ");
    reveal_strlit(" }");
    reveal_strlit("GrantRecord { ");
    reveal_strlit("GrantRecord { grant_id: ");
    reveal_strlit("grant_id");
    assert("GrantRecord { grant_id: "@ =~= "GrantRecord { "@ + "grant_id"@ + ": "@);
    let s0 = "GrantRecord { "@ + shown::field("grant_id"@, shown::quoted_text(record.grant_id@));
    assert("GrantRecord { grant_id: "@ + shown::quoted_text(record.grant_id@) =~= s0);
    reveal_strlit("organization_id");
    reveal_strlit(", organization_id: ");
    assert(", organization_id: "@ =~= ", "@ + "organization_id"@ + ": "@);
    let lead1 = ", organization_id: "@;
    shown::lemma_field(s0, lead1, "organization_id"@, shown::quoted_text(record.organization_id@));
    let s1 = s0 + ", "@ + shown::field("organization_id"@, shown::quoted_text(record.organization_id@));
    reveal_strlit("actor_id");
    reveal_strlit(", actor_id: ");
    assert(", actor_id: "@ =~= ", "@ + "actor_id"@ + ": "@);
    let lead2 = ", actor_id: "@;
    shown::lemma_field(s1, lead2, "actor_id"@, shown::quoted_text(record.actor_id@));
    let s2 = s1 + ", "@ + shown::field("actor_id"@, shown::quoted_text(record.actor_id@));
    reveal_strlit("workspace_ids");
    reveal_strlit(", workspace_ids: {");
    reveal_strlit("{");
    assert(", workspace_ids: {"@ =~= ", "@ + "workspace_ids"@ + ": "@ + "{"@);
    let lead3 = ", workspace_ids: {"@;
    reveal_strlit("}");
    reveal_strlit("scopes");
    reveal_strlit("}, scopes: {");
    let lead4 = ", "@ + "scopes"@ + ": "@ + "{"@;
    assert("}, scopes: {"@ =~= "}"@ + lead4);
    shown::lemma_list_field(s2, lead3, "{"@, "workspace_ids"@, shown::quoted_list(record.workspace_ids.items()), "}"@, lead4);
    let s3 = s2 + ", "@ + shown::field("workspace_ids"@, shown::between("{"@, shown::quoted_list(record.workspace_ids.items()), "}"@));
    reveal_strlit("issued_at_unix_ms");
    reveal_strlit("}, issued_at_unix_ms: ");
    let lead5 = ", "@ + "issued_at_unix_ms"@ + ": "@;
    assert("}, issued_at_unix_ms: "@ =~= "}"@ + lead5);
    shown::lemma_list_field(s3, lead4, "{"@, "scopes"@, shown::quoted_list(record.scopes.items()), "}"@, lead5);
    let s4 = s3 + ", "@ + shown::field("scopes"@, shown::between("{"@, shown::quoted_list(record.scopes.items()), "}"@));
    shown::lemma_field(s4, lead5, "issued_at_unix_ms"@, text::decimal_text(record.issued_at_unix_ms as nat));
    let s5 = s4 + ", "@ + shown::field("issued_at_unix_ms"@, text::decimal_text(record.issued_at_unix_ms as nat));
    reveal_strlit("expires_at_unix_ms");
    reveal_strlit(", expires_at_unix_ms: ");
    assert(", expires_at_unix_ms: "@ =~= ", "@ + "expires_at_unix_ms"@ + ": "@);
    let lead6 = ", expires_at_unix_ms: "@;
    shown::lemma_field(s5, lead6, "expires_at_unix_ms"@, text::decimal_text(record.expires_at_unix_ms as nat));
    let s6 = s5 + ", "@ + shown::field("expires_at_unix_ms"@, text::decimal_text(record.expires_at_unix_ms as nat));
    reveal_strlit("revoked");
    reveal_strlit(", revoked: ");
    assert(", revoked: "@ =~= ", "@ + "revoked"@ + ": "@);
    let lead7 = ", revoked: "@;
    shown::lemma_field(s6, lead7, "revoked"@, shown::bool_line(record.revoked));
    let s7 = s6 + ", "@ + shown::field("revoked"@, shown::bool_line(record.revoked));
}

/// A pairing is shown by its fields, in this order.
pub proof fn pairings_are_shown_by_field(record: PairingRecord)
    ensures
        pairing_line(record) == "PairingRecord { "@ + shown::field("pairing_id"@, shown::quoted_text(record.pairing_id@)) + ", "@
            + shown::field("scopes"@, shown::between("{"@, shown::quoted_list(record.scopes.items()), "}"@)) + ", "@
            + shown::field("created_at_unix_ms"@, text::decimal_text(record.created_at_unix_ms as nat)) + ", "@
            + shown::field("expires_at_unix_ms"@, text::decimal_text(record.expires_at_unix_ms as nat)) + ", "@
            + shown::field("grant_ttl_ms"@, text::decimal_text(record.grant_ttl_ms as nat)) + " }"@,
{
    reveal_strlit(", ");
    reveal_strlit(": ");
    reveal_strlit(" }");
    reveal_strlit("PairingRecord { ");
    reveal_strlit("PairingRecord { pairing_id: ");
    reveal_strlit("pairing_id");
    assert("PairingRecord { pairing_id: "@ =~= "PairingRecord { "@ + "pairing_id"@ + ": "@);
    let s0 = "PairingRecord { "@ + shown::field("pairing_id"@, shown::quoted_text(record.pairing_id@));
    assert("PairingRecord { pairing_id: "@ + shown::quoted_text(record.pairing_id@) =~= s0);
    reveal_strlit("scopes");
    reveal_strlit(", scopes: {");
    reveal_strlit("{");
    assert(", scopes: {"@ =~= ", "@ + "scopes"@ + ": "@ + "{"@);
    let lead1 = ", scopes: {"@;
    reveal_strlit("}");
    reveal_strlit("created_at_unix_ms");
    reveal_strlit("}, created_at_unix_ms: ");
    let lead2 = ", "@ + "created_at_unix_ms"@ + ": "@;
    assert("}, created_at_unix_ms: "@ =~= "}"@ + lead2);
    shown::lemma_list_field(s0, lead1, "{"@, "scopes"@, shown::quoted_list(record.scopes.items()), "}"@, lead2);
    let s1 = s0 + ", "@ + shown::field("scopes"@, shown::between("{"@, shown::quoted_list(record.scopes.items()), "}"@));
    shown::lemma_field(s1, lead2, "created_at_unix_ms"@, text::decimal_text(record.created_at_unix_ms as nat));
    let s2 = s1 + ", "@ + shown::field("created_at_unix_ms"@, text::decimal_text(record.created_at_unix_ms as nat));
    reveal_strlit("expires_at_unix_ms");
    reveal_strlit(", expires_at_unix_ms: ");
    assert(", expires_at_unix_ms: "@ =~= ", "@ + "expires_at_unix_ms"@ + ": "@);
    let lead3 = ", expires_at_unix_ms: "@;
    shown::lemma_field(s2, lead3, "expires_at_unix_ms"@, text::decimal_text(record.expires_at_unix_ms as nat));
    let s3 = s2 + ", "@ + shown::field("expires_at_unix_ms"@, text::decimal_text(record.expires_at_unix_ms as nat));
    reveal_strlit("grant_ttl_ms");
    reveal_strlit(", grant_ttl_ms: ");
    assert(", grant_ttl_ms: "@ =~= ", "@ + "grant_ttl_ms"@ + ": "@);
    let lead4 = ", grant_ttl_ms: "@;
    shown::lemma_field(s3, lead4, "grant_ttl_ms"@, text::decimal_text(record.grant_ttl_ms as nat));
    let s4 = s3 + ", "@ + shown::field("grant_ttl_ms"@, text::decimal_text(record.grant_ttl_ms as nat));
}

/// The first grant with a name is the one whose key comes first among those that have it,
/// and the defect that is told of stored grants is that of the first that has one.
pub proof fn first_grants_come_first(
    grants: Map<Seq<char>, GrantView>,
    key: Seq<char>,
    other: Seq<char>,
    grant_id: Seq<char>,
    organization_id: Option<Seq<char>>,
    refusal: Refusal,
)
    requires
        grants.contains_key(other),
    ensures
        is_first_grant(grants, key, grant_id, organization_id) ==> {
            &&& grants.contains_key(key)
            &&& grants[key].grant_id == grant_id
            &&& organization_id is None || organization_id == Some(grants[key].organization_id)
            &&& grants[other].grant_id == grant_id && (organization_id is None || organization_id
                == Some(grants[other].organization_id)) ==> other == key || table::text_before(
                key,
                other,
            )
        },
        grants_defect(grants, refusal) ==> exists|k: Seq<char>| #[trigger]
            grants.contains_key(k) && grant_defect(grants[k]) == Some(refusal) && (grant_defect(
                grants[other],
            ) is Some ==> k == other || table::text_before(k, other)),
        grants_sound(grants) ==> grant_defect(grants[other]) is None,
{
    if is_first_grant(grants, key, grant_id, organization_id) && names_grant(
        grants[other],
        grant_id,
        organization_id,
    ) {
        assert(grants.contains_key(other));
    }
    if grants_defect(grants, refusal) {
        let k = choose|k: Seq<char>|
            {
                &&& #[trigger] grants.contains_key(k)
                &&& grant_defect(grants[k]) == Some(refusal)
                &&& forall|o: Seq<char>| #[trigger]
                    grants.contains_key(o) && grant_defect(grants[o]) is Some ==> o == k
                        || table::text_before(k, o)
            };
        assert(grants.contains_key(k));
    }
}

/// A lock is tried a hundred times; tokens have 32 bytes and pairing codes 20.
pub proof fn grants_have_these_limits()
    ensures
        LOCK_ATTEMPTS == 100,
        LOCK_DELAY_MS == 10,
        TOKEN_BYTES == 32,
        PAIRING_CODE_BYTES == 20,
{
}

/// What is done to grants leaves the device, the pairings and the clients as they were.
pub proof fn grants_change_alone(a: GrantStore, b: GrantStore)
    requires
        same_but_grants(a, b),
    ensures
        a.device_id == b.device_id,
        a.pairings == b.pairings,
        a.oauth_clients == b.oauth_clients,
{
}

} // verus!
