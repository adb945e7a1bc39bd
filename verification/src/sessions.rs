//! The browser sessions of a device: each belongs to who started it, and goes
//! nowhere but to one origin.

use vstd::prelude::*;

use crate::approval;
use crate::broker::{Authorization, ExecutionAuthorization};
use crate::browser;
use crate::browser::{
    BrowserBridge, BrowserCloseReceipt, BrowserCloseState, BrowserError, BrowserFault,
    BrowserSessionOwner, BrowserSessionWorker, BrowserWorkerConfig, CloseTurn, DownloadOperation,
    ManagedBrowserSession, SemanticNode, MAX_SESSION_ID_BYTES,
};
use crate::codec;
use crate::passages;
use crate::paths;
use crate::paths::{PathStyle, PathText};
use crate::protocol;
use crate::protocol::{Parameter, ParameterValue};
use crate::reports;
use crate::table::Table;
use crate::text;

verus! {

// ---------------------------------------------------------------------------
// Origins

/// An address by its parts.
#[verifier::ext_equal]
pub struct Origin {
    pub scheme: Seq<char>,
    pub host: Seq<char>,
    pub port: int,
    pub rest: Seq<char>,
}

/// Where `c` last occurs in `s`, or less than nothing.
pub open spec fn last_index(s: Seq<char>, c: char) -> int
    decreases s.len(),
{
    if s.len() == 0 {
        -1
    } else if s.last() == c {
        s.len() - 1
    } else {
        last_index(s.drop_last(), c)
    }
}

/// The number of a port, if the text is one.
pub open spec fn port_number(s: Seq<char>) -> Option<int> {
    match text::parsed_u64(s) {
        Some(n) => if n <= 0xffff {
            Some(n as int)
        } else {
            None
        },
        None => None,
    }
}

/// The origin of a host, perhaps with a port.
pub open spec fn authority_origin(scheme: Seq<char>, authority: Seq<char>, rest: Seq<char>) -> Option<
    Origin,
> {
    let colon = last_index(authority, ':');
    let host = if colon >= 0 {
        authority.take(colon)
    } else {
        authority
    };
    let port = if colon >= 0 {
        port_number(authority.skip(colon + 1))
    } else if scheme == "https"@ {
        Some(443int)
    } else {
        Some(80int)
    };
    if authority.len() == 0 || authority.contains('@') || host.len() == 0 || port is None {
        None
    } else {
        Some(Origin { scheme, host, port: port->0, rest })
    }
}

/// The origin of an address, and what follows it.
pub open spec fn origin_of(input: Seq<char>) -> Option<Origin> {
    let places = passages::matches_from(input, "://"@, 0);
    if places.len() == 0 {
        None
    } else {
        let scheme = input.take(places[0]);
        let after = input.skip(places[0] + 3);
        let slash = text::first_index(after, '/');
        if scheme != "http"@ && scheme != "https"@ {
            None
        } else if 0 <= slash < after.len() {
            authority_origin(scheme, after.take(slash), after.skip(slash + 1))
        } else {
            authority_origin(scheme, after, Seq::empty())
        }
    }
}

/// The address lies at the origin, and names no user.
pub open spec fn is_same_origin(candidate: Seq<char>, allowed: Seq<char>) -> bool {
    match (origin_of(candidate), origin_of(allowed)) {
        (Some(a), Some(b)) => !a.rest.contains('@') && a.scheme == b.scheme && a.host == b.host
            && a.port == b.port,
        _ => false,
    }
}

/// The parts of an address.
pub struct ParsedOrigin {
    pub scheme: Vec<char>,
    pub host: Vec<char>,
    pub port: u64,
    pub rest: Vec<char>,
}

impl View for ParsedOrigin {
    type V = Origin;

    open spec fn view(&self) -> Origin {
        Origin {
            scheme: self.scheme@,
            host: self.host@,
            port: self.port as int,
            rest: self.rest@,
        }
    }
}

fn rfind(s: &[char], c: char) -> (r: Option<usize>)
    ensures
        r is Some == (last_index(s@, c) >= 0),
        r is Some ==> r->0 == last_index(s@, c) && r->0 < s@.len(),
{
    let mut i: usize = s.len();
    proof {
        assert(s@.take(i as int) =~= s@);
    }
    while i > 0
        invariant
            i <= s@.len(),
            last_index(s@.take(i as int), c) == last_index(s@, c),
        decreases i,
    {
        proof {
            assert(s@.take(i as int).last() == s@[i - 1]);
            assert(s@.take(i as int).drop_last() =~= s@.take(i - 1));
        }
        if s[i - 1] == c {
            return Some(i - 1);
        }
        i = i - 1;
    }
    None
}

fn parse_authority(scheme: Vec<char>, authority: &[char], rest: Vec<char>) -> (r: Option<
    ParsedOrigin,
>)
    ensures
        r is Some == authority_origin(scheme@, authority@, rest@) is Some,
        r is Some ==> r->0@ == authority_origin(scheme@, authority@, rest@)->0,
{
    if authority.len() == 0 || text::contains_char(authority, '@') {
        return None;
    }
    let secure = text::spells(scheme.as_slice(), "https");
    let (host, port) = match rfind(authority, ':') {
        Some(colon) => {
            let host = passages::part(authority, 0, colon);
            let digits = passages::part(authority, colon + 1, authority.len());
            proof {
                assert(host@ =~= authority@.take(colon as int));
                assert(digits@ =~= authority@.skip(colon + 1));
            }
            match text::parse_u64(digits.as_slice()) {
                None => {
                    return None;
                },
                Some(port) => {
                    if port > 0xffff {
                        return None;
                    }
                    (host, port)
                },
            }
        },
        None => {
            let host = passages::part(authority, 0, authority.len());
            proof {
                assert(host@ =~= authority@);
            }
            let port: u64 = if secure {
                443
            } else {
                80
            };
            (host, port)
        },
    };
    if host.len() == 0 {
        return None;
    }
    Some(ParsedOrigin { scheme, host, port, rest })
}

fn parse_http_origin(input: &str) -> (r: Option<ParsedOrigin>)
    ensures
        r is Some == origin_of(input@) is Some,
        r is Some ==> r->0@ == origin_of(input@)->0,
{
    let chars = text::chars_of(input);
    let mark = text::chars_of("://");
    proof {
        reveal_strlit("://");
    }
    let places = passages::occurrences(chars.as_slice(), mark.as_slice());
    proof {
        assert(passages::indices(places@).len() == places@.len());
    }
    if places.len() == 0 {
        return None;
    }
    let at: usize = places[0];
    proof {
        assert(passages::indices(places@)[0] == at);
        assert(passages::stands_at(chars@, mark@, places@[0] as int));
    }
    let n: usize = chars.len();
    let scheme = passages::part(chars.as_slice(), 0, at);
    let after = passages::part(chars.as_slice(), at + 3, n);
    proof {
        assert(scheme@ =~= chars@.take(at as int));
        assert(after@ =~= chars@.skip(at + 3));
    }
    if !text::spells(scheme.as_slice(), "http") && !text::spells(scheme.as_slice(), "https") {
        return None;
    }
    let slash: usize = text::find_char(after.as_slice(), '/');
    if slash < after.len() {
        let authority = passages::part(after.as_slice(), 0, slash);
        let rest = passages::part(after.as_slice(), slash + 1, after.len());
        proof {
            assert(authority@ =~= after@.take(slash as int));
            assert(rest@ =~= after@.skip(slash + 1));
        }
        parse_authority(scheme, authority.as_slice(), rest)
    } else {
        let rest: Vec<char> = Vec::new();
        proof {
            assert(rest@ =~= Seq::empty());
        }
        parse_authority(scheme, after.as_slice(), rest)
    }
}

/// Does an address lie at the origin?
pub fn same_origin_url(candidate: &str, allowed_origin: &str) -> (r: bool)
    ensures
        r == is_same_origin(candidate@, allowed_origin@),
{
    let a = match parse_http_origin(candidate) {
        None => {
            return false;
        },
        Some(a) => a,
    };
    if text::contains_char(a.rest.as_slice(), '@') {
        return false;
    }
    let b = match parse_http_origin(allowed_origin) {
        None => {
            return false;
        },
        Some(b) => b,
    };
    text::same_chars(a.scheme.as_slice(), b.scheme.as_slice()) && text::same_chars(
        a.host.as_slice(),
        b.host.as_slice(),
    ) && a.port == b.port
}

// ---------------------------------------------------------------------------
// Names and places of sessions

/// The name of the session that a request starts.
pub open spec fn session_name(envelope_digest: Seq<u8>) -> Seq<char> {
    "bs-"@ + codec::hex_text(envelope_digest)
}

pub fn opaque_session_id(envelope_digest: [u8; 32]) -> (id: String)
    ensures
        id@ == session_name(envelope_digest@),
{
    let mut chars = text::chars_of("bs-");
    let digits = codec::to_hex(envelope_digest.as_slice());
    text::push_text(&mut chars, digits.as_str());
    text::string_of(chars.as_slice())
}

pub open spec fn is_safe_char(c: char) -> bool {
    text::is_ascii_letter(c) || text::is_ascii_digit(c) || c == '-'
}

/// A name that is safe as one component of a path.
pub open spec fn is_safe_component(value: Seq<char>) -> bool {
    0 < value.len() <= MAX_SESSION_ID_BYTES && forall|i: int|
        0 <= i < value.len() ==> is_safe_char(#[trigger] value[i])
}

pub fn is_single_safe_component(value: &str) -> (r: bool)
    ensures
        r == is_safe_component(value@),
{
    let chars = text::chars_of(value);
    if chars.len() == 0 || chars.len() > MAX_SESSION_ID_BYTES {
        return false;
    }
    let mut i: usize = 0;
    while i < chars.len()
        invariant
            chars@ == value@,
            i <= chars@.len(),
            forall|k: int| 0 <= k < i ==> is_safe_char(#[trigger] chars@[k]),
        decreases chars@.len() - i,
    {
        let c = chars[i];
        if !(text::ascii_letter(c) || text::ascii_digit(c) || c == '-') {
            assert(!is_safe_char(value@[i as int]));
            return false;
        }
        i = i + 1;
    }
    true
}

/// Where a session will have its state, below the root of all sessions, by its
/// canonical form.
pub fn allocate_session_root(style: PathStyle, lab_root: &PathText, session_id: &str, exists: bool) -> (r:
    Result<PathText, BrowserError>)
    ensures
        r is Ok == (is_safe_component(session_id@) && !exists),
        r is Err ==> r->Err_0 == (if !is_safe_component(session_id@) {
            BrowserError::UnsafeSessionId
        } else {
            BrowserError::DuplicateSession
        }),
        r is Ok ==> r->Ok_0@ == paths::joined(style, lab_root@, session_id@),
{
    if !is_single_safe_component(session_id) {
        return Err(BrowserError::UnsafeSessionId);
    }
    if exists {
        return Err(BrowserError::DuplicateSession);
    }
    Ok(paths::join_name(style, lab_root, session_id))
}

/// Does what was made for a session lie below the root of all sessions?
pub fn confine_session_root(lab_root: &PathText, root: &PathText) -> (r: Result<(), BrowserError>)
    ensures
        r is Ok == lab_root@.parts.is_prefix_of(root@.parts),
        r is Err ==> r->Err_0 == BrowserError::SessionRootEscaped,
{
    if paths::parts_start(&root.parts, &lab_root.parts) {
        Ok(())
    } else {
        Err(BrowserError::SessionRootEscaped)
    }
}

/// May what was made for a session be removed?
pub fn remove_owned_session_root(lab_root: &PathText, root: &PathText) -> (r: Result<
    (),
    BrowserError,
>)
    ensures
        r is Ok == (lab_root@.parts.is_prefix_of(root@.parts) && root@.parts != lab_root@.parts),
        r is Err ==> r->Err_0 == BrowserError::SessionRootEscaped,
{
    if !paths::parts_start(&root.parts, &lab_root.parts) || paths::same_path(
        PathStyle::Unix,
        root,
        lab_root,
    ) {
        return Err(BrowserError::SessionRootEscaped);
    }
    Ok(())
}

// ---------------------------------------------------------------------------
// Owners

/// An owner by what it says.
#[verifier::ext_equal]
pub struct OwnerModel {
    pub organization_id: Seq<char>,
    pub actor_id: Seq<char>,
    pub device_id: Seq<char>,
    pub workspace_id: Option<Seq<char>>,
}

impl View for BrowserSessionOwner {
    type V = OwnerModel;

    open spec fn view(&self) -> OwnerModel {
        OwnerModel {
            organization_id: self.organization_id@,
            actor_id: self.actor_id@,
            device_id: self.device_id@,
            workspace_id: match self.workspace_id {
                Some(id) => Some(id@),
                None => None,
            },
        }
    }
}

/// Who a request comes from.
pub open spec fn owner_of(authorization: Authorization) -> OwnerModel {
    let envelope = authorization.request.envelope;
    OwnerModel {
        organization_id: envelope.organization_id@,
        actor_id: envelope.actor_id@,
        device_id: envelope.device_id@,
        workspace_id: protocol::text_parameter(envelope.parameters@, "workspace_id"@),
    }
}

fn owner_from_execution(authorization: &Authorization) -> (owner: BrowserSessionOwner)
    ensures
        owner@ == owner_of(*authorization),
{
    let envelope = &authorization.request.envelope;
    let workspace_id = match protocol::find_text(&envelope.parameters, "workspace_id") {
        Some(id) => Some(text::copied(id)),
        None => None,
    };
    BrowserSessionOwner {
        organization_id: envelope.organization_id.clone(),
        actor_id: envelope.actor_id.clone(),
        device_id: envelope.device_id.clone(),
        workspace_id,
    }
}

fn same_owner(a: &BrowserSessionOwner, b: &BrowserSessionOwner) -> (r: bool)
    ensures
        r == (a@ == b@),
{
    let same_workspace = match (&a.workspace_id, &b.workspace_id) {
        (Some(x), Some(y)) => text::same_text(x.as_str(), y.as_str()),
        (None, None) => true,
        _ => false,
    };
    text::same_text(a.organization_id.as_str(), b.organization_id.as_str()) && text::same_text(
        a.actor_id.as_str(),
        b.actor_id.as_str(),
    ) && text::same_text(a.device_id.as_str(), b.device_id.as_str()) && same_workspace
}

// ---------------------------------------------------------------------------
// What a request asks for

pub open spec fn first(a: Option<BrowserFault>, b: Option<BrowserFault>) -> Option<BrowserFault> {
    if a is Some {
        a
    } else {
        b
    }
}

/// What is missing, if a parameter is.
pub open spec fn text_missing(authorization: Authorization, name: Seq<char>) -> Option<
    BrowserFault,
> {
    if protocol::text_parameter(authorization.request.envelope.parameters@, name) is None {
        Some(BrowserFault::MissingParameter(name))
    } else {
        None
    }
}

pub open spec fn number_missing(authorization: Authorization, name: Seq<char>) -> Option<
    BrowserFault,
> {
    if protocol::unsigned_parameter(authorization.request.envelope.parameters@, name) is None {
        Some(BrowserFault::MissingParameter(name))
    } else {
        None
    }
}

pub open spec fn given_text(authorization: Authorization, name: Seq<char>) -> Seq<char> {
    protocol::text_parameter(authorization.request.envelope.parameters@, name)->0
}

pub open spec fn given_number(authorization: Authorization, name: Seq<char>) -> u64 {
    protocol::unsigned_parameter(authorization.request.envelope.parameters@, name)->0
}

/// Why a request may not use the session it names, if it may not. Whether the
/// session is another's or does not exist is not told.
pub open spec fn session_fault(worker: BrowserSessionWorker, authorization: Authorization) -> Option<
    BrowserFault,
> {
    let id = given_text(authorization, "session_id"@);
    first(
        text_missing(authorization, "session_id"@),
        if worker.sessions@.contains_key(id) && worker.sessions@[id].owner@ == owner_of(
            authorization,
        ) {
            None
        } else {
            Some(BrowserFault::SessionNotFound)
        },
    )
}

/// The session that a request names.
pub open spec fn named_session(worker: BrowserSessionWorker, authorization: Authorization) -> ManagedBrowserSession {
    worker.sessions@[given_text(authorization, "session_id"@)]
}

pub open spec fn start_fault(worker: BrowserSessionWorker, authorization: Authorization) -> Option<
    BrowserFault,
> {
    if worker.config is None {
        Some(BrowserFault::BrowserDisabled)
    } else if worker.sessions@.contains_key(session_name(authorization.request.envelope_digest@)) {
        Some(BrowserFault::DuplicateSession)
    } else {
        None
    }
}

pub open spec fn navigate_fault(worker: BrowserSessionWorker, authorization: Authorization) -> Option<
    BrowserFault,
> {
    first(
        text_missing(authorization, "url"@),
        if worker.config is None {
            Some(BrowserFault::BrowserDisabled)
        } else if !is_same_origin(
            given_text(authorization, "url"@),
            worker.config->0.allowed_origin@,
        ) {
            Some(BrowserFault::NavigationOutOfScope)
        } else {
            first(
                session_fault(worker, authorization),
                browser::open_fault(named_session(worker, authorization).bridge.close_state),
            )
        },
    )
}

pub open spec fn observe_fault(worker: BrowserSessionWorker, authorization: Authorization) -> Option<
    BrowserFault,
> {
    first(
        session_fault(worker, authorization),
        browser::open_fault(named_session(worker, authorization).bridge.close_state),
    )
}

/// Why an element is stale, if it is.
pub open spec fn stale_fault(worker: BrowserSessionWorker, authorization: Authorization) -> Option<
    BrowserFault,
> {
    first(
        number_missing(authorization, "generation"@),
        first(
            session_fault(worker, authorization),
            if given_number(authorization, "generation"@) != named_session(
                worker,
                authorization,
            ).generation {
                Some(BrowserFault::StaleElement)
            } else {
                None
            },
        ),
    )
}

pub open spec fn click_fault(worker: BrowserSessionWorker, authorization: Authorization) -> Option<
    BrowserFault,
> {
    first(
        text_missing(authorization, "selector"@),
        first(
            stale_fault(worker, authorization),
            browser::open_fault(named_session(worker, authorization).bridge.close_state),
        ),
    )
}

pub open spec fn download_fault(worker: BrowserSessionWorker, authorization: Authorization) -> Option<
    BrowserFault,
> {
    first(
        text_missing(authorization, "selector"@),
        first(
            text_missing(authorization, "file_name"@),
            first(
                text_missing(authorization, "operation_id"@),
                first(
                    stale_fault(worker, authorization),
                    browser::download_fault(
                        named_session(worker, authorization).bridge.close_state,
                        given_text(authorization, "operation_id"@),
                        given_text(authorization, "file_name"@),
                    ),
                ),
            ),
        ),
    )
}

/// What an approved request asks of the browser.
#[derive(Debug)]
pub enum BrowserPlan {
    Start { session_id: String },
    Navigate { session_id: String, url: String },
    Observe { session_id: String },
    Click { session_id: String, selector: String },
    Download { session_id: String, selector: String, operation: DownloadOperation },
    Close { session_id: String },
}

/// Why an approved request is refused, if it is.
pub open spec fn plan_fault(worker: BrowserSessionWorker, authorization: Authorization) -> Option<
    BrowserFault,
> {
    let operation = given_text(authorization, "operation"@);
    if authorization.request.envelope.action@ != "browser.session.use"@ {
        Some(BrowserFault::WrongAction)
    } else if text_missing(authorization, "operation"@) is Some {
        text_missing(authorization, "operation"@)
    } else if operation == "start"@ {
        start_fault(worker, authorization)
    } else if operation == "navigate"@ {
        navigate_fault(worker, authorization)
    } else if operation == "observe"@ {
        observe_fault(worker, authorization)
    } else if operation == "click"@ {
        click_fault(worker, authorization)
    } else if operation == "download"@ {
        download_fault(worker, authorization)
    } else if operation == "close"@ {
        session_fault(worker, authorization)
    } else {
        Some(BrowserFault::InvalidOperation)
    }
}

/// The plan is what the request asks for.
pub open spec fn plan_follows(
    style: PathStyle,
    plan: BrowserPlan,
    worker: BrowserSessionWorker,
    authorization: Authorization,
) -> bool {
    let operation = given_text(authorization, "operation"@);
    let named = given_text(authorization, "session_id"@);
    if operation == "start"@ {
        plan matches BrowserPlan::Start { session_id } && session_id@ == session_name(
            authorization.request.envelope_digest@,
        )
    } else if operation == "navigate"@ {
        plan matches BrowserPlan::Navigate { session_id, url } && session_id@ == named && url@
            == given_text(authorization, "url"@)
    } else if operation == "observe"@ {
        plan matches BrowserPlan::Observe { session_id } && session_id@ == named
    } else if operation == "click"@ {
        plan matches BrowserPlan::Click { session_id, selector } && session_id@ == named
            && selector@ == given_text(authorization, "selector"@)
    } else if operation == "download"@ {
        plan matches BrowserPlan::Download { session_id, selector, operation } && session_id@
            == named && selector@ == given_text(authorization, "selector"@)
            && browser::is_download(
            style,
            operation,
            named_session(worker, authorization).bridge,
            given_text(authorization, "operation_id"@),
            given_text(authorization, "file_name"@),
        )
    } else {
        plan matches BrowserPlan::Close { session_id } && session_id@ == named
    }
}

fn required_str<'a>(authorization: &'a Authorization, name: &str) -> (r: Result<
    &'a str,
    BrowserError,
>)
    ensures
        r is Err == text_missing(*authorization, name@) is Some,
        r is Err ==> r->Err_0@ == text_missing(*authorization, name@)->0,
        r is Ok ==> r->Ok_0@ == given_text(*authorization, name@),
{
    match protocol::find_text(&authorization.request.envelope.parameters, name) {
        Some(value) => Ok(value),
        None => Err(BrowserError::MissingParameter(text::copied(name))),
    }
}

fn required_u64(authorization: &Authorization, name: &str) -> (r: Result<u64, BrowserError>)
    ensures
        r is Err == number_missing(*authorization, name@) is Some,
        r is Err ==> r->Err_0@ == number_missing(*authorization, name@)->0,
        r is Ok ==> r->Ok_0 == given_number(*authorization, name@),
{
    match protocol::find_unsigned(&authorization.request.envelope.parameters, name) {
        Some(value) => Ok(value),
        None => Err(BrowserError::MissingParameter(text::copied(name))),
    }
}

/// The entries say what an element of a page is.
pub open spec fn describes(entries: Seq<Parameter>, node: SemanticNode) -> bool {
    &&& entries.len() == 8
    &&& protocol::number_entry(entries[0], "index"@, node.index)
    &&& protocol::text_entry(entries[1], "tag"@, node.tag@)
    &&& reports::optional_text_entry(entries[2], "id"@, approval::optional_text(node.id))
    &&& reports::optional_text_entry(entries[3], "role"@, approval::optional_text(node.role))
    &&& reports::optional_text_entry(entries[4], "name"@, approval::optional_text(node.name))
    &&& reports::optional_text_entry(
        entries[5],
        "element_type"@,
        approval::optional_text(node.element_type),
    )
    &&& protocol::text_entry(entries[6], "text"@, node.text@)
    &&& protocol::flag_entry(entries[7], "disabled"@, node.disabled)
}

/// The value lists elements of a page, one by one.
pub open spec fn reports_nodes(value: ParameterValue, nodes: Seq<SemanticNode>) -> bool {
    &&& value is List
    &&& value->List_0@.len() == nodes.len()
    &&& forall|i: int|
        0 <= i < nodes.len() ==> (#[trigger] value->List_0@[i]) is Table && describes(
            value->List_0@[i]->Table_0@,
            nodes[i],
        )
}

fn nodes_report(nodes: &Vec<SemanticNode>) -> (value: ParameterValue)
    ensures
        reports_nodes(value, nodes@),
{
    let mut values: Vec<ParameterValue> = Vec::new();
    let mut i: usize = 0;
    while i < nodes.len()
        invariant
            i <= nodes@.len(),
            values@.len() == i,
            forall|j: int|
                0 <= j < i ==> (#[trigger] values@[j]) is Table && describes(
                    values@[j]->Table_0@,
                    nodes@[j],
                ),
        decreases nodes@.len() - i,
    {
        let node = &nodes[i];
        let mut entries: Vec<Parameter> = Vec::new();
        entries.push(protocol::number_field("index", node.index));
        entries.push(protocol::text_field("tag", node.tag.as_str()));
        entries.push(reports::optional_text_field("id", &node.id));
        entries.push(reports::optional_text_field("role", &node.role));
        entries.push(reports::optional_text_field("name", &node.name));
        entries.push(reports::optional_text_field("element_type", &node.element_type));
        entries.push(protocol::text_field("text", node.text.as_str()));
        entries.push(protocol::flag_field("disabled", node.disabled));
        values.push(ParameterValue::Table(entries));
        i = i + 1;
    }
    ParameterValue::List(values)
}

impl BrowserSessionWorker {
    /// A worker without a browser.
    pub fn disabled() -> (worker: Self)
        ensures
            worker.config is None,
            worker.sessions@ == Map::<Seq<char>, ManagedBrowserSession>::empty(),
    {
        BrowserSessionWorker { config: None, sessions: Table::new() }
    }

    pub fn new(config: BrowserWorkerConfig) -> (worker: Self)
        ensures
            worker.config == Some(config),
            worker.sessions@ == Map::<Seq<char>, ManagedBrowserSession>::empty(),
    {
        BrowserSessionWorker { config: Some(config), sessions: Table::new() }
    }

    fn session(&self, authorization: &Authorization) -> (r: Result<
        &ManagedBrowserSession,
        BrowserError,
    >)
        ensures
            r is Err == session_fault(*self, *authorization) is Some,
            r is Err ==> r->Err_0@ == session_fault(*self, *authorization)->0,
            r is Ok ==> *r->Ok_0 == named_session(*self, *authorization),
    {
        let session_id = match required_str(authorization, "session_id") {
            Err(error) => {
                return Err(error);
            },
            Ok(id) => id,
        };
        let owner = owner_from_execution(authorization);
        match self.sessions.get(session_id) {
            None => Err(BrowserError::SessionNotFound),
            Some(session) => {
                if !same_owner(&session.owner, &owner) {
                    return Err(BrowserError::SessionNotFound);
                }
                Ok(session)
            },
        }
    }

    fn open_session(&self, authorization: &Authorization) -> (r: Result<
        &ManagedBrowserSession,
        BrowserError,
    >)
        ensures
            r is Err == observe_fault(*self, *authorization) is Some,
            r is Err ==> r->Err_0@ == observe_fault(*self, *authorization)->0,
            r is Ok ==> *r->Ok_0 == named_session(*self, *authorization),
    {
        let session = match self.session(authorization) {
            Err(error) => {
                return Err(error);
            },
            Ok(session) => session,
        };
        match session.bridge.ensure_open() {
            Err(error) => Err(error),
            Ok(()) => Ok(session),
        }
    }

    fn fresh_session(&self, authorization: &Authorization) -> (r: Result<
        &ManagedBrowserSession,
        BrowserError,
    >)
        ensures
            r is Err == stale_fault(*self, *authorization) is Some,
            r is Err ==> r->Err_0@ == stale_fault(*self, *authorization)->0,
            r is Ok ==> *r->Ok_0 == named_session(*self, *authorization),
    {
        let expected_generation: u64 = match required_u64(authorization, "generation") {
            Err(error) => {
                return Err(error);
            },
            Ok(generation) => generation,
        };
        let session = match self.session(authorization) {
            Err(error) => {
                return Err(error);
            },
            Ok(session) => session,
        };
        if expected_generation != session.generation {
            return Err(BrowserError::StaleElement);
        }
        Ok(session)
    }

    fn named(&self, authorization: &Authorization) -> (id: String)
        requires
            text_missing(*authorization, "session_id"@) is None,
        ensures
            id@ == given_text(*authorization, "session_id"@),
    {
        match protocol::find_text(&authorization.request.envelope.parameters, "session_id") {
            Some(id) => text::copied(id),
            None => text::copied(""),
        }
    }

    fn start_session(&self, authorization: &Authorization) -> (r: Result<BrowserPlan, BrowserError>)
        ensures
            r is Err == start_fault(*self, *authorization) is Some,
            r is Err ==> r->Err_0@ == start_fault(*self, *authorization)->0,
            r is Ok ==> (r->Ok_0 matches BrowserPlan::Start { session_id } && session_id@
                == session_name(authorization.request.envelope_digest@)),
    {
        if self.config.is_none() {
            return Err(BrowserError::BrowserDisabled);
        }
        let session_id = opaque_session_id(authorization.request.envelope_digest);
        if self.sessions.contains(session_id.as_str()) {
            return Err(BrowserError::DuplicateSession);
        }
        Ok(BrowserPlan::Start { session_id })
    }

    fn navigate(&self, authorization: &Authorization) -> (r: Result<BrowserPlan, BrowserError>)
        ensures
            r is Err == navigate_fault(*self, *authorization) is Some,
            r is Err ==> r->Err_0@ == navigate_fault(*self, *authorization)->0,
            r is Ok ==> (r->Ok_0 matches BrowserPlan::Navigate { session_id, url } && session_id@
                == given_text(*authorization, "session_id"@) && url@ == given_text(
                *authorization,
                "url"@,
            )),
    {
        let target = match required_str(authorization, "url") {
            Err(error) => {
                return Err(error);
            },
            Ok(url) => url,
        };
        match &self.config {
            None => {
                return Err(BrowserError::BrowserDisabled);
            },
            Some(config) => {
                if !same_origin_url(target, config.allowed_origin.as_str()) {
                    return Err(BrowserError::NavigationOutOfScope);
                }
            },
        }
        if let Err(error) = self.open_session(authorization) {
            return Err(error);
        }
        Ok(
            BrowserPlan::Navigate {
                session_id: self.named(authorization),
                url: text::copied(target),
            },
        )
    }

    fn click(&self, authorization: &Authorization) -> (r: Result<BrowserPlan, BrowserError>)
        ensures
            r is Err == click_fault(*self, *authorization) is Some,
            r is Err ==> r->Err_0@ == click_fault(*self, *authorization)->0,
            r is Ok ==> (r->Ok_0 matches BrowserPlan::Click { session_id, selector } && session_id@
                == given_text(*authorization, "session_id"@) && selector@ == given_text(
                *authorization,
                "selector"@,
            )),
    {
        let selector = match required_str(authorization, "selector") {
            Err(error) => {
                return Err(error);
            },
            Ok(selector) => selector,
        };
        let session = match self.fresh_session(authorization) {
            Err(error) => {
                return Err(error);
            },
            Ok(session) => session,
        };
        if let Err(error) = session.bridge.ensure_open() {
            return Err(error);
        }
        Ok(
            BrowserPlan::Click {
                session_id: self.named(authorization),
                selector: text::copied(selector),
            },
        )
    }

    fn download(&self, style: PathStyle, authorization: &Authorization) -> (r: Result<
        BrowserPlan,
        BrowserError,
    >)
        ensures
            r is Err == download_fault(*self, *authorization) is Some,
            r is Err ==> r->Err_0@ == download_fault(*self, *authorization)->0,
            r is Ok ==> (r->Ok_0 matches BrowserPlan::Download { session_id, selector, operation }
                && session_id@ == given_text(*authorization, "session_id"@) && selector@
                == given_text(*authorization, "selector"@) && browser::is_download(
                style,
                operation,
                named_session(*self, *authorization).bridge,
                given_text(*authorization, "operation_id"@),
                given_text(*authorization, "file_name"@),
            )),
    {
        let selector = match required_str(authorization, "selector") {
            Err(error) => {
                return Err(error);
            },
            Ok(selector) => selector,
        };
        let file_name = match required_str(authorization, "file_name") {
            Err(error) => {
                return Err(error);
            },
            Ok(name) => name,
        };
        let operation_id = match required_str(authorization, "operation_id") {
            Err(error) => {
                return Err(error);
            },
            Ok(id) => id,
        };
        let session = match self.fresh_session(authorization) {
            Err(error) => {
                return Err(error);
            },
            Ok(session) => session,
        };
        match session.bridge.plan_download(style, operation_id, file_name) {
            Err(error) => Err(error),
            Ok(operation) => Ok(
                BrowserPlan::Download {
                    session_id: self.named(authorization),
                    selector: text::copied(selector),
                    operation,
                },
            ),
        }
    }

    /// What an approved request asks of the browser.
    pub fn execute_approved(&self, style: PathStyle, execution: &ExecutionAuthorization) -> (r: Result<
        BrowserPlan,
        BrowserError,
    >)
        ensures
            r is Err == plan_fault(*self, execution.granted()) is Some,
            r is Err ==> r->Err_0@ == plan_fault(*self, execution.granted())->0,
            r is Ok ==> plan_follows(style, r->Ok_0, *self, execution.granted()),
    {
        let authorization = execution.authorization();
        if !text::same_text(
            authorization.request.envelope.action.as_str(),
            "browser.session.use",
        ) {
            return Err(BrowserError::WrongAction);
        }
        let operation = match required_str(authorization, "operation") {
            Err(error) => {
                return Err(error);
            },
            Ok(operation) => operation,
        };
        if text::same_text(operation, "start") {
            self.start_session(authorization)
        } else if text::same_text(operation, "navigate") {
            self.navigate(authorization)
        } else if text::same_text(operation, "observe") {
            match self.open_session(authorization) {
                Err(error) => Err(error),
                Ok(_) => Ok(BrowserPlan::Observe { session_id: self.named(authorization) }),
            }
        } else if text::same_text(operation, "click") {
            self.click(authorization)
        } else if text::same_text(operation, "download") {
            self.download(style, authorization)
        } else if text::same_text(operation, "close") {
            match self.session(authorization) {
                Err(error) => Err(error),
                Ok(_) => Ok(BrowserPlan::Close { session_id: self.named(authorization) }),
            }
        } else {
            Err(BrowserError::InvalidOperation)
        }
    }
}

// ---------------------------------------------------------------------------
// What became of it

/// A report that names a session and its generation, and more.
pub open spec fn reports_generation(report: ParameterValue, session_id: Seq<char>, generation: u64, len: nat) -> bool {
    &&& report is Table
    &&& report->Table_0@.len() == len
    &&& protocol::text_entry(report->Table_0@[0], "session_id"@, session_id)
    &&& protocol::number_entry(report->Table_0@[1], "generation"@, generation)
}

fn generation_report(session_id: &str, generation: u64) -> (entries: Vec<Parameter>)
    ensures
        entries@.len() == 2,
        protocol::text_entry(entries@[0], "session_id"@, session_id@),
        protocol::number_entry(entries@[1], "generation"@, generation),
{
    let mut entries: Vec<Parameter> = Vec::new();
    entries.push(
        Parameter {
            name: text::copied("session_id"),
            value: ParameterValue::Text(text::copied(session_id)),
        },
    );
    entries.push(
        Parameter {
            name: text::copied("generation"),
            value: ParameterValue::Unsigned(generation),
        },
    );
    entries
}

impl BrowserSessionWorker {
    /// Takes in a session that was started.
    pub fn started(
        &mut self,
        execution: &ExecutionAuthorization,
        session_id: &str,
        bridge: BrowserBridge,
        root: PathText,
    ) -> (report: ParameterValue)
        ensures
            final(self).config == old(self).config,
            ({
                let session = final(self).sessions@[session_id@];
                &&& final(self).sessions@ == old(self).sessions@.insert(session_id@, session)
                &&& session.owner@ == owner_of(execution.granted())
                &&& session.bridge == bridge
                &&& session.generation == 0
                &&& session.root == root
            }),
            reports_generation(report, session_id@, 0, 2),
    {
        let owner = owner_from_execution(execution.authorization());
        let id = text::copied(session_id);
        self.sessions.insert(id, ManagedBrowserSession { owner, bridge, generation: 0, root });
        ParameterValue::Table(generation_report(session_id, 0))
    }

    /// Takes in that a session went elsewhere: what was found before is stale.
    pub fn navigated(&mut self, session_id: &str) -> (report: ParameterValue)
        requires
            old(self).sessions@.contains_key(session_id@),
            old(self).sessions@[session_id@].generation < u64::MAX,
        ensures
            final(self).config == old(self).config,
            final(self).sessions@ == old(self).sessions@.insert(
                session_id@,
                ManagedBrowserSession {
                    generation: (old(self).sessions@[session_id@].generation + 1) as u64,
                    ..old(self).sessions@[session_id@]
                },
            ),
            reports_generation(
                report,
                session_id@,
                (old(self).sessions@[session_id@].generation + 1) as u64,
                2,
            ),
    {
        let ghost before = self.sessions@;
        match self.sessions.remove(session_id) {
            None => ParameterValue::Null,
            Some(session) => {
                let mut session = session;
                session.generation = session.generation + 1;
                let generation: u64 = session.generation;
                self.sessions.insert(text::copied(session_id), session);
                proof {
                    assert(self.sessions@ =~= before.insert(session_id@, session));
                }
                ParameterValue::Table(generation_report(session_id, generation))
            },
        }
    }

    /// Says what a session shows.
    pub fn observed(&self, session_id: &str, nodes: &Vec<SemanticNode>) -> (report: ParameterValue)
        requires
            self.sessions@.contains_key(session_id@),
        ensures
            reports_generation(
                report,
                session_id@,
                self.sessions@[session_id@].generation,
                3,
            ),
            report->Table_0@[2].name@ == "nodes"@,
            reports_nodes(report->Table_0@[2].value, nodes@),
    {
        let generation: u64 = match self.sessions.get(session_id) {
            Some(session) => session.generation,
            None => 0,
        };
        let mut entries = generation_report(session_id, generation);
        entries.push(Parameter { name: text::copied("nodes"), value: nodes_report(nodes) });
        ParameterValue::Table(entries)
    }

    /// Says that an element was clicked.
    pub fn clicked(&self, session_id: &str) -> (report: ParameterValue)
        requires
            self.sessions@.contains_key(session_id@),
        ensures
            reports_generation(
                report,
                session_id@,
                self.sessions@[session_id@].generation,
                3,
            ),
            protocol::flag_entry(report->Table_0@[2], "clicked"@, true),
    {
        let generation: u64 = match self.sessions.get(session_id) {
            Some(session) => session.generation,
            None => 0,
        };
        let mut entries = generation_report(session_id, generation);
        entries.push(
            Parameter { name: text::copied("clicked"), value: ParameterValue::Bool(true) },
        );
        ParameterValue::Table(entries)
    }

    /// Begins to close a session.
    pub fn close(&mut self, session_id: &str) -> (r: Result<CloseTurn, BrowserError>)
        requires
            old(self).sessions@.contains_key(session_id@),
        ensures
            final(self).config == old(self).config,
            ({
                let before = old(self).sessions@[session_id@];
                let after = final(self).sessions@[session_id@];
                &&& final(self).sessions@ == old(self).sessions@.insert(session_id@, after)
                &&& after == (ManagedBrowserSession { bridge: after.bridge, ..before })
                &&& after.bridge == (BrowserBridge {
                    close_state: if before.bridge.close_state == BrowserCloseState::Open {
                        BrowserCloseState::Closing
                    } else {
                        before.bridge.close_state
                    },
                    ..before.bridge
                })
                &&& match before.bridge.close_state {
                    BrowserCloseState::Open => r matches Ok(CloseTurn::Delete(url)) && url@
                        == browser::session_url(before.bridge.endpoint@, before.bridge.session_id@),
                    BrowserCloseState::Closed => r == Ok::<CloseTurn, BrowserError>(
                        CloseTurn::Done(BrowserCloseReceipt { state: BrowserCloseState::Closed }),
                    ),
                    _ => r == Err::<CloseTurn, BrowserError>(BrowserError::SessionClosing),
                }
            }),
    {
        let ghost before = self.sessions@;
        match self.sessions.remove(session_id) {
            None => Err(BrowserError::SessionNotFound),
            Some(session) => {
                let mut session = session;
                let turn = session.bridge.close();
                self.sessions.insert(text::copied(session_id), session);
                proof {
                    assert(self.sessions@ =~= before.insert(session_id@, session));
                }
                turn
            },
        }
    }

    /// Takes in whether the driver closed a session. One that was closed is
    /// forgotten; its state is to be removed from where it was.
    pub fn closed(&mut self, session_id: &str, confirmed: bool) -> (r: Result<
        PathText,
        BrowserError,
    >)
        requires
            old(self).sessions@.contains_key(session_id@),
            old(self).sessions@[session_id@].bridge.close_state == BrowserCloseState::Closing,
        ensures
            final(self).config == old(self).config,
            confirmed ==> final(self).sessions@ == old(self).sessions@.remove(session_id@),
            confirmed ==> (if old(self).config is Some {
                r == Ok::<PathText, BrowserError>(old(self).sessions@[session_id@].root)
            } else {
                r == Err::<PathText, BrowserError>(BrowserError::BrowserDisabled)
            }),
            !confirmed ==> r == Err::<PathText, BrowserError>(BrowserError::CloseUnconfirmed),
            !confirmed ==> ({
                let before = old(self).sessions@[session_id@];
                final(self).sessions@ == old(self).sessions@.insert(
                    session_id@,
                    ManagedBrowserSession {
                        bridge: BrowserBridge {
                            close_state: BrowserCloseState::CloseUnconfirmed,
                            ..before.bridge
                        },
                        ..before
                    },
                )
            }),
    {
        let ghost before = self.sessions@;
        match self.sessions.remove(session_id) {
            None => Err(BrowserError::SessionNotFound),
            Some(session) => {
                let mut session = session;
                match session.bridge.closed(confirmed) {
                    Err(error) => {
                        self.sessions.insert(text::copied(session_id), session);
                        proof {
                            assert(self.sessions@ =~= before.insert(session_id@, session));
                        }
                        Err(error)
                    },
                    Ok(_) => {
                        if self.config.is_none() {
                            return Err(BrowserError::BrowserDisabled);
                        }
                        Ok(session.root)
                    },
                }
            },
        }
    }

    /// Says that a session was closed.
    pub fn close_report(session_id: &str) -> (report: ParameterValue)
        ensures
            report is Table,
            report->Table_0@.len() == 2,
            protocol::text_entry(report->Table_0@[0], "session_id"@, session_id@),
            protocol::text_entry(report->Table_0@[1], "state"@, "closed"@),
    {
        let mut entries: Vec<Parameter> = Vec::new();
        entries.push(
            Parameter {
                name: text::copied("session_id"),
                value: ParameterValue::Text(text::copied(session_id)),
            },
        );
        entries.push(
            Parameter {
                name: text::copied("state"),
                value: ParameterValue::Text(text::copied("closed")),
            },
        );
        ParameterValue::Table(entries)
    }
}

// ---------------------------------------------------------------------------
// Laws

/// A request that names another's session is answered as one that names no
/// session at all.
pub proof fn foreign_sessions_look_missing(
    worker: BrowserSessionWorker,
    without: BrowserSessionWorker,
    authorization: Authorization,
)
    requires
        text_missing(authorization, "session_id"@) is None,
        worker.sessions@.contains_key(given_text(authorization, "session_id"@)),
        named_session(worker, authorization).owner@ != owner_of(authorization),
        !without.sessions@.contains_key(given_text(authorization, "session_id"@)),
    ensures
        session_fault(worker, authorization) == session_fault(without, authorization),
        session_fault(worker, authorization) == Some(BrowserFault::SessionNotFound),
{
}

/// Whoever navigates, looks, clicks or downloads in a session owns it.
pub proof fn sessions_serve_their_owner(worker: BrowserSessionWorker, authorization: Authorization)
    requires
        plan_fault(worker, authorization) is None,
        given_text(authorization, "operation"@) != "start"@,
    ensures
        named_session(worker, authorization).owner@ == owner_of(authorization),
        worker.sessions@.contains_key(given_text(authorization, "session_id"@)),
{
}

/// No session is sent outside the origin that its worker allows.
pub proof fn navigation_stays_at_the_origin(
    worker: BrowserSessionWorker,
    authorization: Authorization,
)
    requires
        plan_fault(worker, authorization) is None,
        given_text(authorization, "operation"@) == "navigate"@,
    ensures
        worker.config is Some,
        is_same_origin(given_text(authorization, "url"@), worker.config->0.allowed_origin@),
{
    reveal_strlit("start");
    reveal_strlit("navigate");
    assert("start"@.len() != "navigate"@.len());
}

/// The name of a session is always safe as a component of a path, whatever the
/// request that starts it.
pub proof fn session_names_are_safe(envelope_digest: Seq<u8>)
    requires
        envelope_digest.len() == 32,
    ensures
        is_safe_component(session_name(envelope_digest)),
{
    reveal_strlit("bs-");
    let name = session_name(envelope_digest);
    let hex = codec::hex_text(envelope_digest);
    assert(name.len() == 67);
    assert forall|i: int| 0 <= i < name.len() implies is_safe_char(#[trigger] name[i]) by {
        if i < 3 {
            assert(name[i] == "bs-"@[i]);
        } else {
            assert(name[i] == hex[i - 3]);
            codec::hex_round_trip(envelope_digest);
            assert(codec::hex_value(hex[i - 3]) is Some);
        }
    }
}

/// Different requests start differently named sessions.
pub proof fn session_names_tell_requests_apart(a: Seq<u8>, b: Seq<u8>)
    requires
        a != b,
    ensures
        session_name(a) != session_name(b),
{
    if session_name(a) == session_name(b) {
        let n = "bs-"@.len() as int;
        assert(session_name(a).skip(n) =~= codec::hex_text(a));
        assert(session_name(b).skip(n) =~= codec::hex_text(b));
        codec::hex_round_trip(a);
        codec::hex_round_trip(b);
    }
}

/// The place is the last where the character stands, or none.
pub proof fn last_places_are_last(s: Seq<char>, c: char)
    ensures
        -1 <= last_index(s, c) < s.len(),
        last_index(s, c) >= 0 ==> s[last_index(s, c)] == c,
        forall|k: int| last_index(s, c) < k < s.len() ==> #[trigger] s[k] != c,
    decreases s.len(),
{
    if s.len() > 0 && s.last() != c {
        let fewer = s.drop_last();
        last_places_are_last(fewer, c);
        assert forall|k: int| last_index(s, c) < k < s.len() implies #[trigger] s[k] != c by {
            if k < fewer.len() {
                assert(fewer[k] == s[k]);
            }
        }
    }
}

proof fn lemma_first_match(s: Seq<char>, mark: Seq<char>, i: int)
    requires
        0 <= i,
        passages::matches_from(s, mark, i).len() > 0,
    ensures
        ({
            let p = passages::matches_from(s, mark, i)[0];
            &&& i <= p
            &&& passages::stands_at(s, mark, p)
            &&& forall|k: int| i <= k < p ==> !(#[trigger] passages::stands_at(s, mark, k))
        }),
    decreases s.len() - i,
{
    if !passages::stands_at(s, mark, i) {
        lemma_first_match(s, mark, i + 1);
    }
}

proof fn lemma_match_found(s: Seq<char>, mark: Seq<char>, i: int, p: int)
    requires
        0 <= i <= p,
        mark.len() > 0,
        passages::stands_at(s, mark, p),
        forall|k: int| i <= k < p ==> #[trigger] s[k] != mark[0],
    ensures
        passages::matches_from(s, mark, i).len() > 0,
        passages::matches_from(s, mark, i)[0] == p,
    decreases p - i,
{
    if i < p {
        assert(s[i] != mark[0]);
        if passages::stands_at(s, mark, i) {
            assert(s.subrange(i, i + mark.len())[0] == s[i]);
        }
        lemma_match_found(s, mark, i + 1, p);
    }
}

/// An address is read as the scheme before the first mark, the host and the port behind it
/// up to the first slash, and the rest; the schemes are http and https, there is no at sign,
/// the host is not empty, and the port is the number behind the last colon, or that of the
/// scheme where there is no colon.
pub proof fn origins_are_the_parts_of_addresses(input: Seq<char>)
    requires
        origin_of(input) is Some,
    ensures
        ({
            let o = origin_of(input)->0;
            exists|authority: Seq<char>, slash: Seq<char>| #[trigger]
                is_written(input, o, authority, slash)
        }),
{
    let mark = "://"@;
    reveal_strlit("://");
    assert(mark.len() == 3);
    let places = passages::matches_from(input, mark, 0);
    lemma_first_match(input, mark, 0);
    let p = places[0];
    let scheme = input.take(p);
    let after = input.skip(p + 3);
    assert(input =~= scheme + mark + after) by {
        assert(input.subrange(p, p + 3) == mark);
        assert forall|k: int| 0 <= k < input.len() implies input[k] == (scheme + mark + after)[k] by {
            if p <= k < p + 3 {
                assert(input.subrange(p, p + 3)[k - p] == input[k]);
            }
        }
    }
    text::first_places_are_first(after, '/');
    let n = text::first_index(after, '/');
    let o = origin_of(input)->0;
    if n < after.len() {
        let authority = after.take(n);
        assert(after =~= authority + seq!['/'] + after.skip(n + 1));
        assert(input =~= scheme + mark + authority + seq!['/'] + after.skip(n + 1));
        last_places_are_last(authority, ':');
        lemma_authority(authority, last_index(authority, ':'));
        assert(is_written(input, o, authority, seq!['/']));
    } else {
        last_places_are_last(after, ':');
        lemma_authority(after, last_index(after, ':'));
        assert(input =~= scheme + mark + after + Seq::<char>::empty() + Seq::<char>::empty());
        assert(is_written(input, o, after, Seq::empty()));
    }
}

proof fn lemma_authority(authority: Seq<char>, colon: int)
    requires
        0 <= colon < authority.len() ==> authority[colon] == ':',
        -1 <= colon < authority.len(),
    ensures
        colon >= 0 ==> authority == authority.take(colon) + seq![':'] + authority.skip(colon + 1),
{
    if colon >= 0 {
        assert(authority =~= authority.take(colon) + seq![':'] + authority.skip(colon + 1));
    }
}

/// How an address with an origin is written, with the slash behind the origin where there is
/// one.
pub open spec fn is_written(
    input: Seq<char>,
    o: Origin,
    authority: Seq<char>,
    slash: Seq<char>,
) -> bool {
    &&& input == o.scheme + "://"@ + authority + slash + o.rest
    &&& o.scheme == "http"@ || o.scheme == "https"@
    &&& slash == seq!['/'] || (slash.len() == 0 && o.rest.len() == 0)
    &&& !authority.contains('/')
    &&& !authority.contains('@')
    &&& o.host.len() > 0
    &&& !authority.contains(':') ==> authority == o.host && o.port == (if o.scheme == "https"@ {
        443int
    } else {
        80
    })
    &&& authority.contains(':') ==> exists|digits: Seq<char>|
        #![trigger text::parsed_u64(digits)]
        {
            &&& authority == o.host + seq![':'] + digits
            &&& !digits.contains(':')
            &&& text::parsed_u64(digits) == Some(o.port as u64)
            &&& 0 <= o.port <= 65535
        }
}

/// An address that is written like this has this origin: with the port of its scheme, or
/// with the one that it names.
pub proof fn addresses_have_the_origin_they_name(
    secure: bool,
    host: Seq<char>,
    port: nat,
    rest: Seq<char>,
)
    requires
        host.len() > 0,
        !host.contains('/'),
        !host.contains('@'),
        !host.contains(':'),
    ensures
        ({
            let scheme = if secure {
                "https"@
            } else {
                "http"@
            };
            let usual = if secure {
                443int
            } else {
                80
            };
            let plain = scheme + "://"@ + host + seq!['/'] + rest;
            let named = scheme + "://"@ + (host + seq![':'] + text::decimal_text(port)) + seq!['/']
                + rest;
            &&& origin_of(plain) == Some(Origin { scheme, host, port: usual, rest })
            &&& port <= 65535 ==> origin_of(named) == Some(
                Origin { scheme, host, port: port as int, rest },
            )
            &&& port > 65535 ==> origin_of(named) is None
        }),
{
    reveal_strlit("http");
    reveal_strlit("https");
    reveal_strlit("://");
    assert("http"@.len() == 4 && "https"@.len() == 5);
    let scheme = if secure {
        "https"@
    } else {
        "http"@
    };
    assert forall|k: int| 0 <= k < scheme.len() implies #[trigger] scheme[k] != ':' by {}
    last_places_are_last(host, ':');
    lemma_cut(scheme, host, rest);
    assert(last_index(host, ':') == -1) by {
        if last_index(host, ':') >= 0 {
            assert(host.contains(host[last_index(host, ':')]));
        }
    }
    let digits = text::decimal_text(port);
    text::lemma_decimal(port);
    text::written_numbers_are_read_back(port);
    let authority = host + seq![':'] + digits;
    let n = host.len() as int;
    assert forall|k: int| 0 <= k < digits.len() implies '0' <= #[trigger] digits[k] <= '9' by {
        assert(text::is_ascii_digit(digits[k]));
    }
    assert(authority[n] == ':');
    last_places_are_last(authority, ':');
    assert(last_index(authority, ':') == n) by {
        let last = last_index(authority, ':');
        if last > n {
            assert(authority[last] == digits[last - n - 1]);
        }
    }
    assert(authority.take(n) =~= host);
    assert(authority.skip(n + 1) =~= digits);
    assert(!authority.contains('/') && !authority.contains('@')) by {
        assert forall|k: int| 0 <= k < authority.len() implies #[trigger] authority[k] != '/'
            && authority[k] != '@' by {
            if k < n {
                assert(host.contains(host[k]));
                assert(authority[k] == host[k]);
            } else if k > n {
                assert(authority[k] == digits[k - n - 1]);
            }
        }
    }
    lemma_cut(scheme, authority, rest);
}

proof fn lemma_cut(scheme: Seq<char>, authority: Seq<char>, rest: Seq<char>)
    requires
        scheme == "http"@ || scheme == "https"@,
        !authority.contains('/'),
        forall|k: int| 0 <= k < scheme.len() ==> #[trigger] scheme[k] != ':',
    ensures
        origin_of(scheme + "://"@ + authority + seq!['/'] + rest) == authority_origin(
            scheme,
            authority,
            rest,
        ),
{
    reveal_strlit("://");
    let mark = "://"@;
    assert(mark.len() == 3 && mark[0] == ':');
    let input = scheme + mark + authority + seq!['/'] + rest;
    let p = scheme.len() as int;
    assert(input.subrange(p, p + 3) =~= mark);
    assert forall|k: int| 0 <= k < p implies #[trigger] input[k] != mark[0] by {
        assert(input[k] == scheme[k]);
    }
    lemma_match_found(input, mark, 0, p);
    assert(input.take(p) =~= scheme);
    let after = input.skip(p + 3);
    assert(after =~= authority + seq!['/'] + rest);
    text::first_places_are_first(after, '/');
    let n = authority.len() as int;
    assert(after[n] == '/');
    assert(text::first_index(after, '/') == n) by {
        let first = text::first_index(after, '/');
        if first < n {
            assert(after[first] == authority[first]);
            assert(authority.contains(authority[first]));
        }
    }
    assert(after.take(n) =~= authority);
    assert(after.skip(n + 1) =~= rest);
}

/// Addresses lie at the same origin exactly when both have one, scheme, host and port agree,
/// and no at sign stands behind the origin of the first.
pub proof fn origins_agree_in_scheme_host_and_port(candidate: Seq<char>, allowed: Seq<char>)
    ensures
        is_same_origin(candidate, allowed) <==> {
            let a = origin_of(candidate);
            let b = origin_of(allowed);
            &&& a is Some && b is Some
            &&& a->0.scheme == b->0.scheme
            &&& a->0.host == b->0.host
            &&& a->0.port == b->0.port
            &&& !a->0.rest.contains('@')
        },
{
}

/// A name is safe as a component exactly when it is 1 to 80 letters, digits and hyphens; the
/// sessions are named by the digests of their requests behind two letters and a hyphen.
pub proof fn safe_components_are_plain(value: Seq<char>, digest: Seq<u8>)
    ensures
        is_safe_component(value) <==> 1 <= value.len() <= 80 && forall|i: int|
            0 <= i < value.len() ==> ('a' <= #[trigger] value[i] <= 'z' || 'A' <= value[i] <= 'Z'
                || '0' <= value[i] <= '9' || value[i] == '-'),
        session_name(digest) == seq!['b', 's', '-'] + codec::hex_text(digest),
{
    reveal_strlit("bs-");
    assert("bs-"@ =~= seq!['b', 's', '-']);
    if is_safe_component(value) {
        assert forall|i: int| 0 <= i < value.len() implies ('a' <= #[trigger] value[i] <= 'z' || 'A'
            <= value[i] <= 'Z' || '0' <= value[i] <= '9' || value[i] == '-') by {
            assert(is_safe_char(value[i]));
        }
    }
    if 1 <= value.len() <= 80 && forall|i: int|
        0 <= i < value.len() ==> ('a' <= #[trigger] value[i] <= 'z' || 'A' <= value[i] <= 'Z' || '0'
            <= value[i] <= '9' || value[i] == '-') {
        assert forall|i: int| 0 <= i < value.len() implies is_safe_char(#[trigger] value[i]) by {}
    }
}

/// A request has a session of its own exactly when it names one that is there and that the
/// same actor of the same organization, device and workspace started.
pub open spec fn has_own_session(worker: BrowserSessionWorker, authorization: Authorization) -> bool {
    let envelope = authorization.request.envelope;
    let id = protocol::text_parameter(envelope.parameters@, "session_id"@);
    let owner = worker.sessions@[id->0].owner;
    &&& id is Some
    &&& worker.sessions@.contains_key(id->0)
    &&& owner.organization_id@ == envelope.organization_id@
    &&& owner.actor_id@ == envelope.actor_id@
    &&& owner.device_id@ == envelope.device_id@
    &&& (match owner.workspace_id {
        Some(workspace) => Some(workspace@),
        None => None,
    }) == protocol::text_parameter(envelope.parameters@, "workspace_id"@)
}

/// The browser is used exactly when it may be: a session is started where the browser is
/// there and the request started none; everything else needs a session of one's own, open
/// but for closing it, and what the operation needs: an address at the allowed origin, an
/// element of the page that is still shown, a name to save under.
pub proof fn browsers_are_used_exactly_when_they_may_be(
    worker: BrowserSessionWorker,
    authorization: Authorization,
)
    requires
        authorization.request.envelope.action@ == "browser.session.use"@,
    ensures
        ({
            let p = authorization.request.envelope.parameters@;
            let given = |name: Seq<char>| protocol::text_parameter(p, name);
            let operation = given("operation"@);
            let session = worker.sessions@[given("session_id"@)->0];
            let own = has_own_session(worker, authorization);
            let open = session.bridge.close_state is Open;
            let fresh = protocol::unsigned_parameter(p, "generation"@) == Some(session.generation);
            let fault = plan_fault(worker, authorization);
            &&& operation == Some("start"@) ==> (fault is None <==> worker.config is Some
                && !worker.sessions@.contains_key(
                session_name(authorization.request.envelope_digest@),
            ))
            &&& operation == Some("navigate"@) ==> (fault is None <==> given("url"@) is Some
                && worker.config is Some && is_same_origin(
                given("url"@)->0,
                worker.config->0.allowed_origin@,
            ) && own && open)
            &&& operation == Some("observe"@) ==> (fault is None <==> own && open)
            &&& operation == Some("click"@) ==> (fault is None <==> given("selector"@) is Some
                && fresh && own && open)
            &&& operation == Some("download"@) ==> (fault is None <==> given("selector"@) is Some
                && given("file_name"@) is Some && given("operation_id"@) is Some && fresh && own
                && open && !text::is_blank(given("operation_id"@)->0) && browser::is_safe_name(
                given("file_name"@)->0,
            ))
            &&& operation == Some("close"@) ==> (fault is None <==> own)
            &&& operation is None ==> fault == Some(
                browser::BrowserFault::MissingParameter("operation"@),
            )
            &&& operation is Some && operation != Some("start"@) && operation != Some("navigate"@)
                && operation != Some("observe"@) && operation != Some("click"@) && operation
                != Some("download"@) && operation != Some("close"@) ==> fault == Some(
                browser::BrowserFault::InvalidOperation,
            )
        }),
{
    reveal_strlit("start");
    reveal_strlit("navigate");
    reveal_strlit("observe");
    reveal_strlit("click");
    reveal_strlit("download");
    reveal_strlit("close");
    assert("start"@.len() == 5);
    assert("navigate"@.len() == 8);
    assert("observe"@.len() == 7);
    assert("click"@.len() == 5);
    assert("download"@.len() == 8);
    assert("close"@.len() == 5);
    assert("start"@[0] == 's' && "click"@[0] == 'c');
    assert("start"@[0] == 's' && "close"@[0] == 'c');
    assert("click"@[2] == 'i' && "close"@[2] == 'o');
    assert("navigate"@[0] == 'n' && "download"@[0] == 'd');
    let id = given_text(authorization, "session_id"@);
    let owner = worker.sessions@[id].owner@;
    let own = owner_of(authorization);
    assert(owner == own <==> owner.organization_id == own.organization_id && owner.actor_id
        == own.actor_id && owner.device_id == own.device_id && owner.workspace_id
        == own.workspace_id);
    assert((session_fault(worker, authorization) is None) == has_own_session(worker, authorization));
}

/// What is not for the browser is refused; foreign and missing sessions are not found, pages
/// that are no longer shown are stale, and other origins are out of scope.
pub proof fn browser_refusals_tell_why(worker: BrowserSessionWorker, authorization: Authorization)
    ensures
        ({
            let p = authorization.request.envelope.parameters@;
            let given = |name: Seq<char>| protocol::text_parameter(p, name);
            let own = has_own_session(worker, authorization);
            let generation = protocol::unsigned_parameter(p, "generation"@);
            &&& authorization.request.envelope.action@ != "browser.session.use"@ ==> plan_fault(
                worker,
                authorization,
            ) == Some(browser::BrowserFault::WrongAction)
            &&& given("session_id"@) is Some && !own ==> session_fault(worker, authorization)
                == Some(browser::BrowserFault::SessionNotFound)
            &&& given("session_id"@) is None ==> session_fault(worker, authorization) == Some(
                browser::BrowserFault::MissingParameter("session_id"@),
            )
            &&& given("url"@) is Some && worker.config is Some && !is_same_origin(
                given("url"@)->0,
                worker.config->0.allowed_origin@,
            ) ==> navigate_fault(worker, authorization) == Some(
                browser::BrowserFault::NavigationOutOfScope,
            )
            &&& own && generation is Some && generation->0 != named_session(
                worker,
                authorization,
            ).generation ==> stale_fault(worker, authorization) == Some(
                browser::BrowserFault::StaleElement,
            )
            &&& worker.config is None ==> start_fault(worker, authorization) == Some(
                browser::BrowserFault::BrowserDisabled,
            )
        }),
{
    let id = given_text(authorization, "session_id"@);
    let owner = worker.sessions@[id].owner@;
    let own = owner_of(authorization);
    assert(owner == own <==> owner.organization_id == own.organization_id && owner.actor_id
        == own.actor_id && owner.device_id == own.device_id && owner.workspace_id
        == own.workspace_id);
    assert((session_fault(worker, authorization) is None) == has_own_session(worker, authorization));
}

/// A plan does what the operation is called, to the session and with what the request names.
pub proof fn browser_plans_do_what_the_operation_says(
    style: PathStyle,
    plan: BrowserPlan,
    worker: BrowserSessionWorker,
    authorization: Authorization,
)
    requires
        plan_fault(worker, authorization) is None,
        plan_follows(style, plan, worker, authorization),
    ensures
        ({
            let p = authorization.request.envelope.parameters@;
            let given = |name: Seq<char>| protocol::text_parameter(p, name);
            let operation = given("operation"@);
            &&& operation == Some("start"@) <==> plan is Start
            &&& operation == Some("navigate"@) <==> plan is Navigate
            &&& operation == Some("observe"@) <==> plan is Observe
            &&& operation == Some("click"@) <==> plan is Click
            &&& operation == Some("download"@) <==> plan is Download
            &&& operation == Some("close"@) <==> plan is Close
            &&& plan matches BrowserPlan::Start { session_id } ==> session_id@ == session_name(
                authorization.request.envelope_digest@,
            )
            &&& plan matches BrowserPlan::Navigate { session_id, url } ==> Some(session_id@)
                == given("session_id"@) && Some(url@) == given("url"@)
            &&& plan matches BrowserPlan::Observe { session_id } ==> Some(session_id@) == given(
                "session_id"@,
            )
            &&& plan matches BrowserPlan::Click { session_id, selector } ==> Some(session_id@)
                == given("session_id"@) && Some(selector@) == given("selector"@)
            &&& plan matches BrowserPlan::Download { session_id, selector, operation } ==> Some(
                session_id@,
            ) == given("session_id"@) && Some(selector@) == given("selector"@) && Some(
                operation.operation_id@,
            ) == given("operation_id"@) && Some(operation.file_name@) == given("file_name"@)
            &&& plan matches BrowserPlan::Close { session_id } ==> Some(session_id@) == given(
                "session_id"@,
            )
        }),
{
    reveal_strlit("start");
    reveal_strlit("navigate");
    reveal_strlit("observe");
    reveal_strlit("click");
    reveal_strlit("download");
    reveal_strlit("close");
    assert("start"@.len() == 5);
    assert("navigate"@.len() == 8);
    assert("observe"@.len() == 7);
    assert("click"@.len() == 5);
    assert("download"@.len() == 8);
    assert("close"@.len() == 5);
    assert("start"@[0] == 's' && "click"@[0] == 'c');
    assert("start"@[0] == 's' && "close"@[0] == 'c');
    assert("click"@[2] == 'i' && "close"@[2] == 'o');
    assert("navigate"@[0] == 'n' && "download"@[0] == 'd');
}

/// An element of a page is told under these names.
pub proof fn elements_are_told_by_name(
    entries: Seq<Parameter>,
    node: SemanticNode,
)
    requires
        describes(entries, node),
    ensures
        protocol::unsigned_parameter(entries, "index"@) == Some(node.index),
        protocol::text_parameter(entries, "tag"@) == Some(node.tag@),
        node.id matches Some(id) ==> protocol::text_parameter(entries, "id"@) == Some(id@),
        node.role matches Some(role) ==> protocol::text_parameter(entries, "role"@) == Some(role@),
        node.name matches Some(name) ==> protocol::text_parameter(entries, "name"@) == Some(name@),
        node.element_type matches Some(kind) ==> protocol::text_parameter(
            entries,
            "element_type"@,
        ) == Some(kind@),
        node.id is None ==> protocol::parameter(entries, "id"@) == Some(ParameterValue::Null),
        node.role is None ==> protocol::parameter(entries, "role"@) == Some(ParameterValue::Null),
        node.name is None ==> protocol::parameter(entries, "name"@) == Some(ParameterValue::Null),
        node.element_type is None ==> protocol::parameter(entries, "element_type"@) == Some(
            ParameterValue::Null,
        ),
        protocol::text_parameter(entries, "text"@) == Some(node.text@),
        protocol::flag_parameter(entries, "disabled"@) == Some(node.disabled),
{
    reveal_strlit("index");
    reveal_strlit("tag");
    reveal_strlit("id");
    reveal_strlit("role");
    reveal_strlit("name");
    reveal_strlit("element_type");
    reveal_strlit("text");
    reveal_strlit("disabled");
    assert("index"@.len() == 5);
    assert("tag"@.len() == 3);
    assert("id"@.len() == 2);
    assert("role"@.len() == 4);
    assert("name"@.len() == 4);
    assert("element_type"@.len() == 12);
    assert("text"@.len() == 4);
    assert("disabled"@.len() == 8);
    assert("role"@[0] == 'r' && "name"@[0] == 'n');
    assert("role"@[0] == 'r' && "text"@[0] == 't');
    assert("name"@[0] == 'n' && "text"@[0] == 't');
    protocol::parameters_are_found_by_name(entries, "index"@, 0);
    protocol::parameters_are_found_by_name(entries, "tag"@, 1);
    protocol::parameters_are_found_by_name(entries, "id"@, 2);
    protocol::parameters_are_found_by_name(entries, "role"@, 3);
    protocol::parameters_are_found_by_name(entries, "name"@, 4);
    protocol::parameters_are_found_by_name(entries, "element_type"@, 5);
    protocol::parameters_are_found_by_name(entries, "text"@, 6);
    protocol::parameters_are_found_by_name(entries, "disabled"@, 7);
}

/// The page that a session shows is told by the name of the session and a number.
pub proof fn generations_are_told_by_name(
    report: ParameterValue,
    session_id: Seq<char>,
    generation: u64,
    len: nat,
)
    requires
        reports_generation(report, session_id, generation, len),
        len >= 2,
    ensures
        report is Table,
        protocol::text_parameter(report->Table_0@, "session_id"@) == Some(session_id),
        protocol::unsigned_parameter(report->Table_0@, "generation"@) == Some(generation),
{
    reveal_strlit("session_id");
    reveal_strlit("generation");
    assert("session_id"@.len() == 10);
    assert("generation"@.len() == 10);
    assert("session_id"@[0] == 's' && "generation"@[0] == 'g');
    protocol::parameters_are_found_by_name(report->Table_0@, "session_id"@, 0);
    protocol::parameters_are_found_by_name(report->Table_0@, "generation"@, 1);
}

} // verus!
