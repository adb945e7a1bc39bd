//! Browser sessions: who may use one, where it may go, what it may download, and
//! how it is closed.

use vstd::prelude::*;

use crate::codec;
use crate::files;
use crate::passages;
use crate::paths;
use crate::paths::{IoFault, PathStyle, PathText};
use crate::protocol;
use crate::protocol::{Parameter, ParameterValue};
use crate::table::Table;
use crate::text;

verus! {

pub const DEFAULT_STARTUP_TIMEOUT_MS: u64 = 15_000;

pub const DRIVER_POLL_INTERVAL_MS: u64 = 50;

pub const DOWNLOAD_TIMEOUT_MS: u64 = 10_000;

pub const MAX_SESSION_ID_BYTES: usize = 80;

#[derive(Debug)]
pub struct BrowserConfig {
    pub geckodriver_path: PathText,
    pub firefox_binary: PathText,
    pub profile_path: PathText,
    pub driver_profile_root: PathText,
    pub download_dir: PathText,
    pub headless: bool,
    pub startup_timeout_ms: u64,
}

/// An element of a page, as the driver names it.
#[derive(Debug, Clone, PartialEq, Eq)]
pub struct ElementRef {
    pub id: String,
}

#[derive(Debug, Clone, PartialEq, Eq)]
pub struct SemanticNode {
    pub index: u64,
    pub tag: String,
    pub id: Option<String>,
    pub role: Option<String>,
    pub name: Option<String>,
    pub element_type: Option<String>,
    pub text: String,
    pub disabled: bool,
}

#[derive(Debug)]
pub struct DownloadReceipt {
    pub operation_id: String,
    pub file_name: String,
    pub size_bytes: u64,
    pub sha256: String,
    pub path: PathText,
}

#[derive(Debug)]
pub struct DownloadOperation {
    pub operation_id: String,
    pub file_name: String,
    pub target: PathText,
    pub partial: PathText,
}

#[derive(Debug, Clone, Copy, PartialEq, Eq, Structural)]
pub enum BrowserCloseState {
    Open,
    Closing,
    Closed,
    CloseUnconfirmed,
}

#[derive(Debug, Clone, Copy, PartialEq, Eq, Structural)]
pub struct BrowserCloseReceipt {
    pub state: BrowserCloseState,
}

/// A session of the driver, with where it is reached.
#[derive(Debug)]
pub struct BrowserBridge {
    pub endpoint: String,
    pub session_id: String,
    pub download_dir: PathText,
    pub bidi_url: String,
    pub close_state: BrowserCloseState,
}

#[derive(Debug)]
pub struct BrowserWorkerConfig {
    pub geckodriver_path: PathText,
    pub firefox_binary: PathText,
    pub lab_root: PathText,
    pub allowed_origin: String,
}

/// Who a session belongs to.
#[derive(Debug, PartialEq, Eq)]
pub struct BrowserSessionOwner {
    pub organization_id: String,
    pub actor_id: String,
    pub device_id: String,
    pub workspace_id: Option<String>,
}

#[derive(Debug)]
pub struct ManagedBrowserSession {
    pub owner: BrowserSessionOwner,
    pub bridge: BrowserBridge,
    pub generation: u64,
    pub root: PathText,
}

#[derive(Debug)]
pub struct BrowserSessionWorker {
    pub config: Option<BrowserWorkerConfig>,
    pub sessions: Table<ManagedBrowserSession>,
}

#[derive(Debug, PartialEq, Eq)]
pub enum BrowserError {
    MissingExecutable(String),
    NonUtf8Path,
    BrowserDisabled,
    WrongAction,
    InvalidOperation,
    MissingParameter(String),
    DuplicateSession,
    UnsafeSessionId,
    SessionRootEscaped,
    CleanupFailed(IoFault),
    SessionNotFound,
    DriverExited(Option<i32>),
    DriverStartupTimeout,
    MissingField(String),
    BidiClosed,
    UnsafeDownloadName,
    DownloadTimeout(String),
    InvalidOperationId,
    PreexistingDownload(String),
    DownloadEscaped,
    SessionClosing,
    SessionClosed,
    ApprovalRequired,
    ApprovalMismatch,
    StaleElement,
    NavigationOutOfScope,
    CloseUnconfirmed,
    Io(IoFault),
    Http,
    Json,
    WebSocket,
    Base64,
}

/// An error by what it says.
#[verifier::ext_equal]
pub enum BrowserFault {
    MissingExecutable(Seq<char>),
    NonUtf8Path,
    BrowserDisabled,
    WrongAction,
    InvalidOperation,
    MissingParameter(Seq<char>),
    DuplicateSession,
    UnsafeSessionId,
    SessionRootEscaped,
    CleanupFailed(IoFault),
    SessionNotFound,
    DriverExited(Option<i32>),
    DriverStartupTimeout,
    MissingField(Seq<char>),
    BidiClosed,
    UnsafeDownloadName,
    DownloadTimeout(Seq<char>),
    InvalidOperationId,
    PreexistingDownload(Seq<char>),
    DownloadEscaped,
    SessionClosing,
    SessionClosed,
    ApprovalRequired,
    ApprovalMismatch,
    StaleElement,
    NavigationOutOfScope,
    CloseUnconfirmed,
    Io(IoFault),
    Http,
    Json,
    WebSocket,
    Base64,
}

impl View for BrowserError {
    type V = BrowserFault;

    open spec fn view(&self) -> BrowserFault {
        match self {
            BrowserError::MissingExecutable(name) => BrowserFault::MissingExecutable(name@),
            BrowserError::NonUtf8Path => BrowserFault::NonUtf8Path,
            BrowserError::BrowserDisabled => BrowserFault::BrowserDisabled,
            BrowserError::WrongAction => BrowserFault::WrongAction,
            BrowserError::InvalidOperation => BrowserFault::InvalidOperation,
            BrowserError::MissingParameter(name) => BrowserFault::MissingParameter(name@),
            BrowserError::DuplicateSession => BrowserFault::DuplicateSession,
            BrowserError::UnsafeSessionId => BrowserFault::UnsafeSessionId,
            BrowserError::SessionRootEscaped => BrowserFault::SessionRootEscaped,
            BrowserError::CleanupFailed(fault) => BrowserFault::CleanupFailed(*fault),
            BrowserError::SessionNotFound => BrowserFault::SessionNotFound,
            BrowserError::DriverExited(code) => BrowserFault::DriverExited(*code),
            BrowserError::DriverStartupTimeout => BrowserFault::DriverStartupTimeout,
            BrowserError::MissingField(name) => BrowserFault::MissingField(name@),
            BrowserError::BidiClosed => BrowserFault::BidiClosed,
            BrowserError::UnsafeDownloadName => BrowserFault::UnsafeDownloadName,
            BrowserError::DownloadTimeout(name) => BrowserFault::DownloadTimeout(name@),
            BrowserError::InvalidOperationId => BrowserFault::InvalidOperationId,
            BrowserError::PreexistingDownload(name) => BrowserFault::PreexistingDownload(name@),
            BrowserError::DownloadEscaped => BrowserFault::DownloadEscaped,
            BrowserError::SessionClosing => BrowserFault::SessionClosing,
            BrowserError::SessionClosed => BrowserFault::SessionClosed,
            BrowserError::ApprovalRequired => BrowserFault::ApprovalRequired,
            BrowserError::ApprovalMismatch => BrowserFault::ApprovalMismatch,
            BrowserError::StaleElement => BrowserFault::StaleElement,
            BrowserError::NavigationOutOfScope => BrowserFault::NavigationOutOfScope,
            BrowserError::CloseUnconfirmed => BrowserFault::CloseUnconfirmed,
            BrowserError::Io(fault) => BrowserFault::Io(*fault),
            BrowserError::Http => BrowserFault::Http,
            BrowserError::Json => BrowserFault::Json,
            BrowserError::WebSocket => BrowserFault::WebSocket,
            BrowserError::Base64 => BrowserFault::Base64,
        }
    }
}

// ---------------------------------------------------------------------------
// Configuration

impl BrowserConfig {
    /// The configuration of a browser whose state is all below a directory.
    pub fn new(
        style: PathStyle,
        geckodriver_path: PathText,
        firefox_binary: PathText,
        state_root: &PathText,
    ) -> (config: Self)
        ensures
            config.geckodriver_path == geckodriver_path,
            config.firefox_binary == firefox_binary,
            config.profile_path@ == paths::joined(
                style,
                paths::joined(style, state_root@, "profiles"@),
                "Vor-Automation"@,
            ),
            config.driver_profile_root@ == paths::joined(style, state_root@, "driver-profiles"@),
            config.download_dir@ == paths::joined(style, state_root@, "downloads"@),
            !config.headless,
            config.startup_timeout_ms == DEFAULT_STARTUP_TIMEOUT_MS,
    {
        let profiles = paths::join_name(style, state_root, "profiles");
        BrowserConfig {
            geckodriver_path,
            firefox_binary,
            profile_path: paths::join_name(style, &profiles, "Vor-Automation"),
            driver_profile_root: paths::join_name(style, state_root, "driver-profiles"),
            download_dir: paths::join_name(style, state_root, "downloads"),
            headless: false,
            startup_timeout_ms: DEFAULT_STARTUP_TIMEOUT_MS,
        }
    }

    pub fn headless(self, enabled: bool) -> (config: Self)
        ensures
            config == (BrowserConfig { headless: enabled, ..self }),
    {
        let mut config = self;
        config.headless = enabled;
        config
    }

    /// Is everything there that the browser needs?
    pub fn prepare(&self, geckodriver_is_file: bool, firefox_is_file: bool) -> (r: Result<
        (),
        BrowserError,
    >)
        ensures
            r is Ok == (geckodriver_is_file && firefox_is_file),
            r is Err ==> r->Err_0@ == BrowserFault::MissingExecutable(
                if !geckodriver_is_file {
                    "geckodriver"@
                } else {
                    "firefox"@
                },
            ),
    {
        if !geckodriver_is_file {
            return Err(BrowserError::MissingExecutable(text::copied("geckodriver")));
        }
        if !firefox_is_file {
            return Err(BrowserError::MissingExecutable(text::copied("firefox")));
        }
        Ok(())
    }
}

/// Takes in how the driver is: whether it is ready, and otherwise whether it is to
/// be waited for.
pub fn driver_turn(timed_out: bool, exited: Option<Option<i32>>, ready: bool) -> (r: Result<
    bool,
    BrowserError,
>)
    ensures
        r is Err == (timed_out || exited is Some),
        r is Err ==> r->Err_0@ == (if timed_out {
            BrowserFault::DriverStartupTimeout
        } else {
            BrowserFault::DriverExited(exited->0)
        }),
        r is Ok ==> r->Ok_0 == ready,
{
    if timed_out {
        return Err(BrowserError::DriverStartupTimeout);
    }
    match exited {
        Some(code) => Err(BrowserError::DriverExited(code)),
        None => Ok(ready),
    }
}

// ---------------------------------------------------------------------------
// What the driver is sent and answers

/// The field of a value, if it is a table that has it.
pub open spec fn value_field(value: ParameterValue, name: Seq<char>) -> Option<ParameterValue> {
    match value {
        ParameterValue::Table(fields) => protocol::parameter(fields@, name),
        _ => None,
    }
}

pub open spec fn field_text(value: Option<ParameterValue>) -> Option<Seq<char>> {
    match value {
        Some(ParameterValue::Text(text)) => Some(text@),
        _ => None,
    }
}

fn field<'a>(value: &'a ParameterValue, name: &str) -> (r: Option<&'a ParameterValue>)
    ensures
        r is Some == value_field(*value, name@) is Some,
        r is Some ==> *r->0 == value_field(*value, name@)->0,
{
    match value {
        ParameterValue::Table(fields) => protocol::find_parameter(fields, name),
        _ => None,
    }
}

fn text_of(value: Option<&ParameterValue>) -> (r: Option<&str>)
    ensures
        r is Some == (value is Some && *value->0 is Text),
        r is Some ==> r->0@ == value->0->Text_0@,
{
    match value {
        Some(ParameterValue::Text(text)) => Some(text.as_str()),
        _ => None,
    }
}

/// The driver says that it is ready.
pub open spec fn says_ready(body: ParameterValue) -> bool {
    match value_field(body, "value"@) {
        Some(value) => value_field(value, "ready"@) == Some(ParameterValue::Bool(true)),
        None => false,
    }
}

/// Does the driver say that it is ready?
pub fn driver_ready(body: &ParameterValue) -> (r: bool)
    ensures
        r == says_ready(*body),
{
    match field(body, "value") {
        None => false,
        Some(value) => match field(value, "ready") {
            Some(ParameterValue::Bool(ready)) => *ready,
            _ => false,
        },
    }
}

/// What a driver answered.
pub fn webdriver_value(body: &ParameterValue) -> (r: Result<&ParameterValue, BrowserError>)
    ensures
        r is Ok == value_field(*body, "value"@) is Some,
        r is Ok ==> *r->Ok_0 == value_field(*body, "value"@)->0,
        r is Err ==> r->Err_0@ == BrowserFault::MissingField("value"@),
{
    match field(body, "value") {
        Some(value) => Ok(value),
        None => Err(BrowserError::MissingField(text::copied("value"))),
    }
}

/// An answer that must be a text.
pub fn value_string(value: &ParameterValue, name: &str) -> (r: Result<String, BrowserError>)
    ensures
        r is Ok == *value is Text,
        r is Ok ==> r->Ok_0@ == value->Text_0@,
        r is Err ==> r->Err_0@ == BrowserFault::MissingField(name@),
{
    match value {
        ParameterValue::Text(text) => Ok(text.clone()),
        _ => Err(BrowserError::MissingField(text::copied(name))),
    }
}

/// The entry has a name and holds a table of so many entries.
pub open spec fn table_entry(entry: Parameter, name: Seq<char>, len: nat) -> bool {
    entry.name@ == name && entry.value is Table && entry.value->Table_0@.len() == len
}

pub open spec fn inner(entry: Parameter) -> Seq<Parameter> {
    entry.value->Table_0@
}

/// The preferences that send every download to one directory, unasked.
pub open spec fn download_preferences(prefs: Seq<Parameter>, download_dir: Seq<char>) -> bool {
    &&& prefs.len() == 6
    &&& protocol::number_entry(prefs[0], "browser.download.folderList"@, 2)
    &&& protocol::flag_entry(prefs[1], "browser.download.useDownloadDir"@, true)
    &&& protocol::text_entry(prefs[2], "browser.download.dir"@, download_dir)
    &&& protocol::flag_entry(prefs[3], "browser.download.alwaysOpenPanel"@, false)
    &&& protocol::flag_entry(prefs[4], "browser.download.manager.showWhenStarting"@, false)
    &&& protocol::text_entry(
        prefs[5],
        "browser.helperApps.neverAsk.saveToDisk"@,
        "application/octet-stream,text/plain,application/zip,application/pdf"@,
    )
}

/// The arguments that the browser is started with.
pub open spec fn browser_arguments(headless: bool, profile: Seq<char>) -> Seq<Seq<char>> {
    if headless {
        seq!["-headless"@, "-profile"@, profile]
    } else {
        seq!["-profile"@, profile]
    }
}

pub open spec fn browser_options(options: Seq<Parameter>, config: BrowserConfig) -> bool {
    &&& options.len() == 3
    &&& protocol::text_entry(options[0], "binary"@, config.firefox_binary.text@)
    &&& options[1].name@ == "args"@
    &&& options[1].value is List
    &&& protocol::all_texts(options[1].value->List_0@)
    &&& protocol::value_texts(options[1].value->List_0@) == browser_arguments(
        config.headless,
        config.profile_path.text@,
    )
    &&& table_entry(options[2], "prefs"@, 6)
    &&& download_preferences(inner(options[2]), config.download_dir.text@)
}

pub open spec fn wanted_browser(wanted: Seq<Parameter>, config: BrowserConfig) -> bool {
    &&& wanted.len() == 3
    &&& protocol::text_entry(wanted[0], "browserName"@, "firefox"@)
    &&& protocol::flag_entry(wanted[1], "webSocketUrl"@, true)
    &&& table_entry(wanted[2], "moz:firefoxOptions"@, 3)
    &&& browser_options(inner(wanted[2]), config)
}

/// What a driver is sent to start a browser.
pub open spec fn is_launch_payload(payload: ParameterValue, config: BrowserConfig) -> bool {
    &&& payload is Table
    &&& payload->Table_0@.len() == 1
    &&& table_entry(payload->Table_0@[0], "capabilities"@, 1)
    &&& table_entry(inner(payload->Table_0@[0])[0], "alwaysMatch"@, 3)
    &&& wanted_browser(inner(inner(payload->Table_0@[0])[0]), config)
}

fn table_field(name: &str, entries: Vec<Parameter>) -> (entry: Parameter)
    ensures
        table_entry(entry, name@, entries@.len()),
        inner(entry) == entries@,
{
    Parameter { name: text::copied(name), value: ParameterValue::Table(entries) }
}

fn preferences(download_dir: &str) -> (prefs: Vec<Parameter>)
    ensures
        download_preferences(prefs@, download_dir@),
{
    let mut prefs: Vec<Parameter> = Vec::new();
    prefs.push(protocol::number_field("browser.download.folderList", 2));
    prefs.push(protocol::flag_field("browser.download.useDownloadDir", true));
    prefs.push(protocol::text_field("browser.download.dir", download_dir));
    prefs.push(protocol::flag_field("browser.download.alwaysOpenPanel", false));
    prefs.push(protocol::flag_field("browser.download.manager.showWhenStarting", false));
    prefs.push(
        protocol::text_field(
            "browser.helperApps.neverAsk.saveToDisk",
            "application/octet-stream,text/plain,application/zip,application/pdf",
        ),
    );
    prefs
}

fn start_arguments(headless: bool, profile: &str) -> (args: Vec<ParameterValue>)
    ensures
        protocol::all_texts(args@),
        protocol::value_texts(args@) == browser_arguments(headless, profile@),
{
    let mut args: Vec<ParameterValue> = Vec::new();
    if headless {
        args.push(ParameterValue::Text(text::copied("-headless")));
    }
    args.push(ParameterValue::Text(text::copied("-profile")));
    args.push(ParameterValue::Text(text::copied(profile)));
    proof {
        assert(protocol::value_texts(args@) =~= browser_arguments(headless, profile@));
    }
    args
}

impl BrowserBridge {
    /// What a driver is sent to start a browser.
    pub fn launch_payload(config: &BrowserConfig) -> (payload: ParameterValue)
        ensures
            is_launch_payload(payload, *config),
    {
        let mut options: Vec<Parameter> = Vec::new();
        options.push(protocol::text_field("binary", config.firefox_binary.text.as_str()));
        options.push(
            Parameter {
                name: text::copied("args"),
                value: ParameterValue::List(
                    start_arguments(config.headless, config.profile_path.text.as_str()),
                ),
            },
        );
        options.push(table_field("prefs", preferences(config.download_dir.text.as_str())));
        let mut wanted: Vec<Parameter> = Vec::new();
        wanted.push(protocol::text_field("browserName", "firefox"));
        wanted.push(protocol::flag_field("webSocketUrl", true));
        wanted.push(table_field("moz:firefoxOptions", options));
        let mut capabilities: Vec<Parameter> = Vec::new();
        capabilities.push(table_field("alwaysMatch", wanted));
        let mut payload: Vec<Parameter> = Vec::new();
        payload.push(table_field("capabilities", capabilities));
        ParameterValue::Table(payload)
    }

    /// The session that a driver started, by its answer.
    pub fn launch(config: &BrowserConfig, endpoint: String, body: &ParameterValue) -> (r: Result<
        Self,
        BrowserError,
    >)
        ensures
            r is Err == launch_fault(*body) is Some,
            r is Err ==> r->Err_0@ == launch_fault(*body)->0,
            r is Ok ==> ({
                let value = value_field(*body, "value"@)->0;
                let bridge = r->Ok_0;
                &&& bridge.endpoint == endpoint
                &&& bridge.session_id@ == field_text(value_field(value, "sessionId"@))->0
                &&& bridge.download_dir@ == config.download_dir@
                &&& bridge.bidi_url@ == field_text(
                    value_field(value_field(value, "capabilities"@)->0, "webSocketUrl"@),
                )->0
                &&& bridge.close_state == BrowserCloseState::Open
            }),
    {
        let value = match webdriver_value(body) {
            Err(error) => {
                return Err(error);
            },
            Ok(value) => value,
        };
        let session_id = match text_of(field(value, "sessionId")) {
            None => {
                return Err(BrowserError::MissingField(text::copied("sessionId")));
            },
            Some(id) => text::copied(id),
        };
        let socket = match field(value, "capabilities") {
            None => None,
            Some(capabilities) => text_of(field(capabilities, "webSocketUrl")),
        };
        match socket {
            None => Err(BrowserError::MissingField(text::copied("webSocketUrl"))),
            Some(url) => Ok(
                BrowserBridge {
                    endpoint,
                    session_id,
                    download_dir: paths::copy_path(&config.download_dir),
                    bidi_url: text::copied(url),
                    close_state: BrowserCloseState::Open,
                },
            ),
        }
    }
}

/// What is missing from the answer to a launch, if anything.
pub open spec fn launch_fault(body: ParameterValue) -> Option<BrowserFault> {
    match value_field(body, "value"@) {
        None => Some(BrowserFault::MissingField("value"@)),
        Some(value) => if field_text(value_field(value, "sessionId"@)) is None {
            Some(BrowserFault::MissingField("sessionId"@))
        } else {
            match value_field(value, "capabilities"@) {
                None => Some(BrowserFault::MissingField("webSocketUrl"@)),
                Some(capabilities) => if field_text(
                    value_field(capabilities, "webSocketUrl"@),
                ) is None {
                    Some(BrowserFault::MissingField("webSocketUrl"@))
                } else {
                    None
                },
            }
        },
    }
}

/// `s` without the slashes it begins with.
pub open spec fn without_slashes(s: Seq<char>) -> Seq<char>
    decreases s.len(),
{
    if s.len() > 0 && s[0] == '/' {
        without_slashes(s.drop_first())
    } else {
        s
    }
}

pub open spec fn session_url(endpoint: Seq<char>, session: Seq<char>) -> Seq<char> {
    endpoint + "/session/"@ + session
}

/// Why nothing can be done with a session, if nothing can.
pub open spec fn open_fault(state: BrowserCloseState) -> Option<BrowserFault> {
    match state {
        BrowserCloseState::Open => None,
        BrowserCloseState::Closing => Some(BrowserFault::SessionClosing),
        BrowserCloseState::CloseUnconfirmed => Some(BrowserFault::SessionClosing),
        BrowserCloseState::Closed => Some(BrowserFault::SessionClosed),
    }
}

/// A close goes on with a request to the driver, or is over.
#[derive(Debug, PartialEq, Eq)]
pub enum CloseTurn {
    /// Ask the driver at this address to delete the session.
    Delete(String),
    Done(BrowserCloseReceipt),
}

/// The name under which a driver gives an element.
pub const WEB_ELEMENT_KEY: &'static str = "element-6066-11e4-a52e-4f735466cecf";

impl BrowserBridge {
    pub fn session_id(&self) -> (id: &str)
        ensures
            id@ == self.session_id@,
    {
        self.session_id.as_str()
    }

    pub fn bidi_url(&self) -> (url: &str)
        ensures
            url@ == self.bidi_url@,
    {
        self.bidi_url.as_str()
    }

    fn session_address(&self) -> (chars: Vec<char>)
        ensures
            chars@ == session_url(self.endpoint@, self.session_id@),
    {
        let mut chars = text::chars_of(self.endpoint.as_str());
        text::push_text(&mut chars, "/session/");
        text::push_text(&mut chars, self.session_id.as_str());
        chars
    }

    /// Where a command of the session is sent.
    pub fn command_url(&self, command: &str) -> (url: String)
        ensures
            url@ == session_url(self.endpoint@, self.session_id@) + "/"@ + without_slashes(
                command@,
            ),
    {
        let raw = text::chars_of(command);
        let mut i: usize = 0;
        proof {
            assert(raw@.skip(0) =~= raw@);
        }
        while i < raw.len() && raw[i] == '/'
            invariant
                i <= raw@.len(),
                raw@ == command@,
                without_slashes(raw@.skip(i as int)) == without_slashes(command@),
            decreases raw@.len() - i,
        {
            proof {
                assert(raw@.skip(i as int).drop_first() =~= raw@.skip(i + 1));
            }
            i = i + 1;
        }
        let rest = passages::part(raw.as_slice(), i, raw.len());
        proof {
            assert(rest@ =~= raw@.skip(i as int));
        }
        let mut url = self.session_address();
        text::push_text(&mut url, "/");
        text::push_all(&mut url, rest.as_slice());
        text::string_of(url.as_slice())
    }

    fn element_url(&self, element: &ElementRef, ending: &str) -> (url: String)
        ensures
            url@ == session_url(self.endpoint@, self.session_id@) + "/"@ + without_slashes(
                "element/"@ + element.id@ + ending@,
            ),
    {
        let mut command = text::chars_of("element/");
        text::push_text(&mut command, element.id.as_str());
        text::push_text(&mut command, ending);
        self.command_url(text::string_of(command.as_slice()).as_str())
    }

    /// Where a click on an element is sent.
    pub fn click_url(&self, element: &ElementRef) -> (url: String)
        ensures
            url@ == session_url(self.endpoint@, self.session_id@) + "/"@ + without_slashes(
                "element/"@ + element.id@ + "/click"@,
            ),
    {
        self.element_url(element, "/click")
    }

    /// Where a text to type into an element is sent.
    pub fn value_url(&self, element: &ElementRef) -> (url: String)
        ensures
            url@ == session_url(self.endpoint@, self.session_id@) + "/"@ + without_slashes(
                "element/"@ + element.id@ + "/value"@,
            ),
    {
        self.element_url(element, "/value")
    }

    /// Where the text of an element is asked for.
    pub fn text_url(&self, element: &ElementRef) -> (url: String)
        ensures
            url@ == session_url(self.endpoint@, self.session_id@) + "/"@ + without_slashes(
                "element/"@ + element.id@ + "/text"@,
            ),
    {
        self.element_url(element, "/text")
    }

    pub fn ensure_open(&self) -> (r: Result<(), BrowserError>)
        ensures
            r is Err == open_fault(self.close_state) is Some,
            r is Err ==> r->Err_0@ == open_fault(self.close_state)->0,
    {
        match self.close_state {
            BrowserCloseState::Open => Ok(()),
            BrowserCloseState::Closing => Err(BrowserError::SessionClosing),
            BrowserCloseState::CloseUnconfirmed => Err(BrowserError::SessionClosing),
            BrowserCloseState::Closed => Err(BrowserError::SessionClosed),
        }
    }

    /// Begins to close the session, once.
    pub fn close(&mut self) -> (r: Result<CloseTurn, BrowserError>)
        ensures
            match old(self).close_state {
                BrowserCloseState::Open => {
                    &&& *final(self) == (BrowserBridge {
                        close_state: BrowserCloseState::Closing,
                        ..*old(self)
                    })
                    &&& r matches Ok(CloseTurn::Delete(url)) && url@ == session_url(
                        old(self).endpoint@,
                        old(self).session_id@,
                    )
                },
                BrowserCloseState::Closed => {
                    &&& *final(self) == *old(self)
                    &&& r == Ok::<CloseTurn, BrowserError>(
                        CloseTurn::Done(BrowserCloseReceipt { state: BrowserCloseState::Closed }),
                    )
                },
                _ => {
                    &&& *final(self) == *old(self)
                    &&& r == Err::<CloseTurn, BrowserError>(BrowserError::SessionClosing)
                },
            },
    {
        match self.close_state {
            BrowserCloseState::Closed => Ok(
                CloseTurn::Done(BrowserCloseReceipt { state: BrowserCloseState::Closed }),
            ),
            BrowserCloseState::Closing => Err(BrowserError::SessionClosing),
            BrowserCloseState::CloseUnconfirmed => Err(BrowserError::SessionClosing),
            BrowserCloseState::Open => {
                let url = self.session_address();
                self.close_state = BrowserCloseState::Closing;
                Ok(CloseTurn::Delete(text::string_of(url.as_slice())))
            },
        }
    }

    /// Takes in whether the driver deleted the session.
    pub fn closed(&mut self, confirmed: bool) -> (r: Result<BrowserCloseReceipt, BrowserError>)
        requires
            old(self).close_state == BrowserCloseState::Closing,
        ensures
            *final(self) == (BrowserBridge {
                close_state: if confirmed {
                    BrowserCloseState::Closed
                } else {
                    BrowserCloseState::CloseUnconfirmed
                },
                ..*old(self)
            }),
            r is Ok == confirmed,
            r is Ok ==> r->Ok_0.state == BrowserCloseState::Closed,
            r is Err ==> r->Err_0 == BrowserError::CloseUnconfirmed,
    {
        if confirmed {
            self.close_state = BrowserCloseState::Closed;
            Ok(BrowserCloseReceipt { state: BrowserCloseState::Closed })
        } else {
            self.close_state = BrowserCloseState::CloseUnconfirmed;
            Err(BrowserError::CloseUnconfirmed)
        }
    }

    /// The image of a screenshot, of what the driver answered.
    pub fn screenshot_png(&self, value: &ParameterValue) -> (r: Result<Vec<u8>, BrowserError>)
        ensures
            r is Err == screenshot_fault(self.close_state, *value) is Some,
            r is Err ==> r->Err_0@ == screenshot_fault(self.close_state, *value)->0,
            r is Ok ==> r->Ok_0@ == codec::standard_base64_bytes(value->Text_0@)->0,
    {
        if let Err(error) = self.ensure_open() {
            return Err(error);
        }
        let encoded = match value_string(value, "screenshot") {
            Err(error) => {
                return Err(error);
            },
            Ok(encoded) => encoded,
        };
        match codec::from_standard_base64(encoded.as_str()) {
            None => Err(BrowserError::Base64),
            Some(bytes) => Ok(bytes),
        }
    }

    /// The element that a driver found.
    pub fn find_css(&self, value: &ParameterValue) -> (r: Result<ElementRef, BrowserError>)
        ensures
            r is Err == element_fault(self.close_state, *value) is Some,
            r is Err ==> r->Err_0@ == element_fault(self.close_state, *value)->0,
            r is Ok ==> r->Ok_0.id@ == field_text(value_field(*value, WEB_ELEMENT_KEY@))->0,
    {
        if let Err(error) = self.ensure_open() {
            return Err(error);
        }
        match text_of(field(value, WEB_ELEMENT_KEY)) {
            None => Err(BrowserError::MissingField(text::copied("web element id"))),
            Some(id) => Ok(ElementRef { id: text::copied(id) }),
        }
    }
}

pub open spec fn screenshot_fault(state: BrowserCloseState, value: ParameterValue) -> Option<
    BrowserFault,
> {
    if open_fault(state) is Some {
        open_fault(state)
    } else if !(value is Text) {
        Some(BrowserFault::MissingField("screenshot"@))
    } else if codec::standard_base64_bytes(value->Text_0@) is None {
        Some(BrowserFault::Base64)
    } else {
        None
    }
}

pub open spec fn element_fault(state: BrowserCloseState, value: ParameterValue) -> Option<
    BrowserFault,
> {
    if open_fault(state) is Some {
        open_fault(state)
    } else if field_text(value_field(value, WEB_ELEMENT_KEY@)) is None {
        Some(BrowserFault::MissingField("web element id"@))
    } else {
        None
    }
}

// ---------------------------------------------------------------------------
// Downloads

/// A character that no file name has on every system.
pub open spec fn is_bad_name_char(c: char) -> bool {
    c == ':' || c == '<' || c == '>' || c == '"' || c == '|' || c == '?' || c == '*'
}

/// A name that a system keeps for a device.
pub open spec fn is_reserved(stem: Seq<char>) -> bool {
    stem == "con"@ || stem == "prn"@ || stem == "aux"@ || stem == "nul"@ || stem == "com1"@ || stem
        == "com2"@ || stem == "com3"@ || stem == "com4"@ || stem == "com5"@ || stem == "com6"@
        || stem == "com7"@ || stem == "com8"@ || stem == "com9"@ || stem == "lpt1"@ || stem
        == "lpt2"@ || stem == "lpt3"@ || stem == "lpt4"@ || stem == "lpt5"@ || stem == "lpt6"@
        || stem == "lpt7"@ || stem == "lpt8"@ || stem == "lpt9"@
}

/// The pieces of a path between its separators, of either kind.
pub open spec fn segments(name: Seq<char>) -> Seq<Seq<char>> {
    text::split_on(text::replace_char(name, '\\', '/'), '/')
}

/// The path has one component, and that is a name.
pub open spec fn is_single_name(name: Seq<char>) -> bool {
    let pieces = segments(name);
    &&& pieces.len() > 0
    &&& pieces[0].len() > 0
    &&& pieces[0] != "."@
    &&& pieces[0] != ".."@
    &&& forall|i: int|
        1 <= i < pieces.len() ==> (#[trigger] pieces[i]).len() == 0 || pieces[i] == "."@
}

/// A file name that is safe to write into a directory.
pub open spec fn is_safe_name(name: Seq<char>) -> bool {
    &&& name.len() > 0
    &&& forall|i: int| 0 <= i < name.len() ==> !is_bad_name_char(#[trigger] name[i])
    &&& name.last() != ' '
    &&& name.last() != '.'
    &&& is_single_name(name)
    &&& !is_reserved(text::ascii_lower(text::split_on(name, '.')[0]))
}

fn reserved(stem: &[char]) -> (r: bool)
    ensures
        r == is_reserved(stem@),
{
    text::spells(stem, "con") || text::spells(stem, "prn") || text::spells(stem, "aux")
        || text::spells(stem, "nul") || text::spells(stem, "com1") || text::spells(stem, "com2")
        || text::spells(stem, "com3") || text::spells(stem, "com4") || text::spells(stem, "com5")
        || text::spells(stem, "com6") || text::spells(stem, "com7") || text::spells(stem, "com8")
        || text::spells(stem, "com9") || text::spells(stem, "lpt1") || text::spells(stem, "lpt2")
        || text::spells(stem, "lpt3") || text::spells(stem, "lpt4") || text::spells(stem, "lpt5")
        || text::spells(stem, "lpt6") || text::spells(stem, "lpt7") || text::spells(stem, "lpt8")
        || text::spells(stem, "lpt9")
}

fn single_name(name: &[char]) -> (r: bool)
    ensures
        r == is_single_name(name@),
{
    let slashes = text::replaced(name, '\\', '/');
    let pieces = text::split(slashes.as_slice(), '/');
    let ghost rows = text::rows(pieces@);
    proof {
        assert(rows.len() == pieces@.len());
        assert(rows == segments(name@));
    }
    if pieces.len() == 0 {
        return false;
    }
    proof {
        assert(rows[0] == pieces@[0]@);
    }
    if pieces[0].len() == 0 || text::spells(pieces[0].as_slice(), ".") || text::spells(
        pieces[0].as_slice(),
        "..",
    ) {
        return false;
    }
    let mut i: usize = 1;
    while i < pieces.len()
        invariant
            1 <= i <= pieces@.len(),
            rows == text::rows(pieces@),
            rows.len() == pieces@.len(),
            rows == segments(name@),
            forall|k: int|
                1 <= k < i ==> (#[trigger] rows[k]).len() == 0 || rows[k] == "."@,
        decreases pieces@.len() - i,
    {
        proof {
            assert(rows[i as int] == pieces@[i as int]@);
        }
        if pieces[i].len() > 0 && !text::spells(pieces[i].as_slice(), ".") {
            return false;
        }
        i = i + 1;
    }
    true
}

/// Is a file name safe to write into a directory?
pub fn safe_download_name(file_name: &str) -> (r: Result<(), BrowserError>)
    ensures
        r is Ok == is_safe_name(file_name@),
        r is Err ==> r->Err_0 == BrowserError::UnsafeDownloadName,
{
    let name = text::chars_of(file_name);
    if name.len() == 0 {
        return Err(BrowserError::UnsafeDownloadName);
    }
    let mut i: usize = 0;
    while i < name.len()
        invariant
            i <= name@.len(),
            name@ == file_name@,
            forall|k: int| 0 <= k < i ==> !is_bad_name_char(#[trigger] name@[k]),
        decreases name@.len() - i,
    {
        let c = name[i];
        if c == ':' || c == '<' || c == '>' || c == '"' || c == '|' || c == '?' || c == '*' {
            assert(is_bad_name_char(file_name@[i as int]));
            return Err(BrowserError::UnsafeDownloadName);
        }
        i = i + 1;
    }
    let last = name[name.len() - 1];
    if last == ' ' || last == '.' {
        return Err(BrowserError::UnsafeDownloadName);
    }
    if !single_name(name.as_slice()) {
        return Err(BrowserError::UnsafeDownloadName);
    }
    let pieces = text::split(name.as_slice(), '.');
    proof {
        assert(text::rows(pieces@).len() == pieces@.len());
        text::lemma_split_some(name@, '.');
        assert(text::rows(pieces@)[0] == pieces@[0]@);
    }
    let stem = text::lower_chars(pieces[0].as_slice());
    if reserved(stem.as_slice()) {
        return Err(BrowserError::UnsafeDownloadName);
    }
    Ok(())
}

/// Why a download cannot be prepared, before the directory is looked at.
pub open spec fn download_fault(
    state: BrowserCloseState,
    operation_id: Seq<char>,
    file_name: Seq<char>,
) -> Option<BrowserFault> {
    if open_fault(state) is Some {
        open_fault(state)
    } else if text::is_blank(operation_id) {
        Some(BrowserFault::InvalidOperationId)
    } else if !is_safe_name(file_name) {
        Some(BrowserFault::UnsafeDownloadName)
    } else {
        None
    }
}

/// The operation is the download of a file into the directory of a session.
pub open spec fn is_download(
    style: PathStyle,
    operation: DownloadOperation,
    bridge: BrowserBridge,
    operation_id: Seq<char>,
    file_name: Seq<char>,
) -> bool {
    &&& operation.operation_id@ == operation_id
    &&& operation.file_name@ == file_name
    &&& operation.target@ == paths::joined(style, bridge.download_dir@, file_name)
    &&& operation.partial@ == paths::joined(style, bridge.download_dir@, file_name + ".part"@)
}

/// What was found of a download that should be complete.
#[derive(Debug)]
pub struct DownloadObservation {
    pub target_is_file: bool,
    pub partial_exists: bool,
    pub download_dir: Result<PathText, IoFault>,
    pub target: Result<PathText, IoFault>,
}

/// The file is there, and no part of it is still to come.
pub open spec fn is_complete(seen: DownloadObservation) -> bool {
    seen.target_is_file && !seen.partial_exists
}

/// Why a download that is complete may not be read, if it may not.
pub open spec fn complete_fault(seen: DownloadObservation) -> Option<BrowserFault> {
    match seen.download_dir {
        Err(fault) => Some(BrowserFault::Io(fault)),
        Ok(directory) => match seen.target {
            Err(fault) => Some(BrowserFault::Io(fault)),
            Ok(target) => if !directory@.parts.is_prefix_of(target@.parts) {
                Some(BrowserFault::DownloadEscaped)
            } else {
                None
            },
        },
    }
}

/// Why a download is given up, if it is.
pub open spec fn awaited_fault(
    bridge: BrowserBridge,
    operation: DownloadOperation,
    seen: DownloadObservation,
    timed_out: bool,
) -> Option<BrowserFault> {
    if open_fault(bridge.close_state) is Some {
        open_fault(bridge.close_state)
    } else if timed_out {
        Some(BrowserFault::DownloadTimeout(operation.file_name@))
    } else if is_complete(seen) {
        complete_fault(seen)
    } else {
        None
    }
}

impl BrowserBridge {
    /// Where a download will be, before the directory is looked at.
    pub fn plan_download(&self, style: PathStyle, operation_id: &str, file_name: &str) -> (r: Result<
        DownloadOperation,
        BrowserError,
    >)
        ensures
            r is Err == download_fault(self.close_state, operation_id@, file_name@) is Some,
            r is Err ==> r->Err_0@ == download_fault(
                self.close_state,
                operation_id@,
                file_name@,
            )->0,
            r is Ok ==> is_download(style, r->Ok_0, *self, operation_id@, file_name@),
    {
        if let Err(error) = self.ensure_open() {
            return Err(error);
        }
        if text::blank(operation_id) {
            return Err(BrowserError::InvalidOperationId);
        }
        if let Err(error) = safe_download_name(file_name) {
            return Err(error);
        }
        let mut partial = text::chars_of(file_name);
        text::push_text(&mut partial, ".part");
        let partial_name = text::string_of(partial.as_slice());
        Ok(
            DownloadOperation {
                operation_id: text::copied(operation_id),
                file_name: text::copied(file_name),
                target: paths::join_name(style, &self.download_dir, file_name),
                partial: paths::join_name(style, &self.download_dir, partial_name.as_str()),
            },
        )
    }

    /// Prepares a download into the directory of the session, where nothing is in
    /// its place.
    pub fn prepare_download(
        &self,
        style: PathStyle,
        operation_id: &str,
        file_name: &str,
        target_exists: bool,
        partial_exists: bool,
    ) -> (r: Result<DownloadOperation, BrowserError>)
        ensures
            ({
                let fault = if download_fault(
                    self.close_state,
                    operation_id@,
                    file_name@,
                ) is Some {
                    download_fault(self.close_state, operation_id@, file_name@)
                } else if target_exists || partial_exists {
                    Some(BrowserFault::PreexistingDownload(file_name@))
                } else {
                    None
                };
                &&& r is Err == fault is Some
                &&& r is Err ==> r->Err_0@ == fault->0
                &&& r is Ok ==> is_download(style, r->Ok_0, *self, operation_id@, file_name@)
            }),
    {
        let operation = match self.plan_download(style, operation_id, file_name) {
            Err(error) => {
                return Err(error);
            },
            Ok(operation) => operation,
        };
        if target_exists || partial_exists {
            return Err(BrowserError::PreexistingDownload(text::copied(file_name)));
        }
        Ok(operation)
    }

    /// The file of a download that is to be read; nothing where it is to be waited
    /// for.
    pub fn awaited_download<'a>(
        &self,
        operation: &DownloadOperation,
        seen: &'a DownloadObservation,
        timed_out: bool,
    ) -> (r: Result<Option<&'a PathText>, BrowserError>)
        ensures
            ({
                let fault = awaited_fault(*self, *operation, *seen, timed_out);
                &&& r is Err == fault is Some
                &&& r is Err ==> r->Err_0@ == fault->0
                &&& r is Ok ==> r->Ok_0 is Some == is_complete(*seen)
                &&& r matches Ok(Some(path)) ==> *path == seen.target->Ok_0
            }),
    {
        if let Err(error) = self.ensure_open() {
            return Err(error);
        }
        if timed_out {
            return Err(BrowserError::DownloadTimeout(operation.file_name.clone()));
        }
        if !seen.target_is_file || seen.partial_exists {
            return Ok(None);
        }
        let directory = match &seen.download_dir {
            Err(fault) => {
                return Err(BrowserError::Io(*fault));
            },
            Ok(directory) => directory,
        };
        let target = match &seen.target {
            Err(fault) => {
                return Err(BrowserError::Io(*fault));
            },
            Ok(target) => target,
        };
        if !paths::parts_start(&target.parts, &directory.parts) {
            return Err(BrowserError::DownloadEscaped);
        }
        Ok(Some(target))
    }

    /// Takes in what is there of a download, and what its file holds: a receipt
    /// where it is complete, nothing where it is to be waited for.
    pub fn complete_download(
        &self,
        operation: &DownloadOperation,
        seen: &DownloadObservation,
        bytes: Result<Vec<u8>, IoFault>,
        timed_out: bool,
    ) -> (r: Result<Option<DownloadReceipt>, BrowserError>)
        ensures
            ({
                let fault = if awaited_fault(*self, *operation, *seen, timed_out) is Some {
                    awaited_fault(*self, *operation, *seen, timed_out)
                } else if is_complete(*seen) && bytes is Err {
                    Some(BrowserFault::Io(bytes->Err_0))
                } else {
                    None
                };
                &&& r is Err == fault is Some
                &&& r is Err ==> r->Err_0@ == fault->0
                &&& r is Ok ==> r->Ok_0 is Some == is_complete(*seen)
                &&& r matches Ok(Some(receipt)) ==> receipt.operation_id@
                    == operation.operation_id@ && receipt.file_name@ == operation.file_name@
                    && receipt.size_bytes == bytes->Ok_0@.len() && receipt.sha256@
                    == files::digest_text(bytes->Ok_0@) && receipt.path@ == seen.target->Ok_0@
            }),
    {
        let path = match self.awaited_download(operation, seen, timed_out) {
            Err(error) => {
                return Err(error);
            },
            Ok(None) => {
                return Ok(None);
            },
            Ok(Some(path)) => path,
        };
        match bytes {
            Err(fault) => Err(BrowserError::Io(fault)),
            Ok(bytes) => Ok(
                Some(
                    DownloadReceipt {
                        operation_id: operation.operation_id.clone(),
                        file_name: operation.file_name.clone(),
                        size_bytes: bytes.len() as u64,
                        sha256: files::sha256_hex(bytes.as_slice()),
                        path: paths::copy_path(path),
                    },
                ),
            ),
        }
    }
}

// ---------------------------------------------------------------------------
// Laws

/// A driver is ready exactly when its answer holds a value that says so.
pub proof fn drivers_are_ready_when_they_say_so(body: ParameterValue, inner: ParameterValue)
    ensures
        says_ready(body) <==> (value_field(body, "value"@) is Some && value_field(
            value_field(body, "value"@)->0,
            "ready"@,
        ) == Some(ParameterValue::Bool(true))),
        !(body is Table) ==> !says_ready(body),
        body matches ParameterValue::Table(fields) ==> value_field(body, "value"@)
            == protocol::parameter(fields@, "value"@),
{
}

/// A browser is launched exactly when the answer holds a value with the name of the session
/// and, among the capabilities, the address to listen at; what is missing first is told.
pub proof fn browsers_are_launched_exactly_when_answered(body: ParameterValue)
    ensures
        ({
            let value = value_field(body, "value"@);
            let session = value_field(value->0, "sessionId"@);
            let capabilities = value_field(value->0, "capabilities"@);
            let address = value_field(capabilities->0, "webSocketUrl"@);
            let named = session is Some && session->0 is Text;
            let listening = capabilities is Some && address is Some && address->0 is Text;
            let r = launch_fault(body);
            &&& r is None <==> value is Some && named && listening
            &&& value is None ==> r == Some(BrowserFault::MissingField("value"@))
            &&& value is Some && !named ==> r == Some(BrowserFault::MissingField("sessionId"@))
            &&& value is Some && named && !listening ==> r == Some(
                BrowserFault::MissingField("webSocketUrl"@),
            )
        }),
{
}

/// Slashes before a command are left out, and nothing else.
pub proof fn commands_lose_their_first_slashes(s: Seq<char>)
    ensures
        without_slashes(s).len() <= s.len(),
        s.skip(s.len() - without_slashes(s).len()) == without_slashes(s),
        forall|i: int|
            0 <= i < s.len() - without_slashes(s).len() ==> #[trigger] s[i] == '/',
        without_slashes(s).len() > 0 ==> without_slashes(s)[0] != '/',
    decreases s.len(),
{
    if s.len() > 0 && s[0] == '/' {
        let rest = s.drop_first();
        commands_lose_their_first_slashes(rest);
        let left = without_slashes(s);
        assert(s.skip(s.len() - left.len()) =~= rest.skip(rest.len() - left.len()));
        assert forall|i: int| 0 <= i < s.len() - left.len() implies #[trigger] s[i] == '/' by {
            if i > 0 {
                assert(rest[i - 1] == s[i]);
            }
        }
    } else {
        assert(s.skip(0) =~= s);
    }
}

/// The address of a session is that of the driver, the word for sessions and its name.
pub proof fn sessions_have_their_address(endpoint: Seq<char>, session: Seq<char>)
    ensures
        session_url(endpoint, session) == endpoint + seq!['/', 's', 'e', 's', 's', 'i', 'o', 'n', '/']
            + session,
{
    reveal_strlit("/session/");
    assert("/session/"@ =~= seq!['/', 's', 'e', 's', 's', 'i', 'o', 'n', '/']);
}

/// Only an open session may be used; one that is closing, or whose end was not confirmed, is
/// told to be closing.
pub proof fn only_open_sessions_are_used(state: BrowserCloseState)
    ensures
        open_fault(state) is None <==> state is Open,
        open_fault(state) == Some(BrowserFault::SessionClosed) <==> state is Closed,
        open_fault(state) == Some(BrowserFault::SessionClosing) <==> state is Closing
            || state is CloseUnconfirmed,
{
}

/// A picture of the page is taken exactly when the session is open and the answer is a text
/// in base64; an element is found exactly when the session is open and the answer holds a
/// text under the name of web elements.
pub proof fn answers_are_taken_exactly_when_they_fit(state: BrowserCloseState, value: ParameterValue)
    ensures
        ({
            let r = screenshot_fault(state, value);
            let decoded = codec::standard_base64_bytes(value->Text_0@);
            &&& r is None <==> state is Open && value is Text && decoded is Some
            &&& state is Open && !(value is Text) ==> r == Some(
                BrowserFault::MissingField("screenshot"@),
            )
            &&& state is Open && value is Text && decoded is None ==> r == Some(
                BrowserFault::Base64,
            )
            &&& !(state is Open) ==> r == open_fault(state)
        }),
        ({
            let r = element_fault(state, value);
            let id = value_field(value, "element-6066-11e4-a52e-4f735466cecf"@);
            let found = id is Some && id->0 is Text;
            &&& r is None <==> state is Open && found
            &&& state is Open && !found ==> r == Some(BrowserFault::MissingField("web element id"@))
            &&& !(state is Open) ==> r == open_fault(state)
        }),
{
}

/// A name without slashes of either kind is safe to save under exactly when it is not empty,
/// holds none of the seven characters that names may not hold, does not end with a space or
/// a dot, and does not begin with one of the names of devices before its first dot, in
/// letters of either case.
pub proof fn plain_names_are_safe_to_save_under(name: Seq<char>)
    requires
        !name.contains('/'),
        !name.contains('\\'),
    ensures
        is_safe_name(name) <==> {
            &&& name.len() > 0
            &&& forall|i: int|
                0 <= i < name.len() ==> !seq![':', '<', '>', '"', '|', '?', '*'].contains(
                    #[trigger] name[i],
                )
            &&& name[name.len() - 1] != ' '
            &&& name[name.len() - 1] != '.'
            &&& !device_names().contains(
                text::ascii_lower(name.take(text::first_index(name, '.'))),
            )
        },
{
    let bad = seq![':', '<', '>', '"', '|', '?', '*'];
    assert(bad[0] == ':' && bad[1] == '<' && bad[2] == '>' && bad[3] == '"' && bad[4] == '|'
        && bad[5] == '?' && bad[6] == '*');
    assert forall|c: char| bad.contains(c) == #[trigger] is_bad_name_char(c) by {}
    let devices = device_names();
    assert(devices[0] == "con"@);
    assert(devices[1] == "prn"@);
    assert(devices[2] == "aux"@);
    assert(devices[3] == "nul"@);
    assert(devices[4] == "com1"@);
    assert(devices[5] == "com2"@);
    assert(devices[6] == "com3"@);
    assert(devices[7] == "com4"@);
    assert(devices[8] == "com5"@);
    assert(devices[9] == "com6"@);
    assert(devices[10] == "com7"@);
    assert(devices[11] == "com8"@);
    assert(devices[12] == "com9"@);
    assert(devices[13] == "lpt1"@);
    assert(devices[14] == "lpt2"@);
    assert(devices[15] == "lpt3"@);
    assert(devices[16] == "lpt4"@);
    assert(devices[17] == "lpt5"@);
    assert(devices[18] == "lpt6"@);
    assert(devices[19] == "lpt7"@);
    assert(devices[20] == "lpt8"@);
    assert(devices[21] == "lpt9"@);
    let stem = text::ascii_lower(text::split_on(name, '.')[0]);
    assert(devices.contains(stem) == is_reserved(stem));
    lemma_first_piece(name, '.');
    let same = text::replace_char(name, '\\', '/');
    assert forall|i: int| 0 <= i < name.len() implies same[i] == name[i] by {
        assert(name.contains(name[i]));
    }
    assert(same =~= name);
    lemma_first_piece(name, '/');
    text::first_places_are_first(name, '/');
    assert(text::first_index(name, '/') == name.len()) by {
        let n = text::first_index(name, '/');
        if n < name.len() {
            assert(name.contains(name[n]));
        }
    }
    assert(name.take(name.len() as int) =~= name);
    reveal_strlit(".");
    reveal_strlit("..");
    if name.len() > 0 && name == "."@ {
        assert(name[name.len() - 1] == '.');
    }
    if name.len() > 0 && name == ".."@ {
        assert(name[name.len() - 1] == '.');
    }
    assert forall|i: int| 0 <= i < name.len() implies is_bad_name_char(#[trigger] name[i])
        == bad.contains(name[i]) by {}
}

/// The names that belong to devices.
pub open spec fn device_names() -> Seq<Seq<char>> {
    seq![
        "con"@,
        "prn"@,
        "aux"@,
        "nul"@,
        "com1"@,
        "com2"@,
        "com3"@,
        "com4"@,
        "com5"@,
        "com6"@,
        "com7"@,
        "com8"@,
        "com9"@,
        "lpt1"@,
        "lpt2"@,
        "lpt3"@,
        "lpt4"@,
        "lpt5"@,
        "lpt6"@,
        "lpt7"@,
        "lpt8"@,
        "lpt9"@,
    ]
}

proof fn lemma_first_piece(s: Seq<char>, sep: char)
    ensures
        text::split_on(s, sep).len() >= 1,
        text::split_on(s, sep)[0] == s.take(text::first_index(s, sep)),
        text::split_on(s, sep).len() == 1 <==> text::first_index(s, sep) == s.len(),
    decreases s.len(),
{
    text::first_places_are_first(s, sep);
    if s.len() > 0 {
        let before = s.drop_last();
        lemma_first_piece(before, sep);
        text::first_places_are_first(before, sep);
        let n = text::first_index(s, sep);
        let m = text::first_index(before, sep);
        if m < before.len() {
            assert(s[m] == before[m]);
            assert(n == m) by {
                if n < m {
                    assert(before[n] == s[n]);
                }
            }
            assert(s.take(n) =~= before.take(m));
        } else {
            assert forall|k: int| 0 <= k < before.len() implies s[k] != sep by {
                assert(before[k] != sep);
            }
            if s.last() == sep {
                assert(n == before.len()) by {
                    if n < before.len() {
                        assert(s[n] == before[n]);
                    }
                    if n > before.len() {
                        assert(s[before.len() as int] == sep);
                    }
                }
                assert(s.take(n) =~= before.take(m));
            } else {
                assert(n == s.len()) by {
                    if n < s.len() {
                        if n < before.len() {
                            assert(s[n] == before[n]);
                        }
                    }
                }
                assert(s.take(n) =~= before.take(m).push(s.last()));
            }
        }
    }
}

/// A name that leads elsewhere is not safe to save under.
pub proof fn leading_names_are_not_safe(name: Seq<char>, i: int)
    requires
        0 <= i < segments(name).len(),
        segments(name)[i] == ".."@ || segments(name)[0].len() == 0 || (i > 0 && segments(name)[i].len()
            > 0 && segments(name)[i] != "."@),
    ensures
        !is_safe_name(name),
{
    reveal_strlit(".");
    reveal_strlit("..");
    assert("."@.len() == 1 && ".."@.len() == 2);
}

/// A file is saved exactly when the session is open, the operation has a name and the file
/// has one that is safe; it goes into the directory for downloads, and what has not come
/// whole yet stands beside it.
pub proof fn downloads_are_planned_exactly_when_named(
    style: PathStyle,
    operation: DownloadOperation,
    bridge: BrowserBridge,
    operation_id: Seq<char>,
    file_name: Seq<char>,
)
    ensures
        ({
            let state = bridge.close_state;
            let named = exists|i: int|
                0 <= i < operation_id.len() && !text::is_white_space(#[trigger] operation_id[i]);
            let r = download_fault(state, operation_id, file_name);
            &&& r is None <==> state is Open && named && is_safe_name(file_name)
            &&& state is Open && !named ==> r == Some(BrowserFault::InvalidOperationId)
            &&& state is Open && named && !is_safe_name(file_name) ==> r == Some(
                BrowserFault::UnsafeDownloadName,
            )
        }),
        is_download(style, operation, bridge, operation_id, file_name) ==> {
            &&& operation.operation_id@ == operation_id
            &&& operation.file_name@ == file_name
            &&& operation.target@ == paths::joined(style, bridge.download_dir@, file_name)
            &&& operation.partial@ == paths::joined(
                style,
                bridge.download_dir@,
                file_name + seq!['.', 'p', 'a', 'r', 't'],
            )
        },
{
    reveal_strlit(".part");
    assert(".part"@ =~= seq!['.', 'p', 'a', 'r', 't']);
}

/// A download is there once the file is and its partial one is not; it is taken exactly when
/// the session is open, there was time, and the file lies below the directory for downloads.
pub proof fn downloads_are_taken_exactly_when_whole(
    bridge: BrowserBridge,
    operation: DownloadOperation,
    seen: DownloadObservation,
    timed_out: bool,
)
    ensures
        ({
            let open = bridge.close_state is Open;
            let whole = seen.target_is_file && !seen.partial_exists;
            let resolved = seen.download_dir is Ok && seen.target is Ok;
            let inside = seen.download_dir->Ok_0@.parts.is_prefix_of(seen.target->Ok_0@.parts);
            let r = awaited_fault(bridge, operation, seen, timed_out);
            &&& is_complete(seen) <==> whole
            &&& r is None <==> open && !timed_out && (whole ==> resolved && inside)
            &&& open && timed_out ==> r == Some(
                BrowserFault::DownloadTimeout(operation.file_name@),
            )
            &&& open && !timed_out && whole && resolved && !inside ==> r == Some(
                BrowserFault::DownloadEscaped,
            )
        }),
{
}

/// A browser is asked for with its own profile, in the background where that is wanted, and
/// saves files without asking into the directory for downloads.
pub proof fn browsers_are_asked_for_by_name(payload: ParameterValue, config: BrowserConfig)
    requires
        is_launch_payload(payload, config),
    ensures
        ({
            let wanted = value_field(value_field(payload, "capabilities"@)->0, "alwaysMatch"@)->0;
            let options = value_field(wanted, "moz:firefoxOptions"@)->0;
            let prefs = value_field(options, "prefs"@)->0;
            let arguments = value_field(options, "args"@)->0;
            &&& field_text(value_field(wanted, "browserName"@)) == Some("firefox"@)
            &&& value_field(wanted, "webSocketUrl"@) == Some(ParameterValue::Bool(true))
            &&& field_text(value_field(options, "binary"@)) == Some(config.firefox_binary.text@)
            &&& arguments is List
            &&& protocol::value_texts(arguments->List_0@) == (if config.headless {
                seq!["-headless"@, "-profile"@, config.profile_path.text@]
            } else {
                seq!["-profile"@, config.profile_path.text@]
            })
            &&& value_field(prefs, "browser.download.folderList"@) == Some(
                ParameterValue::Unsigned(2),
            )
            &&& value_field(prefs, "browser.download.useDownloadDir"@) == Some(
                ParameterValue::Bool(true),
            )
            &&& field_text(value_field(prefs, "browser.download.dir"@)) == Some(
                config.download_dir.text@,
            )
            &&& value_field(prefs, "browser.download.alwaysOpenPanel"@) == Some(
                ParameterValue::Bool(false),
            )
            &&& value_field(prefs, "browser.download.manager.showWhenStarting"@) == Some(
                ParameterValue::Bool(false),
            )
            &&& field_text(value_field(prefs, "browser.helperApps.neverAsk.saveToDisk"@)) == Some(
                "application/octet-stream,text/plain,application/zip,application/pdf"@,
            )
        }),
{
    let outer = payload->Table_0@;
    protocol::parameters_are_found_by_name(outer, "capabilities"@, 0);
    let middle = inner(outer[0]);
    protocol::parameters_are_found_by_name(middle, "alwaysMatch"@, 0);
    let wanted = inner(middle[0]);
    lemma_wanted(wanted, config);
    let options = inner(wanted[2]);
    lemma_options(options, config);
    lemma_preferences(inner(options[2]), config.download_dir.text@);
}

proof fn lemma_wanted(wanted: Seq<Parameter>, config: BrowserConfig)
    requires
        wanted_browser(wanted, config),
    ensures
        protocol::parameter(wanted, "browserName"@) == Some(wanted[0].value),
        protocol::parameter(wanted, "webSocketUrl"@) == Some(wanted[1].value),
        protocol::parameter(wanted, "moz:firefoxOptions"@) == Some(wanted[2].value),
{
    reveal_strlit("browserName");
    reveal_strlit("webSocketUrl");
    reveal_strlit("moz:firefoxOptions");
    assert("browserName"@.len() == 11);
    assert("webSocketUrl"@.len() == 12);
    assert("moz:firefoxOptions"@.len() == 18);
    protocol::parameters_are_found_by_name(wanted, "browserName"@, 0);
    protocol::parameters_are_found_by_name(wanted, "webSocketUrl"@, 1);
    protocol::parameters_are_found_by_name(wanted, "moz:firefoxOptions"@, 2);
}

proof fn lemma_options(options: Seq<Parameter>, config: BrowserConfig)
    requires
        browser_options(options, config),
    ensures
        protocol::parameter(options, "binary"@) == Some(options[0].value),
        protocol::parameter(options, "args"@) == Some(options[1].value),
        protocol::parameter(options, "prefs"@) == Some(options[2].value),
{
    reveal_strlit("binary");
    reveal_strlit("args");
    reveal_strlit("prefs");
    assert("binary"@.len() == 6);
    assert("args"@.len() == 4);
    assert("prefs"@.len() == 5);
    protocol::parameters_are_found_by_name(options, "binary"@, 0);
    protocol::parameters_are_found_by_name(options, "args"@, 1);
    protocol::parameters_are_found_by_name(options, "prefs"@, 2);
}

proof fn lemma_preferences(prefs: Seq<Parameter>, download_dir: Seq<char>)
    requires
        download_preferences(prefs, download_dir),
    ensures
        protocol::parameter(prefs, "browser.download.folderList"@) == Some(prefs[0].value),
        protocol::parameter(prefs, "browser.download.useDownloadDir"@) == Some(prefs[1].value),
        protocol::parameter(prefs, "browser.download.dir"@) == Some(prefs[2].value),
        protocol::parameter(prefs, "browser.download.alwaysOpenPanel"@) == Some(prefs[3].value),
        protocol::parameter(prefs, "browser.download.manager.showWhenStarting"@) == Some(prefs[4].value),
        protocol::parameter(prefs, "browser.helperApps.neverAsk.saveToDisk"@) == Some(prefs[5].value),
{
    reveal_strlit("browser.download.folderList");
    reveal_strlit("browser.download.useDownloadDir");
    reveal_strlit("browser.download.dir");
    reveal_strlit("browser.download.alwaysOpenPanel");
    reveal_strlit("browser.download.manager.showWhenStarting");
    reveal_strlit("browser.helperApps.neverAsk.saveToDisk");
    assert("browser.download.folderList"@.len() == 27);
    assert("browser.download.useDownloadDir"@.len() == 31);
    assert("browser.download.dir"@.len() == 20);
    assert("browser.download.alwaysOpenPanel"@.len() == 32);
    assert("browser.download.manager.showWhenStarting"@.len() == 41);
    assert("browser.helperApps.neverAsk.saveToDisk"@.len() == 38);
    protocol::parameters_are_found_by_name(prefs, "browser.download.folderList"@, 0);
    protocol::parameters_are_found_by_name(prefs, "browser.download.useDownloadDir"@, 1);
    protocol::parameters_are_found_by_name(prefs, "browser.download.dir"@, 2);
    protocol::parameters_are_found_by_name(prefs, "browser.download.alwaysOpenPanel"@, 3);
    protocol::parameters_are_found_by_name(prefs, "browser.download.manager.showWhenStarting"@, 4);
    protocol::parameters_are_found_by_name(prefs, "browser.helperApps.neverAsk.saveToDisk"@, 5);
}

/// A browser has these times to start, to be asked again and to save a file.
pub proof fn browsers_have_these_times()
    ensures
        DEFAULT_STARTUP_TIMEOUT_MS == 15_000,
        DRIVER_POLL_INTERVAL_MS == 50,
        DOWNLOAD_TIMEOUT_MS == 10_000,
{
}

} // verus!
