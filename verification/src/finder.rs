//! The desktop's side of the file provider: drives in the Finder, and what the user is told when
//! the helper fails. Nothing that the helper prints is ever shown, for it could hold server data.
use crate::outside::{
    add_to_instant, instant_after, is_json, json_flag, json_flag_member, json_integer,
    json_integer_member, json_text, json_text_member, json_valid, FIRST_SECOND, LAST_SECOND,
    LONGEST_DELAY, parse_uuid, rfc3339_text, uuid_value, write_rfc3339,
};
use crate::provider::{Task, task_name};
use crate::scope::CrUri;
use crate::text::{
    begins_with, chars_of, decimal, decimal_text, lemma_decimals_differ, opt_text, same_text,
    starts_with_text, text_of, texts,
};
use vstd::prelude::*;

verus! {

/// The families of errors that the user is told about.
#[derive(Debug, Clone, Copy, PartialEq, Eq, Structural)]
pub enum Family {
    ScopeMismatch,
    OsStatus,
    FileProvider,
    Cocoa,
    Unknown,
}

/// The name of a family of errors.
pub open spec fn family_name(family: Family) -> Seq<char> {
    match family {
        Family::ScopeMismatch => "CloudreveAccountScopeMismatch"@,
        Family::OsStatus => "NSOSStatusErrorDomain"@,
        Family::FileProvider => "NSFileProviderErrorDomain"@,
        Family::Cocoa => "NSCocoaErrorDomain"@,
        Family::Unknown => "unknown"@,
    }
}

/// What the user can do about an error of a family.
pub open spec fn family_advice(family: Family) -> Seq<char> {
    match family {
        Family::ScopeMismatch =>
            "Use the same account and remote folder. Legacy domains without stored identity must be removed with data preservation and added again."@,
        Family::OsStatus =>
            "Unlock the macOS login Keychain and allow Cloudreve to access its account record, then retry."@,
        Family::FileProvider =>
            "Check the Finder drive, account authorization, network, and macOS extension settings."@,
        Family::Cocoa =>
            "Check macOS extension settings, file permissions and whether the selected cloud folder is accessible."@,
        Family::Unknown => "Refresh the Finder drive status and retry."@,
    }
}

/// The family of errors that a domain stands for.
pub open spec fn family_of(domain: Option<Seq<char>>) -> Family {
    if domain == Some("CloudreveAccountScopeMismatch"@) {
        Family::ScopeMismatch
    } else if domain == Some("NSOSStatusErrorDomain"@) {
        Family::OsStatus
    } else if domain == Some("NSFileProviderErrorDomain"@) {
        Family::FileProvider
    } else if domain == Some("NSCocoaErrorDomain"@) {
        Family::Cocoa
    } else {
        Family::Unknown
    }
}

/// What the user is told of an error of a family with a code.
pub open spec fn family_text(family: Family, code: i64) -> Seq<char> {
    "File Provider: "@ + family_name(family) + " ("@ + decimal(code as int) + "). "@
        + family_advice(family)
}

impl Family {
    /// The family of errors that a domain stands for.
    pub fn of(domain: &Option<String>) -> (family: Family)
        ensures
            family == family_of(opt_text(*domain)),
    {
        match domain {
            None => Family::Unknown,
            Some(domain) => {
                let domain = domain.as_str();
                if same_text(domain, "CloudreveAccountScopeMismatch") {
                    Family::ScopeMismatch
                } else if same_text(domain, "NSOSStatusErrorDomain") {
                    Family::OsStatus
                } else if same_text(domain, "NSFileProviderErrorDomain") {
                    Family::FileProvider
                } else if same_text(domain, "NSCocoaErrorDomain") {
                    Family::Cocoa
                } else {
                    Family::Unknown
                }
            },
        }
    }

    /// The name of the family.
    pub fn name(&self) -> (name: &'static str)
        ensures
            name@ == family_name(*self),
    {
        match self {
            Family::ScopeMismatch => "CloudreveAccountScopeMismatch",
            Family::OsStatus => "NSOSStatusErrorDomain",
            Family::FileProvider => "NSFileProviderErrorDomain",
            Family::Cocoa => "NSCocoaErrorDomain",
            Family::Unknown => "unknown",
        }
    }

    /// What the user can do about an error of the family.
    pub fn advice(&self) -> (advice: &'static str)
        ensures
            advice@ == family_advice(*self),
    {
        match self {
            Family::ScopeMismatch =>
                "Use the same account and remote folder. Legacy domains without stored identity must be removed with data preservation and added again.",
            Family::OsStatus =>
                "Unlock the macOS login Keychain and allow Cloudreve to access its account record, then retry.",
            Family::FileProvider =>
                "Check the Finder drive, account authorization, network, and macOS extension settings.",
            Family::Cocoa =>
                "Check macOS extension settings, file permissions and whether the selected cloud folder is accessible.",
            Family::Unknown => "Refresh the Finder drive status and retry.",
        }
    }

    /// What the user is told of an error of the family with a code.
    pub fn message(&self, code: i64) -> (text: String)
        ensures
            text@ == family_text(*self, code),
    {
        "File Provider: ".to_owned().concat(self.name()).concat(" (").concat(
            decimal_text(code).as_str(),
        ).concat("). ").concat(self.advice())
    }
}

/// The code that the helper printed, or zero.
pub open spec fn printed_code(output: Seq<u8>) -> i64 {
    match json_integer(output, "error_code"@) {
        Some(code) => code,
        None => 0,
    }
}

/// What the user is told where the helper failed and printed `output`.
pub open spec fn helper_text(output: Seq<u8>) -> Seq<char> {
    family_text(family_of(json_text(output, "error_domain"@)), printed_code(output))
}

/// What the user is told where the helper failed and printed `output`.
pub fn helper_error(output: &[u8]) -> (text: String)
    ensures
        text@ == helper_text(output@),
{
    let domain = json_text_member(output, "error_domain");
    let code: i64 = match json_integer_member(output, "error_code") {
        Some(code) => code,
        None => 0,
    };
    Family::of(&domain).message(code)
}

/// Whatever the helper prints, the user is told one of five fixed texts with a number in it, and
/// two outputs with the same family and code are told in the same way.
pub proof fn lemma_output_is_never_shown(output: Seq<u8>, other: Seq<u8>)
    ensures
        exists|family: Family, code: i64| helper_text(output) == #[trigger] family_text(family, code),
        family_of(json_text(output, "error_domain"@)) == family_of(
            json_text(other, "error_domain"@),
        ) && printed_code(output) == printed_code(other) ==> helper_text(output) == helper_text(
            other,
        ),
{
    assert(helper_text(output) == family_text(
        family_of(json_text(output, "error_domain"@)),
        printed_code(output),
    ));
}

/// How the helper is started: its arguments, which others on the machine can see, and what it reads
/// from its standard input, which they cannot.
#[derive(Debug, Clone, PartialEq, Eq)]
pub struct HelperCall {
    pub arguments: Vec<String>,
    pub stdin: Vec<u8>,
}

/// The arguments of a call of the helper.
pub open spec fn call_arguments(action: Seq<char>, arg: Option<Seq<char>>) -> Seq<Seq<char>> {
    match arg {
        Some(arg) => seq![action, arg],
        None => seq![action],
    }
}

/// Lays out a call of the helper: the action and its argument, if it has one, are the arguments, and
/// the input, such as one that holds credentials, is read from the standard input alone.
pub fn helper_call(action: &str, arg: Option<&str>, input: Option<Vec<u8>>) -> (call: HelperCall)
    ensures
        texts(call.arguments@) == call_arguments(
            action@,
            match arg {
                Some(arg) => Some(arg@),
                None => None,
            },
        ),
        call.stdin@ == (match input {
            Some(input) => input@,
            None => Seq::empty(),
        }),
{
    let mut arguments: Vec<String> = Vec::new();
    arguments.push(action.to_owned());
    if let Some(arg) = arg {
        arguments.push(arg.to_owned());
    }
    assert(texts(arguments@) =~= call_arguments(
        action@,
        match arg {
            Some(arg) => Some(arg@),
            None => None,
        },
    ));
    let stdin = match input {
        Some(input) => input,
        None => Vec::new(),
    };
    HelperCall { arguments, stdin }
}

/// What a call of the helper comes to: its output where that is JSON, and an error where the helper
/// reports one or prints anything else.
pub fn call_outcome(success: bool, output: &[u8]) -> (outcome: Result<(), String>)
    ensures
        match outcome {
            Ok(()) => success && json_valid(output@),
            Err(text) => if !success {
                text@ == helper_text(output@)
            } else {
                !json_valid(output@) && text@ == "Invalid File Provider response"@
            },
        },
{
    if !success {
        Err(helper_error(output))
    } else if !is_json(output) {
        Err(CallFault::InvalidResponse.message().to_owned())
    } else {
        Ok(())
    }
}

/// Why a call of the helper does not come to an answer.
#[derive(Debug, Clone, Copy, PartialEq, Eq, Structural)]
pub enum CallFault {
    NoApplication,
    InvalidBundle,
    NotInstalled,
    InvalidHelper,
    NoExtension,
    RegistrationTimedOut,
    CannotRegister,
    RegistrationFailed,
    CannotStart,
    InvalidSetup,
    SetupFailed,
    TimedOut,
    HostFailed,
    InvalidResponse,
    NotMacos,
}

/// How such a fault is told.
pub open spec fn call_fault_text(fault: CallFault) -> Seq<char> {
    match fault {
        CallFault::NoApplication => "Cannot locate application"@,
        CallFault::InvalidBundle => "Invalid application bundle"@,
        CallFault::NotInstalled => "File Provider component is not installed"@,
        CallFault::InvalidHelper => "Invalid File Provider helper bundle"@,
        CallFault::NoExtension => "File Provider extension is missing"@,
        CallFault::RegistrationTimedOut => "File Provider registration timed out"@,
        CallFault::CannotRegister => "Cannot register File Provider extension"@,
        CallFault::RegistrationFailed => "File Provider registration failed"@,
        CallFault::CannotStart => "Cannot start File Provider host"@,
        CallFault::InvalidSetup => "Invalid setup data"@,
        CallFault::SetupFailed => "File Provider setup failed"@,
        CallFault::TimedOut =>
            "File Provider timed out; check registered drives before retrying"@,
        CallFault::HostFailed => "File Provider host failed"@,
        CallFault::InvalidResponse => "Invalid File Provider response"@,
        CallFault::NotMacos => "File Provider requires macOS"@,
    }
}

impl CallFault {
    /// How the fault is told.
    pub fn message(&self) -> (text: &'static str)
        ensures
            text@ == call_fault_text(*self),
    {
        match self {
            CallFault::NoApplication => "Cannot locate application",
            CallFault::InvalidBundle => "Invalid application bundle",
            CallFault::NotInstalled => "File Provider component is not installed",
            CallFault::InvalidHelper => "Invalid File Provider helper bundle",
            CallFault::NoExtension => "File Provider extension is missing",
            CallFault::RegistrationTimedOut => "File Provider registration timed out",
            CallFault::CannotRegister => "Cannot register File Provider extension",
            CallFault::RegistrationFailed => "File Provider registration failed",
            CallFault::CannotStart => "Cannot start File Provider host",
            CallFault::InvalidSetup => "Invalid setup data",
            CallFault::SetupFailed => "File Provider setup failed",
            CallFault::TimedOut =>
                "File Provider timed out; check registered drives before retrying",
            CallFault::HostFailed => "File Provider host failed",
            CallFault::InvalidResponse => "Invalid File Provider response",
            CallFault::NotMacos => "File Provider requires macOS",
        }
    }
}

/// Why a request about a drive is refused before the helper is called.
#[derive(Debug, Clone, Copy, PartialEq, Eq, Structural)]
pub enum DriveError {
    /// The helper is not available.
    Unavailable,
    /// The identifier of the drive is none.
    InvalidDomain,
    /// A token would expire at no date that can be written down.
    InvalidExpiry,
}

impl DriveError {
    /// How the error is told.
    pub fn message(&self) -> (text: &'static str)
        ensures
            text@ == (match *self {
                DriveError::Unavailable => "Finder sync is unavailable in this build"@,
                DriveError::InvalidDomain => "Invalid domain ID"@,
                DriveError::InvalidExpiry => "Invalid expiry"@,
            }),
    {
        match self {
            DriveError::Unavailable => "Finder sync is unavailable in this build",
            DriveError::InvalidDomain => "Invalid domain ID",
            DriveError::InvalidExpiry => "Invalid expiry",
        }
    }
}

/// Checks the identifier of a drive, before the drive is resumed, located or removed.
pub fn check_domain(domain_id: &str) -> (outcome: Result<(), DriveError>)
    ensures
        match outcome {
            Ok(()) => uuid_value(domain_id@) is Some,
            Err(error) => uuid_value(domain_id@) is None && error == DriveError::InvalidDomain,
        },
{
    match parse_uuid(domain_id) {
        Ok(_) => Ok(()),
        Err(_) => Err(DriveError::InvalidDomain),
    }
}

/// The date at which a token expires that is good for `delay` seconds from now on, if there is
/// one.
pub open spec fn expiry_date(seconds: i64, nanos: u32, delay: u64) -> Option<Seq<char>> {
    if delay <= LONGEST_DELAY {
        match instant_after(seconds, nanos, delay as i64) {
            Some(at) => Some(rfc3339_text(at.0, at.1)),
            None => None,
        }
    } else {
        None
    }
}

fn expiry(seconds: i64, nanos: u32, delay: u64) -> (date: Option<String>)
    ensures
        opt_text(date) == expiry_date(seconds, nanos, delay),
{
    if delay <= LONGEST_DELAY as u64 {
        match add_to_instant(seconds, nanos, delay as i64) {
            Some((seconds, nanos)) => write_rfc3339(seconds, nanos),
            None => None,
        }
    } else {
        None
    }
}

/// The dates at which both tokens of a drive expire.
#[derive(Debug, Clone, PartialEq, Eq)]
pub struct Expiries {
    pub access: String,
    pub refresh: String,
}

/// Whether the status of the helper says that it is available.
pub open spec fn is_available(status: Result<Vec<u8>, Unavailable>) -> bool {
    status is Ok && json_flag(status->Ok_0@, "available"@) == Some(true)
}

/// Why a drive cannot be added or authorized again, if it cannot.
pub open spec fn drive_fault(
    available: bool,
    domain_id: Seq<char>,
    seconds: i64,
    nanos: u32,
    access: u64,
    refresh: u64,
) -> Option<DriveError> {
    if !available {
        Some(DriveError::Unavailable)
    } else if uuid_value(domain_id) is None {
        Some(DriveError::InvalidDomain)
    } else if expiry_date(seconds, nanos, access) is None || expiry_date(seconds, nanos, refresh) is None {
        Some(DriveError::InvalidExpiry)
    } else {
        None
    }
}

/// Prepares the request that adds a drive or authorizes it again: `status` is what was told of the
/// helper, now is `seconds` and `nanos` after the Unix epoch, and the tokens are good for `access`
/// and `refresh` seconds.
pub fn configure_finder_drive(
    status: &Result<Vec<u8>, Unavailable>,
    domain_id: &str,
    seconds: i64,
    nanos: u32,
    access: u64,
    refresh: u64,
) -> (outcome: Result<Expiries, DriveError>)
    ensures
        match outcome {
            Ok(expiries) => drive_fault(
                is_available(*status),
                domain_id@,
                seconds,
                nanos,
                access,
                refresh,
            ) is None && expiry_date(seconds, nanos, access) == Some(expiries.access@)
                && expiry_date(seconds, nanos, refresh) == Some(expiries.refresh@),
            Err(error) => drive_fault(
                is_available(*status),
                domain_id@,
                seconds,
                nanos,
                access,
                refresh,
            ) == Some(error),
        },
{
    let available = match status {
        Ok(output) => match json_flag_member(output.as_slice(), "available") {
            Some(flag) => flag,
            None => false,
        },
        Err(_) => false,
    };
    if !available {
        return Err(DriveError::Unavailable);
    }
    match check_domain(domain_id) {
        Ok(()) => {},
        Err(error) => {
            return Err(error);
        },
    }
    match (expiry(seconds, nanos, access), expiry(seconds, nanos, refresh)) {
        (Some(access), Some(refresh)) => Ok(Expiries { access, refresh }),
        _ => Err(DriveError::InvalidExpiry),
    }
}

/// Why the Finder is told to be unavailable.
#[derive(Debug, Clone, PartialEq, Eq)]
pub enum Unavailable {
    /// There is no Finder.
    Unsupported,
    /// The helper failed, and the user is told this.
    HostError(String),
}

/// What is told of the helper: its own answer, or why it is unavailable. Off macOS it is not even
/// called.
pub fn file_provider_status<T>(macos: bool, called: Result<T, String>) -> (status: Result<
    T,
    Unavailable,
>)
    ensures
        match status {
            Ok(answer) => macos && called == Ok::<T, String>(answer),
            Err(Unavailable::Unsupported) => !macos,
            Err(Unavailable::HostError(text)) => macos && called == Err::<T, String>(text),
        },
{
    if !macos {
        return Err(Unavailable::Unsupported);
    }
    match called {
        Ok(answer) => Ok(answer),
        Err(text) => Err(Unavailable::HostError(text)),
    }
}

/// Whether the last element of an address names a folder made for tests alone: a fixed beginning
/// and an identifier.
pub open spec fn is_probe_root(root: CrUri) -> bool {
    let elements = root@.elements;
    elements.len() > 0 && begins_with(elements.last(), "macos-fp-smoke-"@) && uuid_value(
        elements.last().skip("macos-fp-smoke-"@.len() as int),
    ) is Some
}

/// What the input of a live probe asks for.
#[derive(Debug, Clone, PartialEq, Eq)]
pub struct ProbeRequest {
    pub operation: Option<String>,
    pub root: Option<String>,
}

/// Reads the input of a live probe, unless it is no JSON.
pub fn read_probe(input: &[u8]) -> (request: Option<ProbeRequest>)
    ensures
        match request {
            Some(request) => json_valid(input@) && opt_text(request.operation) == json_text(
                input@,
                "operation"@,
            ) && opt_text(request.root) == json_text(input@, "root"@),
            None => !json_valid(input@),
        },
{
    if is_json(input) {
        Some(
            ProbeRequest {
                operation: json_text_member(input, "operation"),
                root: json_text_member(input, "root"),
            },
        )
    } else {
        None
    }
}

/// Whether an operation, if one is named, only reads.
pub open spec fn only_reads(operation: Option<Seq<char>>) -> bool {
    operation == Some("item"@) || operation == Some("list"@) || operation == Some("fetch"@)
}

/// Whether a live probe may go ahead: one that writes needs leave to do so, and a folder made for
/// tests alone. `root` is the address that the request names, where it could be read.
pub fn probe_allowed(request: &ProbeRequest, writes_allowed: bool, root: Option<&CrUri>) -> (yes:
    bool)
    ensures
        yes == (only_reads(opt_text(request.operation)) || (writes_allowed && root is Some
            && is_probe_root(*root->0))),
{
    if let Some(operation) = &request.operation {
        let operation = operation.as_str();
        if same_text(operation, "item") || same_text(operation, "list") || same_text(
            operation,
            "fetch",
        ) {
            return true;
        }
    }
    let root = match root {
        Some(root) => root,
        None => {
            return false;
        },
    };
    if !writes_allowed || root.elements.len() == 0 {
        return false;
    }
    let last = root.elements[root.elements.len() - 1].as_str();
    assert(last@ == root@.elements.last());
    if !starts_with_text(last, "macos-fp-smoke-") {
        return false;
    }
    let chars = chars_of(last);
    let prefix = chars_of("macos-fp-smoke-");
    let mut suffix: Vec<char> = Vec::new();
    let mut i: usize = prefix.len();
    while i < chars.len()
        invariant
            prefix.len() <= i <= chars.len(),
            suffix@ == chars@.subrange(prefix.len() as int, i as int),
        decreases chars.len() - i,
    {
        suffix.push(chars[i]);
        i += 1;
        assert(suffix@ =~= chars@.subrange(prefix.len() as int, i as int));
    }
    assert(suffix@ =~= chars@.skip(prefix.len() as int));
    parse_uuid(text_of(&suffix).as_str()).is_ok()
}

/// A domain that is known is told by its own name, and any other as unknown.
pub proof fn lemma_known_domains_keep_their_names(domain: Seq<char>, family: Family)
    ensures
        family != Family::Unknown ==> (family_of(Some(domain)) == family <==> domain == family_name(
            family,
        )),
        family_of(None) == Family::Unknown,
{
    reveal_strlit("CloudreveAccountScopeMismatch");
    reveal_strlit("NSOSStatusErrorDomain");
    reveal_strlit("NSFileProviderErrorDomain");
    reveal_strlit("NSCocoaErrorDomain");
    assert("CloudreveAccountScopeMismatch"@[0] == 'C');
    assert("NSOSStatusErrorDomain"@[2] == 'O');
    assert("NSFileProviderErrorDomain"@[2] == 'F');
    assert("NSCocoaErrorDomain"@[2] == 'C' && "NSCocoaErrorDomain"@[0] == 'N');
}

/// The code of an error is never lost: errors of one family are told in the same way only where they
/// have the same code.
pub proof fn lemma_codes_are_kept(family: Family, code: i64, other: i64)
    ensures
        family_text(family, code) == family_text(family, other) ==> code == other,
        begins_with(
            family_text(family, code),
            "File Provider: "@ + family_name(family) + " ("@ + decimal(code as int),
        ),
{
    let head = "File Provider: "@ + family_name(family) + " ("@;
    let tail = "). "@ + family_advice(family);
    let a = decimal(code as int);
    let b = decimal(other as int);
    assert(family_text(family, code) =~= head + a + tail);
    assert(family_text(family, other) =~= head + b + tail);
    assert((head + a + tail).take((head + a).len() as int) =~= head + a);
    if family_text(family, code) == family_text(family, other) {
        let n = head.len() as int;
        assert(a.len() == b.len());
        assert((head + a + tail).subrange(n, n + a.len()) =~= a);
        assert((head + b + tail).subrange(n, n + a.len()) =~= b);
        lemma_decimals_differ(code as int, other as int);
    }
}

/// A token expires as many seconds from now as it is good for, at a date that can be written down: up
/// to the end of the last year that there is.
pub proof fn lemma_tokens_expire_in_time(seconds: i64, nanos: u32, delay: u64)
    requires
        nanos < 1_000_000_000,
    ensures
        expiry_date(seconds, nanos, delay) == if FIRST_SECOND <= seconds && seconds + delay
            <= LAST_SECOND {
            Some(rfc3339_text(seconds + delay, nanos as int))
        } else {
            None
        },
{
}

/// A drive is added exactly where the helper is available, the identifier of the drive is one, and
/// both tokens expire at a date; what is wrong first is told.
pub proof fn lemma_drives_are_added(
    available: bool,
    domain_id: Seq<char>,
    seconds: i64,
    nanos: u32,
    access: u64,
    refresh: u64,
)
    ensures
        drive_fault(available, domain_id, seconds, nanos, access, refresh) is None <==> available
            && uuid_value(domain_id) is Some && expiry_date(seconds, nanos, access) is Some
            && expiry_date(seconds, nanos, refresh) is Some,
        drive_fault(available, domain_id, seconds, nanos, access, refresh) == Some(
            DriveError::Unavailable,
        ) <==> !available,
        drive_fault(available, domain_id, seconds, nanos, access, refresh) == Some(
            DriveError::InvalidDomain,
        ) <==> available && uuid_value(domain_id) is None,
{
}

/// What a probe may do without leave is exactly what the tasks that read are called; a folder for
/// probes is one whose name is the fixed beginning and an identifier.
pub proof fn lemma_probes_read_without_leave(operation: Seq<char>, root: CrUri, id: Seq<char>)
    ensures
        only_reads(Some(operation)) <==> operation == task_name(Task::Item) || operation == task_name(
            Task::List,
        ) || operation == task_name(Task::Fetch),
        !only_reads(None),
        root@.elements.len() > 0 && root@.elements.last() == "macos-fp-smoke-"@ + id ==> (
        is_probe_root(root) <==> uuid_value(id) is Some),
        is_probe_root(root) ==> root@.elements.len() > 0 && begins_with(
            root@.elements.last(),
            "macos-fp-smoke-"@,
        ),
{
    let prefix = "macos-fp-smoke-"@;
    assert((prefix + id).take(prefix.len() as int) =~= prefix);
    assert((prefix + id).skip(prefix.len() as int) =~= id);
}

/// The arguments of a call of the helper are its action and what it acts on, and nothing else.
pub proof fn lemma_calls_name_their_action(action: Seq<char>, arg: Seq<char>)
    ensures
        call_arguments(action, None).len() == 1 && call_arguments(action, None)[0] == action,
        call_arguments(action, Some(arg)).len() == 2 && call_arguments(action, Some(arg))[0] == action
            && call_arguments(action, Some(arg))[1] == arg,
{
}

/// An error of a known domain is told by the name of the domain and by its code, which is zero where
/// none was printed.
pub proof fn lemma_helper_errors_are_told(output: Seq<u8>, family: Family, code: i64)
    requires
        json_text(output, "error_domain"@) == Some(family_name(family)),
        json_integer(output, "error_code"@) == Some(code) || code == 0 && json_integer(
            output,
            "error_code"@,
        ) is None,
    ensures
        helper_text(output) == "File Provider: "@ + family_name(family) + " ("@ + decimal(
            code as int,
        ) + "). "@ + family_advice(family),
{
    lemma_known_domains_keep_their_names(family_name(family), family);
    lemma_unknown_is_no_domain();
}

proof fn lemma_unknown_is_no_domain()
    ensures
        family_of(Some(family_name(Family::Unknown))) == Family::Unknown,
{
    reveal_strlit("unknown");
    reveal_strlit("CloudreveAccountScopeMismatch");
    reveal_strlit("NSOSStatusErrorDomain");
    reveal_strlit("NSFileProviderErrorDomain");
    reveal_strlit("NSCocoaErrorDomain");
    assert("unknown"@[0] == 'u');
    assert("CloudreveAccountScopeMismatch"@[0] == 'C');
    assert("NSOSStatusErrorDomain"@[0] == 'N');
    assert("NSFileProviderErrorDomain"@[0] == 'N');
    assert("NSCocoaErrorDomain"@[0] == 'N');
}

/// The output of the helper is taken exactly where the helper reports success and prints JSON; off
/// macOS there is no Finder, and on it the helper's own answer, or why it failed, is told.
pub proof fn lemma_helper_answers_are_taken(
    success: bool,
    output: &[u8],
    outcome: Result<(), String>,
    macos: bool,
    called: Result<Vec<u8>, String>,
    status: Result<Vec<u8>, Unavailable>,
)
    requires
        call_ensures(call_outcome, (success, output), outcome),
        call_ensures(file_provider_status::<Vec<u8>>, (macos, called), status),
    ensures
        outcome is Ok <==> success && json_valid(output@),
        !success ==> outcome->Err_0@ == helper_text(output@),
        !macos ==> status == Err::<Vec<u8>, Unavailable>(Unavailable::Unsupported),
        macos && called is Ok ==> status is Ok && status->Ok_0 == called->Ok_0,
        macos && called is Err ==> (status matches Err(Unavailable::HostError(text)) && text
            == called->Err_0),
{
}

/// A probe that only reads may always go ahead; one that writes needs leave, and a folder made for
/// probes.
pub proof fn lemma_probes_that_write_need_leave(
    request: &ProbeRequest,
    writes_allowed: bool,
    root: Option<&CrUri>,
    allowed: bool,
)
    requires
        call_ensures(probe_allowed, (request, writes_allowed, root), allowed),
    ensures
        only_reads(opt_text(request.operation)) ==> allowed,
        !only_reads(opt_text(request.operation)) ==> (allowed <==> writes_allowed && root is Some
            && is_probe_root(*root->0)),
{
}

} // verus!
