//! Failures of a request to the file provider, and what the extension is told of them.
use vstd::prelude::*;

verus! {

/// A failure that the extension knows by name.
#[derive(Debug, Clone, Copy)]
pub struct Failure(pub &'static str);

/// An error of the server or of the way to it.
#[derive(Debug, Clone, Copy, PartialEq, Eq, Structural)]
pub enum ApiFault {
    /// The server answered with this code.
    Code(i32),
    LoginRequired,
    RefreshTokenExpired,
    AccessTokenExpired,
    NoTokensAvailable,
    InvalidToken,
    /// The server was not reached.
    Unreachable,
    /// Any other error of the client.
    Other,
}

/// Why a request to the file provider fails.
#[derive(Debug, Clone, Copy)]
pub enum Fault {
    /// A failure that the extension knows by name.
    Failure(Failure),
    /// An error of the server or of the way to it.
    Api(ApiFault),
    /// Anything else, told here for the log alone.
    Other(&'static str),
}

/// The code of an answer that tells that there is no such file.
pub const NOT_FOUND: i32 = 404;

/// The code of an answer that tells that the file is another version than the one named.
pub const STALE_VERSION: i32 = 40076;

/// The code of an answer that tells that the name is taken.
pub const NAME_TAKEN: i32 = 40004;

/// The code of an answer that tells that the user may not do this.
pub const FORBIDDEN: i32 = 403;

/// The name by which the extension knows an error of the server.
pub open spec fn api_kind(fault: ApiFault) -> Seq<char> {
    match fault {
        ApiFault::Code(code) => if code == NOT_FOUND {
            "not_found"@
        } else if code == STALE_VERSION {
            "version_conflict"@
        } else if code == NAME_TAKEN {
            "collision"@
        } else if code == FORBIDDEN {
            "permission"@
        } else {
            "internal"@
        },
        ApiFault::LoginRequired => "not_authenticated"@,
        ApiFault::RefreshTokenExpired => "not_authenticated"@,
        ApiFault::AccessTokenExpired => "not_authenticated"@,
        ApiFault::NoTokensAvailable => "not_authenticated"@,
        ApiFault::InvalidToken => "not_authenticated"@,
        ApiFault::Unreachable => "unreachable"@,
        ApiFault::Other => "internal"@,
    }
}

/// The name by which the extension knows a failure.
pub open spec fn fault_kind(fault: Fault) -> Seq<char> {
    match fault {
        Fault::Failure(failure) => failure.0@,
        Fault::Api(fault) => api_kind(fault),
        Fault::Other(_) => "internal"@,
    }
}

/// The name by which the extension knows a failure. A deletion is never inferred from a general
/// failure of the server.
pub fn error_kind(error: &Fault) -> (kind: &'static str)
    ensures
        kind@ == fault_kind(*error),
{
    match error {
        Fault::Failure(failure) => failure.0,
        Fault::Other(_) => "internal",
        Fault::Api(fault) => match fault {
            ApiFault::Code(code) => if *code == NOT_FOUND {
                "not_found"
            } else if *code == STALE_VERSION {
                "version_conflict"
            } else if *code == NAME_TAKEN {
                "collision"
            } else if *code == FORBIDDEN {
                "permission"
            } else {
                "internal"
            },
            ApiFault::LoginRequired => "not_authenticated",
            ApiFault::RefreshTokenExpired => "not_authenticated",
            ApiFault::AccessTokenExpired => "not_authenticated",
            ApiFault::NoTokensAvailable => "not_authenticated",
            ApiFault::InvalidToken => "not_authenticated",
            ApiFault::Unreachable => "unreachable",
            ApiFault::Other => "internal",
        },
    }
}

/// The code of the server's answer, if it answered with one.
pub fn api_code(error: &Fault) -> (code: Option<i32>)
    ensures
        code == (match *error {
            Fault::Api(ApiFault::Code(code)) => Some(code),
            _ => None,
        }),
{
    match error {
        Fault::Api(ApiFault::Code(code)) => Some(*code),
        _ => None,
    }
}

/// The failure that the extension knows as `kind`.
pub fn fail<T>(kind: &'static str) -> (outcome: Result<T, Fault>)
    ensures
        outcome == Err::<T, Fault>(Fault::Failure(Failure(kind))),
{
    Err(Fault::Failure(Failure(kind)))
}

/// A file is taken for gone only where the server itself says so, with the code that means
/// nothing else.
pub proof fn lemma_gone_only_when_told(fault: Fault)
    requires
        fault_kind(fault) == "not_found"@,
    ensures
        fault == Fault::Api(ApiFault::Code(NOT_FOUND)) || (fault matches Fault::Failure(failure)
            && failure.0@ == "not_found"@),
{
    reveal_strlit("not_found");
    reveal_strlit("version_conflict");
    reveal_strlit("collision");
    reveal_strlit("permission");
    reveal_strlit("not_authenticated");
    reveal_strlit("unreachable");
    reveal_strlit("internal");
    assert("not_found"@[0] == 'n' && "not_found"@.len() == 9);
    assert("version_conflict"@[0] == 'v');
    assert("collision"@[0] == 'c');
    assert("permission"@[0] == 'p');
    assert("not_authenticated"@.len() == 17);
    assert("unreachable"@[0] == 'u');
    assert("internal"@[0] == 'i');
}

/// Every name has its own reasons: a file is gone, a version stale, a name taken or an operation
/// forbidden exactly where the server says so with the code for it; every failure of the login asks
/// for another one; a server that cannot be reached is told as that; and all else is internal.
pub proof fn lemma_every_fault_has_its_name(fault: ApiFault)
    ensures
        api_kind(fault) == "not_found"@ <==> fault == ApiFault::Code(404),
        api_kind(fault) == "version_conflict"@ <==> fault == ApiFault::Code(40076),
        api_kind(fault) == "collision"@ <==> fault == ApiFault::Code(40004),
        api_kind(fault) == "permission"@ <==> fault == ApiFault::Code(403),
        api_kind(fault) == "unreachable"@ <==> fault == ApiFault::Unreachable,
        api_kind(fault) == "not_authenticated"@ <==> fault is LoginRequired
            || fault is RefreshTokenExpired || fault is AccessTokenExpired
            || fault is NoTokensAvailable || fault is InvalidToken,
        api_kind(fault) == "internal"@ <==> fault is Other || (fault matches ApiFault::Code(code)
            && code != 404 && code != 40076 && code != 40004 && code != 403),
        fault_kind(Fault::Api(fault)) == api_kind(fault),
        forall|text: &'static str| #[trigger]
            fault_kind(Fault::Failure(Failure(text))) == text@,
        forall|text: &'static str| #[trigger] fault_kind(Fault::Other(text)) == "internal"@,
{
    reveal_strlit("not_found");
    reveal_strlit("version_conflict");
    reveal_strlit("collision");
    reveal_strlit("permission");
    reveal_strlit("not_authenticated");
    reveal_strlit("unreachable");
    reveal_strlit("internal");
    assert("not_found"@[0] == 'n' && "not_found"@.len() == 9);
    assert("version_conflict"@[0] == 'v');
    assert("collision"@[0] == 'c');
    assert("permission"@[0] == 'p');
    assert("not_authenticated"@[0] == 'n' && "not_authenticated"@.len() == 17);
    assert("unreachable"@[0] == 'u');
    assert("internal"@[0] == 'i');
}

} // verus!
