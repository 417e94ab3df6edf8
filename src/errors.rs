//! The errors that end the server at startup: those of its command line and
//! the rest.
use vstd::prelude::*;
use vstd::string::StringExecFns;

verus! {

#[verifier::external_type_specification]
#[verifier::external_body]
pub struct ExIoError(std::io::Error);

/// Relies on `std::io::Error`'s `Display`: its text (which may come from the
/// operating system, so nothing is said of it).
#[verifier::external_body]
fn io_error_text(e: &std::io::Error) -> (r: String) {
    e.to_string()
}

/// Why the command line could not be used.
#[derive(Debug)]
pub enum ArgsError {
    /// The address to bind is not `IP:PORT`.
    BadBindAddress,
    /// The PKCS #12 bundle could not be decrypted with the password given.
    P12DecryptError,
    /// The PKCS #12 bundle (read without a password) could not be parsed.
    P12ParseError,
    /// The bundle could not be read.
    IoError(std::io::Error),
}

impl From<std::io::Error> for ArgsError {
    fn from(error: std::io::Error) -> (r: ArgsError)
        ensures
            r == ArgsError::IoError(error),
    {
        ArgsError::IoError(error)
    }
}

impl vstd::std_specs::convert::FromSpecImpl<std::io::Error> for ArgsError {
    open spec fn obeys_from_spec() -> bool {
        true
    }

    open spec fn from_spec(v: std::io::Error) -> ArgsError {
        ArgsError::IoError(v)
    }
}

/// The error for a bundle that could not be opened: a decryption failure
/// when a password was used, else a parse failure.
pub fn identity_error(decrypting: bool) -> (r: ArgsError)
    ensures
        decrypting ==> r is P12DecryptError,
        !decrypting ==> r is P12ParseError,
{
    if decrypting {
        ArgsError::P12DecryptError
    } else {
        ArgsError::P12ParseError
    }
}

/// The text of a command-line error that does not come from the operating
/// system.
pub open spec fn args_text(e: ArgsError) -> Seq<char> {
    match e {
        ArgsError::BadBindAddress => "Bad bind address"@,
        ArgsError::P12DecryptError => "Failed to decrypt PKCS #12 archive, incorrect password?"@,
        ArgsError::P12ParseError => "Failed to parse PKCS #12 archive"@,
        ArgsError::IoError(_) => Seq::empty(),
    }
}

impl ArgsError {
    /// The text shown to the operator (for an I/O error, the error's own
    /// text).
    pub fn message(&self) -> (r: String)
        ensures
            !(self is IoError) ==> r@ == args_text(*self),
    {
        match self {
            ArgsError::BadBindAddress => String::from_str("Bad bind address"),
            ArgsError::P12DecryptError => String::from_str(
                "Failed to decrypt PKCS #12 archive, incorrect password?",
            ),
            ArgsError::P12ParseError => String::from_str("Failed to parse PKCS #12 archive"),
            ArgsError::IoError(err) => io_error_text(err),
        }
    }
}

/// Why the server stopped.
#[derive(Debug)]
pub enum AppError {
    ArgsError(ArgsError),
    IoError(std::io::Error),
    Other(String),
}

impl From<std::io::Error> for AppError {
    fn from(error: std::io::Error) -> (r: AppError)
        ensures
            r == AppError::IoError(error),
    {
        AppError::IoError(error)
    }
}

impl vstd::std_specs::convert::FromSpecImpl<std::io::Error> for AppError {
    open spec fn obeys_from_spec() -> bool {
        true
    }

    open spec fn from_spec(v: std::io::Error) -> AppError {
        AppError::IoError(v)
    }
}

/// A command-line error as a server error: an I/O error stays an I/O error.
pub open spec fn app_error_of(e: ArgsError) -> AppError {
    match e {
        ArgsError::IoError(err) => AppError::IoError(err),
        _ => AppError::ArgsError(e),
    }
}

impl From<ArgsError> for AppError {
    fn from(error: ArgsError) -> (r: AppError)
        ensures
            r == app_error_of(error),
    {
        match error {
            ArgsError::IoError(err) => AppError::IoError(err),
            _ => AppError::ArgsError(error),
        }
    }
}

impl vstd::std_specs::convert::FromSpecImpl<ArgsError> for AppError {
    open spec fn obeys_from_spec() -> bool {
        true
    }

    open spec fn from_spec(v: ArgsError) -> AppError {
        app_error_of(v)
    }
}

impl AppError {
    /// The text shown to the operator: `IO error: ` or `error: ` before the
    /// cause's text, or the text itself.
    pub fn message(&self) -> (r: String)
        ensures
            self matches AppError::Other(s) ==> r@ == s@,
            self matches AppError::ArgsError(e) ==> r@.len() >= 7 && r@.take(7) == "error: "@,
            self matches AppError::ArgsError(e) ==> (!(e is IoError) ==> r@ == "error: "@
                + args_text(*e)),
            self is IoError ==> r@.len() >= 10 && r@.take(10) == "IO error: "@,
    {
        match self {
            AppError::IoError(err) => {
                let text = io_error_text(err);
                let r = String::from_str("IO error: ").concat(text.as_str());
                proof {
                    reveal_strlit("IO error: ");
                    assert(r@.take(10) =~= "IO error: "@);
                }
                r
            },
            AppError::ArgsError(err) => {
                let text = err.message();
                let r = String::from_str("error: ").concat(text.as_str());
                proof {
                    reveal_strlit("error: ");
                    assert(r@.take(7) =~= "error: "@);
                }
                r
            },
            AppError::Other(s) => s.clone(),
        }
    }
}

} // verus!
