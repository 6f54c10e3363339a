//! The one error type of the library, and its kinds.
//!
//! Every failure a caller can act on is a [`VitriError`] of one [`ErrorKind`]:
//! the kind says what needs fixing, the message says where.

use vstd::prelude::*;

verus! {

/// What a failure asks its caller to fix.
#[derive(Clone, Copy, Debug, PartialEq, Eq, Structural, Hash)]
pub enum ErrorKind {
    /// An unknown key, a value outside its vocabulary, or settings that do not
    /// work together.
    Config,
    /// The vtree spec needs fixing.
    Spec,
    /// A `VITRI_*` environment variable needs fixing.
    Env,
    /// The DIMACS text cannot be used.
    Input,
    /// Two parts of one run describe different formulas.
    Mismatch,
    /// A vtree construction could not answer a well formed request; another
    /// spec or a larger budget may.
    Construction,
    /// A file could not be read or written.
    Io,
}

/// The lowercase word naming a kind.
pub open spec fn kind_token(k: ErrorKind) -> Seq<char> {
    match k {
        ErrorKind::Config => "config"@,
        ErrorKind::Spec => "spec"@,
        ErrorKind::Env => "env"@,
        ErrorKind::Input => "input"@,
        ErrorKind::Mismatch => "mismatch"@,
        ErrorKind::Construction => "construction"@,
        ErrorKind::Io => "io"@,
    }
}

impl ErrorKind {
    /// The kind as one lowercase word: `config`, `spec`, `env`, `input`,
    /// `mismatch`, `construction` or `io`.
    pub fn token(self) -> (r: &'static str)
        ensures
            r@ == kind_token(self),
    {
        match self {
            ErrorKind::Config => "config",
            ErrorKind::Spec => "spec",
            ErrorKind::Env => "env",
            ErrorKind::Input => "input",
            ErrorKind::Mismatch => "mismatch",
            ErrorKind::Construction => "construction",
            ErrorKind::Io => "io",
        }
    }
}

/// A failure: its kind and the sentence that says what went wrong.
#[derive(Clone, Debug)]
pub struct VitriError {
    kind: ErrorKind,
    message: String,
}

/// `a` followed by `b`.
fn joined(a: &str, b: &str) -> (r: String)
    ensures
        r@ == a@ + b@,
{
    let mut s = String::from_str(a);
    s.append(b);
    s
}

impl VitriError {
    /// The kind of this failure.
    pub closed spec fn spec_kind(&self) -> ErrorKind {
        self.kind
    }

    /// The sentence of this failure.
    pub closed spec fn text(&self) -> Seq<char> {
        self.message@
    }

    /// Its kind.
    pub fn kind(&self) -> (r: ErrorKind)
        ensures
            r == self.spec_kind(),
    {
        self.kind
    }

    /// Its sentence, naming the key, setting or input line at fault where
    /// there is one.
    pub fn message(&self) -> (r: &str)
        ensures
            r@ == self.text(),
    {
        self.message.as_str()
    }

    /// A configuration that cannot be used, as `message` says.
    pub fn config(message: &str) -> (r: Self)
        ensures
            r.spec_kind() == ErrorKind::Config,
            r.text() == message@,
    {
        VitriError { kind: ErrorKind::Config, message: String::from_str(message) }
    }

    /// The vtree spec `spec` cannot be used, for `reason`.
    pub fn spec(spec: &str, reason: &str) -> (r: Self)
        ensures
            r.spec_kind() == ErrorKind::Spec,
            r.text() == "vtree spec "@ + spec@ + ": "@ + reason@,
    {
        let mut m = joined("vtree spec ", spec);
        m.append(": ");
        m.append(reason);
        VitriError { kind: ErrorKind::Spec, message: m }
    }

    /// The environment variable `var` cannot be used, for `reason`.
    pub fn env(var: &str, reason: &str) -> (r: Self)
        ensures
            r.spec_kind() == ErrorKind::Env,
            r.text() == var@ + ": "@ + reason@,
    {
        let mut m = joined(var, ": ");
        m.append(reason);
        VitriError { kind: ErrorKind::Env, message: m }
    }

    /// Input that cannot be used, as `message` says.
    pub fn input(message: &str) -> (r: Self)
        ensures
            r.spec_kind() == ErrorKind::Input,
            r.text() == message@,
    {
        VitriError { kind: ErrorKind::Input, message: String::from_str(message) }
    }

    /// Two parts of one run that describe different formulas, as `message`
    /// says.
    pub fn mismatch(message: &str) -> (r: Self)
        ensures
            r.spec_kind() == ErrorKind::Mismatch,
            r.text() == message@,
    {
        VitriError { kind: ErrorKind::Mismatch, message: String::from_str(message) }
    }

    /// The construction `spec` could not answer, for `reason`.
    pub fn construction(spec: &str, reason: &str) -> (r: Self)
        ensures
            r.spec_kind() == ErrorKind::Construction,
            r.text() == "vtree "@ + spec@ + ": "@ + reason@,
    {
        let mut m = joined("vtree ", spec);
        m.append(": ");
        m.append(reason);
        VitriError { kind: ErrorKind::Construction, message: m }
    }

    /// The file `path` could not be acted on (`action`: `read`, `write`,
    /// `open`, ...), for the reason the system gave in `error`.
    pub fn io(path: &str, action: &str, error: &std::io::Error) -> (r: Self)
        ensures
            r.spec_kind() == ErrorKind::Io,
            exists|why: Seq<char>| r.text() == "cannot "@ + action@ + " "@ + path@ + ": "@ + why,
    {
        let why = io_error_text(error);
        let mut m = joined("cannot ", action);
        m.append(" ");
        m.append(path);
        m.append(": ");
        m.append(why.as_str());
        VitriError { kind: ErrorKind::Io, message: m }
    }
}

/// Declares `std::io::Error`, which [`VitriError::io`] reads the reason from.
#[verifier::external_type_specification]
#[verifier::external_body]
pub struct ExIoError(std::io::Error);

/// The sentence `std::io::Error`'s `Display` writes for `error`. What it says
/// depends on the system that raised the error, so nothing is stated of it.
#[verifier::external_body]
fn io_error_text(error: &std::io::Error) -> (r: String) {
    format!("{error}")
}

} // verus!
