//! The failure taxonomy of the transform cache and the status records that
//! carry it across a call boundary.

use vstd::prelude::*;

verus! {

/// The code of a status record: success, or one of the five failure kinds.
#[derive(Clone, Copy, Debug, PartialEq, Eq, Structural)]
pub enum Tf2Errc {
    Success,
    Lookup,
    Connectivity,
    Extrapolation,
    InvalidArgument,
    Other,
}

impl Tf2Errc {
    /// The number that stands for this code in a status record.
    pub open spec fn spec_code(self) -> i32 {
        match self {
            Tf2Errc::Success => 0,
            Tf2Errc::Lookup => 1,
            Tf2Errc::Connectivity => 2,
            Tf2Errc::Extrapolation => 3,
            Tf2Errc::InvalidArgument => 4,
            Tf2Errc::Other => 100,
        }
    }

    #[verifier::when_used_as_spec(spec_code)]
    pub fn code(self) -> (n: i32)
        ensures
            n == self.spec_code(),
    {
        match self {
            Tf2Errc::Success => 0,
            Tf2Errc::Lookup => 1,
            Tf2Errc::Connectivity => 2,
            Tf2Errc::Extrapolation => 3,
            Tf2Errc::InvalidArgument => 4,
            Tf2Errc::Other => 100,
        }
    }

    /// The code that a number stands for; a number that stands for none is
    /// taken as `Other`.
    pub fn from_code(n: i32) -> (c: Tf2Errc)
        ensures
            0 <= n <= 4 ==> c.spec_code() == n,
            !(0 <= n <= 4) ==> c == Tf2Errc::Other,
    {
        if n == 0 {
            Tf2Errc::Success
        } else if n == 1 {
            Tf2Errc::Lookup
        } else if n == 2 {
            Tf2Errc::Connectivity
        } else if n == 3 {
            Tf2Errc::Extrapolation
        } else if n == 4 {
            Tf2Errc::InvalidArgument
        } else {
            Tf2Errc::Other
        }
    }
}

/// A status record: a code and a free-text message.
#[derive(Clone, Debug)]
pub struct Tf2Status {
    pub code: Tf2Errc,
    pub message: String,
}

/// A failure of the transform cache. The five kinds are mutually exclusive;
/// each carries a diagnostic message.
#[derive(Clone, Debug, PartialEq, Eq)]
pub enum Tf2Error {
    /// A referenced frame name was never observed.
    Lookup(String),
    /// Both frames are known but share no ancestor.
    Connectivity(String),
    /// The requested time lies outside what an edge on the path can answer.
    Extrapolation(String),
    /// Malformed input.
    InvalidArgument(String),
    /// Any failure not classified above.
    Other(String),
}

/// What a failure is, as a mathematical value: its kind and its message.
pub struct Failure {
    pub kind: Tf2Errc,
    pub message: Seq<char>,
}

impl View for Tf2Error {
    type V = Failure;

    open spec fn view(&self) -> Failure {
        match *self {
            Tf2Error::Lookup(m) => Failure { kind: Tf2Errc::Lookup, message: m@ },
            Tf2Error::Connectivity(m) => Failure { kind: Tf2Errc::Connectivity, message: m@ },
            Tf2Error::Extrapolation(m) => Failure { kind: Tf2Errc::Extrapolation, message: m@ },
            Tf2Error::InvalidArgument(m) => Failure { kind: Tf2Errc::InvalidArgument, message: m@ },
            Tf2Error::Other(m) => Failure { kind: Tf2Errc::Other, message: m@ },
        }
    }
}

impl Tf2Error {
    /// Builds the failure of the given kind. A success code has no failure of
    /// its own and is reported as `Other`.
    pub fn of_kind(kind: Tf2Errc, message: String) -> (e: Tf2Error)
        ensures
            e@.message == message@,
            e@.kind == (if kind == Tf2Errc::Success { Tf2Errc::Other } else { kind }),
    {
        match kind {
            Tf2Errc::Lookup => Tf2Error::Lookup(message),
            Tf2Errc::Connectivity => Tf2Error::Connectivity(message),
            Tf2Errc::Extrapolation => Tf2Error::Extrapolation(message),
            Tf2Errc::InvalidArgument => Tf2Error::InvalidArgument(message),
            Tf2Errc::Other => Tf2Error::Other(message),
            Tf2Errc::Success => Tf2Error::Other(message),
        }
    }

    /// The kind of this failure; never `Tf2Errc::Success`.
    pub fn kind(&self) -> (k: Tf2Errc)
        ensures
            k == self@.kind,
            k != Tf2Errc::Success,
    {
        match self {
            Tf2Error::Lookup(_) => Tf2Errc::Lookup,
            Tf2Error::Connectivity(_) => Tf2Errc::Connectivity,
            Tf2Error::Extrapolation(_) => Tf2Errc::Extrapolation,
            Tf2Error::InvalidArgument(_) => Tf2Errc::InvalidArgument,
            Tf2Error::Other(_) => Tf2Errc::Other,
        }
    }

    /// The diagnostic message of this failure.
    pub fn message(&self) -> (m: &String)
        ensures
            m@ == self@.message,
    {
        match self {
            Tf2Error::Lookup(m) => m,
            Tf2Error::Connectivity(m) => m,
            Tf2Error::Extrapolation(m) => m,
            Tf2Error::InvalidArgument(m) => m,
            Tf2Error::Other(m) => m,
        }
    }
}

/// Turns a status record into a result: the success code gives `Ok`, every
/// other code gives the failure of that kind with the record's message.
pub fn check_status(st: Tf2Status) -> (r: Result<(), Tf2Error>)
    ensures
        r is Ok <==> st.code == Tf2Errc::Success,
        r is Err ==> r->Err_0@ == (Failure { kind: st.code, message: st.message@ }),
{
    match st.code {
        Tf2Errc::Success => Ok(()),
        Tf2Errc::Lookup => Err(Tf2Error::Lookup(st.message)),
        Tf2Errc::Connectivity => Err(Tf2Error::Connectivity(st.message)),
        Tf2Errc::Extrapolation => Err(Tf2Error::Extrapolation(st.message)),
        Tf2Errc::InvalidArgument => Err(Tf2Error::InvalidArgument(st.message)),
        Tf2Errc::Other => Err(Tf2Error::Other(st.message)),
    }
}

/// What becomes of the value `out` that came with the status `st`: it is
/// kept where the status reports success, and gives way to the failure that
/// the status describes otherwise.
pub open spec fn settled<T>(out: T, st: Tf2Status, r: Result<T, Tf2Error>) -> bool {
    if st.code == Tf2Errc::Success {
        r == Ok::<T, Tf2Error>(out)
    } else {
        r is Err && r->Err_0@ == (Failure { kind: st.code, message: st.message@ })
    }
}

/// What becomes of the answer `out` that came with the status `st`, and of
/// the message as a diagnosis: a failure where the status describes one;
/// else the answer, with the message of the status beside a negative answer
/// unless it is empty.
pub open spec fn diagnosed(out: bool, st: Tf2Status, r: Result<(bool, Option<String>), Tf2Error>) -> bool {
    if st.code == Tf2Errc::Success {
        &&& r is Ok
        &&& r->Ok_0.0 == out
        &&& r->Ok_0.1 is Some <==> !out && st.message@.len() > 0
        &&& r->Ok_0.1 is Some ==> r->Ok_0.1->Some_0@ == st.message@
    } else {
        r is Err && r->Err_0@ == (Failure { kind: st.code, message: st.message@ })
    }
}

/// Keeps a value only where the status that came with it reports success.
pub fn settle<T>(out: T, st: Tf2Status) -> (r: Result<T, Tf2Error>)
    ensures
        settled(out, st, r),
{
    match check_status(st) {
        Ok(()) => Ok(out),
        Err(e) => Err(e),
    }
}

/// Keeps an answer only where the status that came with it reports success,
/// and hands the message of the status on as the diagnosis of a negative
/// answer.
pub fn settle_with_diag(out: bool, st: Tf2Status) -> (r: Result<(bool, Option<String>), Tf2Error>)
    ensures
        diagnosed(out, st, r),
{
    let diag = if matches!(st.code, Tf2Errc::Success) && !st.message.as_str().is_empty() {
        Some(st.message.clone())
    } else {
        None
    };
    match check_status(st) {
        Ok(()) => Ok(
            (
                out,
                if out {
                    None
                } else {
                    diag
                },
            ),
        ),
        Err(e) => Err(e),
    }
}

/// Runs an operation that yields a value together with a status record, and
/// keeps the value only where the status reports success.
pub fn call_out<T>(f: impl FnOnce() -> (T, Tf2Status)) -> (r: Result<T, Tf2Error>)
    requires
        f.requires(()),
    ensures
        exists|out: T, st: Tf2Status| #[trigger] f.ensures((), (out, st)) && settled(out, st, r),
{
    let pair = f();
    let ghost seen = pair;
    let r = settle(pair.0, pair.1);
    assert(f.ensures((), (seen.0, seen.1)) && settled(seen.0, seen.1, r));
    r
}

/// Runs an operation that yields an answer together with a status record, and
/// keeps the answer only where the status reports success.
pub fn call_bool(f: impl FnOnce() -> (bool, Tf2Status)) -> (r: Result<bool, Tf2Error>)
    requires
        f.requires(()),
    ensures
        exists|out: bool, st: Tf2Status| #[trigger] f.ensures((), (out, st)) && settled(out, st, r),
{
    call_out(f)
}

/// Runs an operation that yields an answer together with a status record, and
/// keeps the answer where the status reports success, with the message of
/// the status as the diagnosis of a negative answer.
pub fn call_bool_with_diag(f: impl FnOnce() -> (bool, Tf2Status)) -> (r: Result<
    (bool, Option<String>),
    Tf2Error,
>)
    requires
        f.requires(()),
    ensures
        exists|out: bool, st: Tf2Status| #[trigger] f.ensures((), (out, st)) && diagnosed(out, st, r),
{
    let pair = f();
    let ghost seen = pair;
    let r = settle_with_diag(pair.0, pair.1);
    assert(f.ensures((), (seen.0, seen.1)) && diagnosed(seen.0, seen.1, r));
    r
}

/// The text opens with `prefix`.
pub open spec fn begins_with(text: Seq<char>, prefix: Seq<char>) -> bool {
    text.len() >= prefix.len() && text.subrange(0, prefix.len() as int) == prefix
}

/// The kind of failure that the text of a foreign exception stands for. Such
/// a text opens with the type of the exception in square brackets. A text
/// that opens with none of the four types that the cache knows, written so,
/// stands for `Other`: the empty text, a text without brackets, a text that
/// opens with a closing bracket.
pub open spec fn exception_kind(text: Seq<char>) -> Tf2Errc {
    if begins_with(text, "[tf2::LookupException]"@) {
        Tf2Errc::Lookup
    } else if begins_with(text, "[tf2::ConnectivityException]"@) {
        Tf2Errc::Connectivity
    } else if begins_with(text, "[tf2::ExtrapolationException]"@) {
        Tf2Errc::Extrapolation
    } else if begins_with(text, "[tf2::InvalidArgumentException]"@) {
        Tf2Errc::InvalidArgument
    } else {
        Tf2Errc::Other
    }
}

/// Decides [`begins_with`].
pub fn opens_with(text: &str, prefix: &str) -> (r: bool)
    ensures
        r == begins_with(text@, prefix@),
{
    let k = prefix.unicode_len();
    if text.unicode_len() < k {
        return false;
    }
    let head = text.substring_char(0, k).to_owned();
    head == prefix.to_owned()
}

/// Turns the text of a foreign exception into the failure it stands for; the
/// whole text becomes the message. Every text is taken.
pub fn map_cxx_err(what: &str) -> (e: Tf2Error)
    ensures
        e@ == (Failure { kind: exception_kind(what@), message: what@ }),
{
    if opens_with(what, "[tf2::LookupException]") {
        Tf2Error::Lookup(what.to_owned())
    } else if opens_with(what, "[tf2::ConnectivityException]") {
        Tf2Error::Connectivity(what.to_owned())
    } else if opens_with(what, "[tf2::ExtrapolationException]") {
        Tf2Error::Extrapolation(what.to_owned())
    } else if opens_with(what, "[tf2::InvalidArgumentException]") {
        Tf2Error::InvalidArgument(what.to_owned())
    } else {
        Tf2Error::Other(what.to_owned())
    }
}

} // verus!
