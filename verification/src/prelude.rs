//! Small helpers shared by the rest of the crate.

use crate::text::{decimal, followed_by, to_decimal};
use std::time::Instant;
use vstd::prelude::*;
use vstd::string::*;

verus! {

/// Why a command of the launcher ends without its result.
#[derive(Debug, Clone, Copy, PartialEq, Eq, Structural)]
pub enum Error {
    /// There is nothing to select from.
    EmptyList,
    /// The hint matches none of the options.
    NoMatch,
    /// The remote shell could not be started, or its pipes could not be had.
    SpawnFailed,
    /// Writing to the remote shell or reading from it failed.
    IoError,
    /// The cache or the history does not hold what its schema asks for.
    DeserializeError,
    /// A wrapped tool ended with a failure.
    ExternalToolFailure,
}

impl Error {
    /// The message with which a command that ends in this error is reported.
    pub open spec fn message(self) -> Seq<char> {
        match self {
            Error::EmptyList => "Host list is empty"@,
            Error::NoMatch => "No host found"@,
            Error::SpawnFailed => "can't start the remote shell"@,
            Error::IoError => "can't talk to the remote shell"@,
            Error::DeserializeError => "can't read the stored hosts"@,
            Error::ExternalToolFailure => "an outside program failed"@,
        }
    }

    /// The message with which a command that ends in this error is reported.
    pub fn to_string(&self) -> (text: String)
        ensures
            text@ == self.message(),
    {
        match self {
            Error::EmptyList => "Host list is empty".to_owned(),
            Error::NoMatch => "No host found".to_owned(),
            Error::SpawnFailed => "can't start the remote shell".to_owned(),
            Error::IoError => "can't talk to the remote shell".to_owned(),
            Error::DeserializeError => "can't read the stored hosts".to_owned(),
            Error::ExternalToolFailure => "an outside program failed".to_owned(),
        }
    }
}

/// `std::time::Instant`, a moment of the clock that only runs forward.
#[verifier::external_type_specification]
#[verifier::external_body]
pub struct ExInstant(Instant);

/// `std::time::Instant::now`: the moment of the call. Nothing is claimed of it.
#[verifier::external_body]
fn now() -> (moment: Instant) {
    Instant::now()
}

/// `std::time::Instant::elapsed`, in whole milliseconds: the time since `start`. Nothing
/// is claimed of it.
#[verifier::external_body]
fn millis_since(start: &Instant) -> (millis: u128) {
    start.elapsed().as_millis()
}

/// A stopwatch that was started under a name.
#[derive(Debug)]
pub struct StopwatchGuard {
    pub name: String,
    pub start: Instant,
}

/// What a stopwatch named `name` says after `millis` milliseconds.
pub open spec fn took(name: Seq<char>, millis: nat) -> Seq<char> {
    name + " took "@ + decimal(millis) + "ms"@
}

/// Starts a stopwatch named `name`.
pub fn stopwatch_guard(name: &str) -> (guard: StopwatchGuard)
    ensures
        guard.name@ == name@,
{
    let start = now();
    StopwatchGuard { name: name.to_owned(), start }
}

impl StopwatchGuard {
    /// What the stopwatch says when `millis` milliseconds have passed: see `took`.
    pub fn message(&self, millis: u128) -> (text: String)
        ensures
            text@ == took(self.name@, millis as nat),
    {
        let mut text = followed_by(self.name.as_str(), " took ");
        text.append(to_decimal(millis).as_str());
        text.append("ms");
        text
    }

    /// What the stopwatch says now, for the time that has passed since it was started.
    pub fn report(&self) -> (text: String)
        ensures
            exists|millis: nat| text@ == #[trigger] took(self.name@, millis),
    {
        let millis = millis_since(&self.start);
        let text = self.message(millis);
        assert(text@ == took(self.name@, millis as nat));
        text
    }
}

/// First component of a pair.
pub fn fst<F, S>(x: (F, S)) -> (first: F)
    ensures
        first == x.0,
{
    x.0
}

/// Second component of a pair.
pub fn snd<F, S>(x: (F, S)) -> (second: S)
    ensures
        second == x.1,
{
    x.1
}

/// Peeking at a `Result` on its way through, without changing it.
pub trait Inspect<T, E> {
    /// Shows the whole result to `f` and hands it on unchanged.
    fn tap<G: FnOnce(&Result<T, E>)>(self, f: G) -> (res: Result<T, E>)
        requires
            f.requires((&self.as_result(),)),
        ensures
            res == self.as_result(),
    ;

    /// Shows the error, if there is one, to `f` and hands the result on unchanged.
    fn tap_err<G: FnOnce(&E)>(self, f: G) -> (res: Result<T, E>)
        requires
            self.as_result() matches Err(e) ==> f.requires((&e,)),
        ensures
            res == self.as_result(),
    ;

    /// The result that is looked at.
    spec fn as_result(self) -> Result<T, E>;
}

impl<T, E> Inspect<T, E> for Result<T, E> {
    open spec fn as_result(self) -> Result<T, E> {
        self
    }

    fn tap<G: FnOnce(&Result<T, E>)>(self, f: G) -> (res: Result<T, E>) {
        f(&self);
        self
    }

    fn tap_err<G: FnOnce(&E)>(self, f: G) -> (res: Result<T, E>) {
        match self {
            Ok(_) => self,
            Err(ref err) => {
                f(err);
                self
            },
        }
    }
}

} // verus!
