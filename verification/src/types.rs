//! The wire-level vocabulary: response statuses and the closed set of
//! command verbs, with the case-insensitive verb lookup.
use vstd::prelude::*;

use crate::strutil::lower_seq;
use crate::strutil::str_eq_ci;

verus! {

/// The status word of a tagged or untagged response line.
#[derive(Clone, Copy, Debug, PartialEq, Eq, Structural)]
pub enum Response {
    Continuation,
    Okay,
    No,
    Bad,
    Untagged,
}

/// The status word each response kind carries on the wire.
pub open spec fn response_text(r: Response) -> Seq<char> {
    match r {
        Response::Continuation => "+"@,
        Response::Okay => "OK"@,
        Response::No => "NO"@,
        Response::Bad => "BAD"@,
        Response::Untagged => ""@,
    }
}

impl Response {
    /// The status word as text.
    pub fn text(&self) -> (r: &'static str)
        ensures
            r@ == response_text(*self),
    {
        match self {
            Response::Continuation => "+",
            Response::Okay => "OK",
            Response::No => "NO",
            Response::Bad => "BAD",
            Response::Untagged => "",
        }
    }
}

/// The closed set of verbs the engine dispatches on.
#[derive(Clone, Copy, Debug, PartialEq, Eq, Structural)]
pub enum Command {
    Capability,
    Authenticate,
    Fetch,
    Unrecognised,
    Login,
    List,
    Lsub,
    Select,
    Status,
    Logout,
    Noop,
    Subscribe,
    Uid,
    Create,
}

/// Verb lookup, without regard to case; anything unknown is
/// `Unrecognised`.
pub open spec fn command_of(s: Seq<char>) -> Command {
    if lower_seq(s) == lower_seq("CAPABILITY"@) {
        Command::Capability
    } else if lower_seq(s) == lower_seq("AUTHENTICATE"@) {
        Command::Authenticate
    } else if lower_seq(s) == lower_seq("FETCH"@) {
        Command::Fetch
    } else if lower_seq(s) == lower_seq("LOGIN"@) {
        Command::Login
    } else if lower_seq(s) == lower_seq("LIST"@) {
        Command::List
    } else if lower_seq(s) == lower_seq("LSUB"@) {
        Command::Lsub
    } else if lower_seq(s) == lower_seq("SELECT"@) {
        Command::Select
    } else if lower_seq(s) == lower_seq("STATUS"@) {
        Command::Status
    } else if lower_seq(s) == lower_seq("SUBSCRIBE"@) {
        Command::Subscribe
    } else if lower_seq(s) == lower_seq("NOOP"@) {
        Command::Noop
    } else if lower_seq(s) == lower_seq("LOGOUT"@) {
        Command::Logout
    } else if lower_seq(s) == lower_seq("UID"@) {
        Command::Uid
    } else if lower_seq(s) == lower_seq("CREATE"@) {
        Command::Create
    } else {
        Command::Unrecognised
    }
}

impl Command {
    /// Look a verb up, without regard to case.
    pub fn parse(s: &str) -> (r: Command)
        ensures
            r == command_of(s@),
    {
        if str_eq_ci(s, "CAPABILITY") {
            Command::Capability
        } else if str_eq_ci(s, "AUTHENTICATE") {
            Command::Authenticate
        } else if str_eq_ci(s, "FETCH") {
            Command::Fetch
        } else if str_eq_ci(s, "LOGIN") {
            Command::Login
        } else if str_eq_ci(s, "LIST") {
            Command::List
        } else if str_eq_ci(s, "LSUB") {
            Command::Lsub
        } else if str_eq_ci(s, "SELECT") {
            Command::Select
        } else if str_eq_ci(s, "STATUS") {
            Command::Status
        } else if str_eq_ci(s, "SUBSCRIBE") {
            Command::Subscribe
        } else if str_eq_ci(s, "NOOP") {
            Command::Noop
        } else if str_eq_ci(s, "LOGOUT") {
            Command::Logout
        } else if str_eq_ci(s, "UID") {
            Command::Uid
        } else if str_eq_ci(s, "CREATE") {
            Command::Create
        } else {
            Command::Unrecognised
        }
    }
}

} // verus!
