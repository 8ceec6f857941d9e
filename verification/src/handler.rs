//! Request-handling decisions.
//!
//! One request yields exactly one response, chosen by these rules, first
//! match wins:
//!
//! 1. a method other than `GET` yields `405 Method Not Allowed`;
//! 2. a resolved path that is a directory is retried with `index.html`
//!    appended (the friendly directory policy): if that index opens as a
//!    regular file it is served, and otherwise — the target is still a
//!    directory, or the index is missing or unopenable — the response is
//!    `403 Forbidden`;
//! 3. a target that opens as a regular file is served with `200 OK` and the
//!    file's bytes as the body;
//! 4. any failure to open a file that was requested directly — missing,
//!    permission denied, or any other I/O error — yields `404 Not Found`.
//!    Permission problems are folded into `404` on purpose, so that a
//!    response never leaks whether a forbidden file exists.
//!
//! No other status code is ever produced. Only a `200` response carries a
//! body; every other response has an empty one.
//!
//! The functions here are pure: the unverified front end probes the
//! filesystem and hands the outcomes in as plain values.

use vstd::prelude::*;
use crate::resolve::SLASH;

verus! {

/// The bytes of the only supported method, `GET`.
pub open spec fn get_method() -> Seq<u8> {
    seq![71u8, 69u8, 84u8]
}

/// The bytes appended to a directory path: `/index.html`.
pub open spec fn index_suffix() -> Seq<u8> {
    seq![SLASH, 105u8, 110u8, 100u8, 101u8, 120u8, 46u8, 104u8, 116u8, 109u8, 108u8]
}

/// How one attempt to open the target file ended.
#[derive(Clone, Copy, Debug, PartialEq, Eq, Structural)]
pub enum OpenOutcome {
    /// The file is open for reading.
    Opened,
    /// No such file.
    Missing,
    /// The file exists but may not be read.
    Denied,
    /// Any other I/O error.
    Failed,
}

/// The response chosen for one request.
#[derive(Clone, Copy, Debug, PartialEq, Eq, Structural)]
pub enum Outcome {
    /// `200`: stream the opened file as the body.
    Served,
    /// `403`: the request named a directory and no index could be served.
    Forbidden,
    /// `404`: the requested file could not be opened.
    NotFound,
    /// `405`: the method is not `GET`.
    MethodNotAllowed,
}

impl Outcome {
    /// The HTTP status code of this outcome.
    pub open spec fn spec_status(self) -> u16 {
        match self {
            Outcome::Served => 200,
            Outcome::Forbidden => 403,
            Outcome::NotFound => 404,
            Outcome::MethodNotAllowed => 405,
        }
    }

    /// The HTTP status code of this outcome: `200`, `403`, `404` or `405`.
    pub fn status_code(&self) -> (code: u16)
        ensures
            code == self.spec_status(),
    {
        match self {
            Outcome::Served => 200,
            Outcome::Forbidden => 403,
            Outcome::NotFound => 404,
            Outcome::MethodNotAllowed => 405,
        }
    }

    /// Whether the response carries a body: only a `200` does, every other
    /// response body is empty.
    pub fn serves_body(&self) -> (b: bool)
        ensures
            b == (*self is Served),
    {
        match self {
            Outcome::Served => true,
            _ => false,
        }
    }
}

/// Whether the request method is exactly `GET`.
pub fn is_get(method: &[u8]) -> (r: bool)
    ensures
        r == (method@ == get_method()),
{
    let r = method.len() == 3 && method[0] == 71 && method[1] == 69 && method[2] == 84;
    proof {
        if r {
            assert(method@ =~= get_method());
        }
    }
    r
}

/// The target the handler will try to open: the resolved path itself, or
/// with `/index.html` appended when the resolved path is a directory.
pub open spec fn spec_target(resolved: Seq<u8>, resolved_is_dir: bool) -> Seq<u8> {
    if resolved_is_dir {
        resolved + index_suffix()
    } else {
        resolved
    }
}

/// Compute the target path from the resolved path and the directory probe.
pub fn target_path(resolved: &Vec<u8>, resolved_is_dir: bool) -> (target: Vec<u8>)
    ensures
        target@ == spec_target(resolved@, resolved_is_dir),
{
    let mut target: Vec<u8> = Vec::new();
    let mut i: usize = 0;
    while i < resolved.len()
        invariant
            i <= resolved.len(),
            target@ == resolved@.take(i as int),
        decreases resolved.len() - i,
    {
        target.push(resolved[i]);
        i = i + 1;
    }
    proof {
        assert(target@ =~= resolved@);
    }
    if resolved_is_dir {
        target.push(SLASH);
        target.push(105);
        target.push(110);
        target.push(100);
        target.push(101);
        target.push(120);
        target.push(46);
        target.push(104);
        target.push(116);
        target.push(109);
        target.push(108);
        proof {
            assert(target@ =~= resolved@ + index_suffix());
        }
    }
    target
}

/// The response for one request, from the method check, the directory
/// probes of the resolved path and of the target, and the outcome of
/// opening the target.
pub open spec fn spec_decide(
    method_is_get: bool,
    resolved_is_dir: bool,
    target_is_dir: bool,
    open: OpenOutcome,
) -> Outcome {
    if !method_is_get {
        Outcome::MethodNotAllowed
    } else if target_is_dir {
        Outcome::Forbidden
    } else if open is Opened {
        Outcome::Served
    } else if resolved_is_dir {
        Outcome::Forbidden
    } else {
        Outcome::NotFound
    }
}

/// Decide the response for one request.
///
/// The method check comes first, whatever the filesystem said. A `GET` of
/// a directory is answered with the directory's `index.html` when that
/// opens, and is `403` otherwise — whether the index is missing, cannot be
/// opened, or is itself a directory. A `GET` of anything else is served
/// when the open succeeded, and every way the open can fail — missing,
/// denied, or any other error — is `404`, so the existence of an
/// unreadable file is never leaked through a `403`.
pub fn decide(
    method_is_get: bool,
    resolved_is_dir: bool,
    target_is_dir: bool,
    open: OpenOutcome,
) -> (outcome: Outcome)
    ensures
        outcome == spec_decide(method_is_get, resolved_is_dir, target_is_dir, open),
        !method_is_get ==> outcome is MethodNotAllowed,
        method_is_get && target_is_dir ==> outcome is Forbidden,
        method_is_get && !target_is_dir && open is Opened ==> outcome is Served,
        method_is_get && resolved_is_dir && !target_is_dir && !(open is Opened)
            ==> outcome is Forbidden,
        method_is_get && !resolved_is_dir && !target_is_dir && !(open is Opened)
            ==> outcome is NotFound,
{
    if !method_is_get {
        Outcome::MethodNotAllowed
    } else if target_is_dir {
        Outcome::Forbidden
    } else {
        match open {
            OpenOutcome::Opened => Outcome::Served,
            _ => {
                if resolved_is_dir {
                    Outcome::Forbidden
                } else {
                    Outcome::NotFound
                }
            },
        }
    }
}

} // verus!
