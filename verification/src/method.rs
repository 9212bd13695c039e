//! The HTTP request methods a route can be registered under.

use vstd::prelude::*;

verus! {

/// An HTTP request method.
///
/// The router only compares methods for equality; the set of standard verbs
/// is modelled as a closed enumeration.
#[derive(Clone, Copy, Debug, PartialEq, Eq, Hash, Structural)]
pub enum Method {
    Get,
    Head,
    Post,
    Put,
    Delete,
    Connect,
    Options,
    Trace,
    Patch,
}

} // verus!
