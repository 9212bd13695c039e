//! A named binding of a path template to a handler item.

use crate::method::Method;
use crate::path::{path_fault, spec_classified, Path, PathError, PathView};
use vstd::prelude::*;

verus! {

/// A single route: a unique name, a parsed path template and the handler
/// item held for it.
#[derive(Debug)]
pub struct Route<T> {
    name: String,
    path: Path,
    item: T,
}

impl<T> Route<T> {
    /// The name of the route.
    pub closed spec fn spec_name(&self) -> Seq<char> {
        self.name@
    }

    /// The parsed path of the route.
    pub closed spec fn spec_path(&self) -> PathView {
        self.path@
    }

    /// The handler item of the route.
    pub closed spec fn spec_item(&self) -> T {
        self.item
    }

    /// Parses `path` and binds it, under `name`, to `item`.
    pub fn create(name: &str, method: Method, path: &str, item: T) -> (r: Result<Self, PathError>)
        ensures
            match path_fault(spec_classified(path@)) {
                Some(e) => r matches Err(e2) && e2 == e,
                None => r matches Ok(rt) && rt.spec_name() == name@ && rt.spec_path().method
                    == method && rt.spec_path().items == spec_classified(path@) && rt.spec_item()
                    == item,
            },
    {
        match Path::parse(method, path) {
            Ok(p) => Ok(Route { name: name.to_owned(), path: p, item }),
            Err(e) => Err(e),
        }
    }

    /// The name of the route.
    pub fn get_name(&self) -> (r: &str)
        ensures
            r@ == self.spec_name(),
    {
        self.name.as_str()
    }

    /// The path of the route.
    pub fn get_path(&self) -> (r: &Path)
        ensures
            r@ == self.spec_path(),
    {
        &self.path
    }

    /// The handler item of the route.
    pub fn get_item(&self) -> (r: &T)
        ensures
            *r == self.spec_item(),
    {
        &self.item
    }
}

} // verus!
