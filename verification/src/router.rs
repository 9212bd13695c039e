//! The router: named routes over a routing tree, with reverse routing.

use crate::method::Method;
use crate::path::{raw_names, render_pieces, PathError};
use crate::pieces::{spec_join, spec_pieces};
use crate::route::Route;
use crate::route_match::{RouteMatch, RouteParameter};
use crate::tree::{add_conflict, assoc_item, inserted, node_equiv, node_wf, spec_walk, Node, Tree, TreeError};
use crate::urls::{join_base, url_join, url_join_ok};
use vstd::hash_map::StringHashMap;
use vstd::prelude::*;

verus! {

/// Resolves a route.
pub trait RouteResolver {
    /// The resolved route item.
    type Item;

    /// Resolves a method and a concrete path to a route match.
    fn resolve<'a>(&'a self, method: &Method, path: &str) -> Result<
        RouteMatch<'a, Self::Item>,
        RouterError,
    >;
}

/// Links to a route.
pub trait Linker {
    /// Renders an address for a named route and parameters.
    fn link(&self, route_name: &str, route_params: RouteParameter) -> Result<String, RouterError>;
}

/// The main router structure: a name-to-route map, a routing tree holding
/// route names, and the base address links are rendered against.
#[verifier::reject_recursive_types(T)]
pub struct Router<T> {
    routes: StringHashMap<Route<T>>,
    tree: Tree<String>,
    base: String,
}

impl<T> Router<T> {
    /// The name-to-route map.
    pub closed spec fn spec_routes(&self) -> Map<Seq<char>, Route<T>> {
        self.routes@
    }

    /// The root of the routing tree; the tree's items are route names.
    pub closed spec fn spec_tree_root(&self) -> Node<String> {
        self.tree.root
    }

    /// The base address used for link rendering.
    pub closed spec fn spec_base(&self) -> Seq<char> {
        self.base@
    }

    /// A router with no routes over the given base address.
    ///
    /// The base address is only used to render links.
    pub fn new(base: String) -> (r: Self)
        ensures
            r.spec_routes() == Map::<Seq<char>, Route<T>>::empty(),
            r.spec_tree_root().static_children@.len() == 0,
            r.spec_tree_root().dynamic_child is None,
            r.spec_tree_root().items@.len() == 0,
            node_wf(r.spec_tree_root()),
            r.spec_base() == base@,
    {
        Router { routes: StringHashMap::new(), tree: Tree::new(), base }
    }

    /// Adds a route: rejects a duplicate route name, then registers the
    /// route's path in the tree (rejecting tree conflicts), then records
    /// the route under its name.  On any error the router is unchanged.
    pub fn add(&mut self, r: Route<T>) -> (res: Result<(), RouterError>)
        ensures
            ({
                let name = r.spec_name();
                let items = r.spec_path().items;
                let method = r.spec_path().method;
                if old(self).spec_routes().contains_key(name) {
                    res matches Err(e) && (e matches RouterError::RouteAlreadyExists { route_name }
                        && route_name@ == name) && *final(self) == *old(self)
                } else if add_conflict(old(self).spec_tree_root(), items, 0, method) {
                    res matches Err(e) && (e matches RouterError::TreeError { tree_error } && (
                    tree_error matches TreeError::PathAlreadyRegistered { route } && route@
                        == spec_join(raw_names(items)))) && *final(self) == *old(self)
                } else {
                    res matches Ok(u) && final(self).spec_routes() == old(self).spec_routes().insert(
                        name,
                        r,
                    ) && final(self).spec_base() == old(self).spec_base() && (exists|v: String|
                        v@ == name && inserted(
                            old(self).spec_tree_root(),
                            items,
                            0,
                            method,
                            v,
                            final(self).spec_tree_root(),
                        )) && (node_wf(old(self).spec_tree_root()) ==> node_wf(
                        final(self).spec_tree_root(),
                    ))
                }
            }),
    {
        if self.routes.contains_key(r.get_name()) {
            return Err(RouterError::RouteAlreadyExists { route_name: r.get_name().to_owned() });
        }
        let name = r.get_name().to_owned();
        let ghost gname = name;
        match self.tree.add(r.get_path(), name) {
            Err(te) => Err(RouterError::TreeError { tree_error: te }),
            Ok(u) => {
                proof {
                    assert(inserted(
                        old(self).spec_tree_root(),
                        r.spec_path().items,
                        0,
                        r.spec_path().method,
                        gname,
                        self.spec_tree_root(),
                    ));
                }
                let key = r.get_name().to_owned();
                self.routes.insert(key, r);
                Ok(())
            },
        }
    }

    /// Resolves a method and a concrete path: the tree lookup yields the
    /// matched route's name and the captured parameters, and the name is
    /// mapped back to the stored route's handler item.
    pub fn resolve<'a>(&'a self, method: &Method, path: &str) -> (r: Result<
        RouteMatch<'a, T>,
        RouterError,
    >)
        ensures
            ({
                let w = spec_walk(
                    self.spec_tree_root(),
                    spec_pieces(path@),
                    0,
                    Map::<Seq<char>, Seq<char>>::empty(),
                );
                match r {
                    Ok(rm) => w matches Some(wp) && (assoc_item(wp.0.items@, *method) matches Some(
                        nm,
                    ) && self.spec_routes().contains_key(nm@) && *rm.item == self.spec_routes()[nm@].spec_item()
                        && rm.params@ == wp.1),
                    Err(e) => match e {
                        RouterError::TreeError { tree_error } => match tree_error {
                            TreeError::PathNotFound { path: p } => p@ == path@ && (w is None || (
                            w matches Some(wp) && (assoc_item(wp.0.items@, *method) matches Some(nm)
                                && !self.spec_routes().contains_key(nm@)))),
                            TreeError::MethodNotFound { method: m } => w matches Some(wp)
                                && assoc_item(wp.0.items@, *method) is None && m == *method,
                            TreeError::PathAlreadyRegistered { route } => false,
                        },
                        _ => false,
                    },
                }
            }),
    {
        match self.tree.lookup(method, path) {
            Ok(rm) => {
                let name: &String = rm.item;
                let params = rm.move_params();
                match self.routes.get(name.as_str()) {
                    Some(route) => Ok(RouteMatch::create(route.get_item(), params)),
                    None => Err(
                        RouterError::TreeError {
                            tree_error: TreeError::PathNotFound { path: path.to_owned() },
                        },
                    ),
                }
            },
            Err(te) => Err(RouterError::TreeError { tree_error: te }),
        }
    }

    /// Renders an address for the named route: the stored template is
    /// rendered with the given parameters and resolved against the base
    /// address.
    pub fn link(&self, route_name: &str, route_params: RouteParameter) -> (r: Result<
        String,
        RouterError,
    >)
        ensures
            ({
                let routes = self.spec_routes();
                if !routes.contains_key(route_name@) {
                    r matches Err(e) && (e matches RouterError::RouteNotFound { route_name: n }
                        && n@ == route_name@)
                } else {
                    match render_pieces(routes[route_name@].spec_path().items, route_params@) {
                        Err(name) => r matches Err(e) && (e matches RouterError::PathError {
                            path_error,
                        } && (path_error matches PathError::ParameterNotFound { parameter }
                            && parameter@ == name)),
                        Ok(ps) => if url_join_ok(self.spec_base(), spec_join(ps)) {
                            r matches Ok(u) && u@ == url_join(self.spec_base(), spec_join(ps))
                        } else {
                            r matches Err(e) && e matches RouterError::UrlParseError { parse_error }
                        },
                    }
                }
            }),
    {
        match self.routes.get(route_name) {
            None => Err(RouterError::RouteNotFound { route_name: route_name.to_owned() }),
            Some(route) => match route.get_path().render(route_params) {
                Err(pe) => Err(RouterError::PathError { path_error: pe }),
                Ok(rendered) => match join_base(self.base.as_str(), rendered.as_str()) {
                    Ok(u) => Ok(u),
                    Err(pe) => Err(RouterError::UrlParseError { parse_error: pe }),
                },
            },
        }
    }
}

impl<T> Router<T> {
    /// Reclaims excess capacity once the registration phase is over; the
    /// consuming form signals that no further routes are expected.  The
    /// routes, the tree's contents and the base address are unchanged.
    pub fn optimize(self) -> (r: Self)
        ensures
            r.spec_routes() == self.spec_routes(),
            r.spec_base() == self.spec_base(),
            node_equiv(self.spec_tree_root(), r.spec_tree_root()),
    {
        let Router { routes, mut tree, base } = self;
        tree.optimize();
        Router { routes, tree, base }
    }
}

impl<T> RouteResolver for Router<T> {
    type Item = T;

    fn resolve<'a>(&'a self, method: &Method, path: &str) -> Result<
        RouteMatch<'a, T>,
        RouterError,
    > {
        self.resolve(method, path)
    }
}

impl<T> Linker for Router<T> {
    fn link(&self, route_name: &str, route_params: RouteParameter) -> Result<String, RouterError> {
        self.link(route_name, route_params)
    }
}

/// Router errors.
#[derive(Debug, PartialEq)]
pub enum RouterError {
    /// A route with this name is already registered.
    RouteAlreadyExists {
        /// The name that is already taken.
        route_name: String,
    },
    /// No route with this name is registered.
    RouteNotFound {
        /// The name that was looked up.
        route_name: String,
    },
    /// A tree error, passed through.
    TreeError {
        /// The underlying tree error.
        tree_error: TreeError,
    },
    /// A path error, passed through.
    PathError {
        /// The underlying path error.
        path_error: PathError,
    },
    /// The base address and the rendered path do not join to a valid
    /// address.
    UrlParseError {
        /// The underlying parse error.
        parse_error: url::ParseError,
    },
}

} // verus!
