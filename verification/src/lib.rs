//! A small HTTP-style router.
//!
//! Path templates are split on `/` into static, parameter (`:name`) and
//! wildcard (`*name`) segments.  A prefix tree resolves a concrete path and
//! method to the registered handler, extracting the values captured by
//! parameter and wildcard segments, and a router ties named routes to the
//! tree and renders concrete URLs back from route names ("reverse routing").

mod method;
mod path;
mod pieces;
mod route;
mod route_match;
mod router;
mod tree;
mod urls;

pub use method::Method;
pub use path::classify_piece;
pub use path::lemma_empty_name_error;
pub use path::lemma_empty_name_fails;
pub use path::lemma_separators_only_template;
pub use path::lemma_static_only_render;
pub use path::lemma_wildcard_not_last_error;
pub use path::lemma_wildcard_not_last_fails;
pub use path::item_fault;
pub use path::path_fault;
pub use path::raw_names;
pub use path::render_pieces;
pub use path::spec_classified;
pub use path::strip_sigil;
pub use path::Item;
pub use path::ItemView;
pub use path::Path;
pub use path::PathError;
pub use path::PathView;
pub use pieces::all_pieces_ok;
pub use pieces::lemma_pieces_nonempty;
pub use pieces::lemma_separators_only;
pub use pieces::spec_join;
pub use pieces::spec_pieces;
pub use pieces::split_pieces;
pub use route::Route;
pub use route_match::RouteMatch;
pub use route_match::RouteParameter;
pub use router::Linker;
pub use router::RouteResolver;
pub use router::Router;
pub use router::RouterError;
pub use tree::add_conflict;
pub use tree::assoc_index;
pub use tree::assoc_item;
pub use tree::assoc_node;
pub use tree::fresh_chain;
pub use tree::inserted;
pub use tree::lemma_equiv_walk;
pub use tree::lemma_inserted_static_lookup;
pub use tree::lemma_inserted_preserves_wf;
pub use tree::node_equiv;
pub use tree::node_wf;
pub use tree::spec_walk;
pub use tree::DynamicChild;
pub use tree::DynamicChildType;
pub use tree::Node;
pub use tree::Tree;
pub use tree::TreeError;
pub use urls::url_join;
pub use urls::url_join_ok;
