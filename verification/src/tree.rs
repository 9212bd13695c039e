//! The routing tree: insertion with conflict detection and lookup with
//! parameter extraction.

use crate::method::Method;
use crate::path::{raw_names, strip_sigil, Item, ItemView, Path};
use crate::pieces::{join_strings, spec_join, spec_pieces, split_pieces};
use crate::route_match::{RouteMatch, RouteParameter};
use vstd::prelude::*;

verus! {

/// A node of the routing tree.
///
/// A node owns a mapping from static segment names to child nodes, at most
/// one dynamic (parameter or wildcard) child, and the handler items
/// registered at this node, one per method.
#[derive(Debug)]
pub struct Node<T> {
    /// The static children, keyed by segment name; keys are unique.
    pub static_children: Vec<(String, Node<T>)>,
    /// The single optional dynamic child.
    pub dynamic_child: Option<DynamicChild<T>>,
    /// The handler items registered at this node, keyed by method; keys are
    /// unique.
    pub items: Vec<(Method, T)>,
}

/// A parameter or wildcard child and the raw segment name it captures
/// under.
#[derive(Debug)]
pub struct DynamicChild<T> {
    /// The raw segment name, sigil included.
    pub name: String,
    /// Whether the child captures one piece or the rest of the path.
    pub child_type: DynamicChildType<T>,
}

/// The two kinds of dynamic child.
#[derive(Debug)]
pub enum DynamicChildType<T> {
    /// Captures exactly one piece.
    Parameter(Box<Node<T>>),
    /// Captures all remaining pieces.
    Wildcard(Box<Node<T>>),
}

/// The first node bound to `key` in an association list of children.
pub open spec fn assoc_node<T>(s: Seq<(String, Node<T>)>, key: Seq<char>) -> Option<Node<T>>
    decreases s.len(),
{
    if s.len() == 0 {
        None
    } else if s[0].0@ == key {
        Some(s[0].1)
    } else {
        assoc_node(s.drop_first(), key)
    }
}

/// The position of the first entry bound to `key`, or `-1` if there is
/// none.
pub open spec fn assoc_index<T>(s: Seq<(String, Node<T>)>, key: Seq<char>) -> int
    decreases s.len(),
{
    if s.len() == 0 {
        -1
    } else if s[0].0@ == key {
        0
    } else {
        let r = assoc_index(s.drop_first(), key);
        if r < 0 {
            -1
        } else {
            1 + r
        }
    }
}

/// The first item registered under `m` in an association list of handler
/// items.
pub open spec fn assoc_item<T>(s: Seq<(Method, T)>, m: Method) -> Option<T>
    decreases s.len(),
{
    if s.len() == 0 {
        None
    } else if s[0].0 == m {
        Some(s[0].1)
    } else {
        assoc_item(s.drop_first(), m)
    }
}

/// Walks the tree from `n` along `pieces[k..]`, accumulating captured
/// parameters in `acc`.
///
/// A static child matching the piece wins over the dynamic child.  A
/// parameter child captures one piece under its key name; a wildcard child
/// captures the rest of the path, joined with `/`, and ends the walk at its
/// child node.  The result is the final node and the captured parameters,
/// or `None` when no child matches some piece.
pub open spec fn spec_walk<T>(
    n: Node<T>,
    pieces: Seq<Seq<char>>,
    k: int,
    acc: Map<Seq<char>, Seq<char>>,
) -> Option<(Node<T>, Map<Seq<char>, Seq<char>>)>
    decreases pieces.len() - k,
{
    if k < 0 || k >= pieces.len() {
        Some((n, acc))
    } else {
        let p = pieces[k];
        match assoc_node(n.static_children@, p) {
            Some(child) => spec_walk(child, pieces, k + 1, acc),
            None => match n.dynamic_child {
                None => None,
                Some(dc) => {
                    let key = strip_sigil(dc.name@);
                    match dc.child_type {
                        DynamicChildType::Parameter(child) => spec_walk(
                            *child,
                            pieces,
                            k + 1,
                            acc.insert(key, p),
                        ),
                        DynamicChildType::Wildcard(child) => Some(
                            (*child, acc.insert(key, spec_join(pieces.skip(k)))),
                        ),
                    }
                },
            },
        }
    }
}

/// Whether registering `items[k..]` for `method` below `n` is a conflict:
/// either some segment is dynamic where `n` already has a dynamic child, or
/// the walk ends at a node that already holds an item for `method`.
pub open spec fn add_conflict<T>(n: Node<T>, items: Seq<ItemView>, k: int, method: Method) -> bool
    decreases items.len() - k,
{
    if k < 0 || k >= items.len() {
        assoc_item(n.items@, method) is Some
    } else {
        match items[k] {
            ItemView::Static(name) => match assoc_node(n.static_children@, name) {
                Some(child) => add_conflict(child, items, k + 1, method),
                None => false,
            },
            ItemView::Parameter(name) => n.dynamic_child is Some,
            ItemView::Wildcard(name) => n.dynamic_child is Some,
        }
    }
}

/// Whether `n` is exactly the chain of fresh nodes built for `items[k..]`,
/// ending in a node that holds `v` under `method` and nothing else.
pub open spec fn fresh_chain<T>(items: Seq<ItemView>, k: int, method: Method, v: T, n: Node<T>) -> bool
    decreases items.len() - k,
{
    if k < 0 || k >= items.len() {
        n.static_children@.len() == 0 && n.dynamic_child is None && n.items@ == seq![(method, v)]
    } else {
        match items[k] {
            ItemView::Static(name) => n.items@.len() == 0 && n.dynamic_child is None
                && n.static_children@.len() == 1 && n.static_children@[0].0@ == name
                && fresh_chain(items, k + 1, method, v, n.static_children@[0].1),
            ItemView::Parameter(name) => n.items@.len() == 0 && n.static_children@.len() == 0 && (
            n.dynamic_child matches Some(dc) && dc.name@ == name && (
            dc.child_type matches DynamicChildType::Parameter(c) && fresh_chain(
                items,
                k + 1,
                method,
                v,
                *c,
            ))),
            ItemView::Wildcard(name) => n.items@.len() == 0 && n.static_children@.len() == 0 && (
            n.dynamic_child matches Some(dc) && dc.name@ == name && (
            dc.child_type matches DynamicChildType::Wildcard(c) && fresh_chain(
                items,
                k + 1,
                method,
                v,
                *c,
            ))),
        }
    }
}

/// How `newn` arises from `oldn` by registering `items[k..]` for `method`
/// with item `v`: existing nodes along the walk keep everything but the one
/// child descended into, missing children are built as a fresh chain, and
/// the final node gains `(method, v)`.
pub open spec fn inserted<T>(
    oldn: Node<T>,
    items: Seq<ItemView>,
    k: int,
    method: Method,
    v: T,
    newn: Node<T>,
) -> bool
    decreases items.len() - k,
{
    if k < 0 || k >= items.len() {
        newn.items@ == oldn.items@.push((method, v)) && newn.static_children
            == oldn.static_children && newn.dynamic_child == oldn.dynamic_child
    } else {
        match items[k] {
            ItemView::Static(name) => {
                let i = assoc_index(oldn.static_children@, name);
                if i >= 0 {
                    newn.items@ == oldn.items@ && newn.dynamic_child == oldn.dynamic_child
                        && newn.static_children@.len() == oldn.static_children@.len() && (forall|
                        j: int,
                    |
                        0 <= j < oldn.static_children@.len() && j != i
                            ==> newn.static_children@[j] == oldn.static_children@[j])
                        && newn.static_children@[i].0 == oldn.static_children@[i].0 && inserted(
                        oldn.static_children@[i].1,
                        items,
                        k + 1,
                        method,
                        v,
                        newn.static_children@[i].1,
                    )
                } else {
                    newn.items@ == oldn.items@ && newn.dynamic_child == oldn.dynamic_child
                        && newn.static_children@.len() == oldn.static_children@.len() + 1 && (forall|
                        j: int,
                    |
                        0 <= j < oldn.static_children@.len()
                            ==> newn.static_children@[j] == oldn.static_children@[j])
                        && newn.static_children@.last().0@ == name && fresh_chain(
                        items,
                        k + 1,
                        method,
                        v,
                        newn.static_children@.last().1,
                    )
                }
            },
            ItemView::Parameter(name) => newn.items@ == oldn.items@ && newn.static_children
                == oldn.static_children && (
            newn.dynamic_child matches Some(dc) && dc.name@ == name && (
            dc.child_type matches DynamicChildType::Parameter(c) && fresh_chain(
                items,
                k + 1,
                method,
                v,
                *c,
            ))),
            ItemView::Wildcard(name) => newn.items@ == oldn.items@ && newn.static_children
                == oldn.static_children && (
            newn.dynamic_child matches Some(dc) && dc.name@ == name && (
            dc.child_type matches DynamicChildType::Wildcard(c) && fresh_chain(
                items,
                k + 1,
                method,
                v,
                *c,
            ))),
        }
    }
}

impl<T> Node<T> {
    /// A node with no children and no items.
    pub fn new() -> (r: Self)
        ensures
            r.static_children@.len() == 0,
            r.dynamic_child is None,
            r.items@.len() == 0,
    {
        Node { static_children: Vec::new(), dynamic_child: None, items: Vec::new() }
    }
}

/// Finds the position of the first static child bound to `key`.
fn find_static<T>(children: &Vec<(String, Node<T>)>, key: &String) -> (r: Option<usize>)
    ensures
        match r {
            Some(i) => i < children@.len() && i as int == assoc_index(children@, key@)
                && children@[i as int].0@ == key@ && assoc_node(children@, key@) == Some(
                children@[i as int].1,
            ),
            None => assoc_index(children@, key@) < 0 && assoc_node(children@, key@) is None,
        },
{
    let ghost all = children@;
    let n = children.len();
    let mut i: usize = 0;
    proof {
        assert(all.skip(0) =~= all);
    }
    while i < n
        invariant
            i <= n,
            n == all.len(),
            all == children@,
            assoc_node(all, key@) == assoc_node(all.skip(i as int), key@),
            assoc_index(all, key@) == (if assoc_index(all.skip(i as int), key@) < 0 {
                -1
            } else {
                i + assoc_index(all.skip(i as int), key@)
            }),
        decreases n - i,
    {
        let ghost rest = all.skip(i as int);
        proof {
            assert(rest[0] == all[i as int]);
            assert(rest.drop_first() =~= all.skip(i as int + 1));
        }
        if children[i].0 == *key {
            return Some(i);
        }
        i = i + 1;
    }
    proof {
        assert(all.skip(n as int) =~= Seq::<(String, Node<T>)>::empty());
    }
    None
}

/// Finds the item registered under `m`, if any.
fn find_item<'a, T>(items: &'a Vec<(Method, T)>, m: &Method) -> (r: Option<&'a T>)
    ensures
        match r {
            Some(v) => assoc_item(items@, *m) == Some(*v),
            None => assoc_item(items@, *m) is None,
        },
{
    let ghost all = items@;
    let n = items.len();
    let mut i: usize = 0;
    proof {
        assert(all.skip(0) =~= all);
    }
    while i < n
        invariant
            i <= n,
            n == all.len(),
            all == items@,
            assoc_item(all, *m) == assoc_item(all.skip(i as int), *m),
        decreases n - i,
    {
        let ghost rest = all.skip(i as int);
        proof {
            assert(rest[0] == all[i as int]);
            assert(rest.drop_first() =~= all.skip(i as int + 1));
        }
        if items[i].0 == *m {
            return Some(&items[i].1);
        }
        i = i + 1;
    }
    proof {
        assert(all.skip(n as int) =~= Seq::<(Method, T)>::empty());
    }
    None
}

/// Whether registering `items[k..]` for `method` below `n` would conflict.
fn check_conflict<T>(n: &Node<T>, items: &Vec<Item>, k: usize, method: &Method) -> (r: bool)
    requires
        k <= items@.len(),
    ensures
        r == add_conflict(*n, items.deep_view(), k as int, *method),
    decreases items@.len() - k,
{
    proof {
        assert(items.deep_view().len() == items@.len());
    }
    if k == items.len() {
        match find_item(&n.items, method) {
            Some(v) => true,
            None => false,
        }
    } else {
        let item = &items[k];
        assert(item@ == items.deep_view()[k as int]);
        match item {
            Item::Static(name) => {
                match find_static(&n.static_children, name) {
                    Some(i) => check_conflict(&n.static_children[i].1, items, k + 1, method),
                    None => false,
                }
            },
            Item::Parameter(name) => n.dynamic_child.is_some(),
            Item::Wildcard(name) => n.dynamic_child.is_some(),
        }
    }
}

/// Builds the chain of fresh nodes for `items[k..]`, ending in a node that
/// holds `v` under `method`.
fn build_chain<T>(items: &Vec<Item>, k: usize, method: Method, v: T) -> (r: Node<T>)
    requires
        k <= items@.len(),
    ensures
        fresh_chain(items.deep_view(), k as int, method, v, r),
    decreases items@.len() - k,
{
    proof {
        assert(items.deep_view().len() == items@.len());
    }
    let mut node = Node::new();
    if k == items.len() {
        node.items.push((method, v));
        proof {
            assert(node.items@ =~= seq![(method, v)]);
        }
        node
    } else {
        let item = &items[k];
        assert(item@ == items.deep_view()[k as int]);
        let child = build_chain(items, k + 1, method, v);
        match item {
            Item::Static(name) => {
                node.static_children.push((name.clone(), child));
            },
            Item::Parameter(name) => {
                node.dynamic_child = Some(
                    DynamicChild {
                        name: name.clone(),
                        child_type: DynamicChildType::Parameter(Box::new(child)),
                    },
                );
            },
            Item::Wildcard(name) => {
                node.dynamic_child = Some(
                    DynamicChild {
                        name: name.clone(),
                        child_type: DynamicChildType::Wildcard(Box::new(child)),
                    },
                );
            },
        }
        node
    }
}

/// Registers `items[k..]` for `method` below `n`, which must be free of
/// conflicts, and returns the grown node.
fn insert_rec<T>(n: Node<T>, items: &Vec<Item>, k: usize, method: Method, v: T) -> (r: Node<T>)
    requires
        k <= items@.len(),
        !add_conflict(n, items.deep_view(), k as int, method),
    ensures
        inserted(n, items.deep_view(), k as int, method, v, r),
    decreases items@.len() - k,
{
    proof {
        assert(items.deep_view().len() == items@.len());
    }
    let ghost oldn = n;
    let mut n = n;
    if k == items.len() {
        n.items.push((method, v));
        n
    } else {
        let item = &items[k];
        assert(item@ == items.deep_view()[k as int]);
        match item {
            Item::Static(name) => {
                match find_static(&n.static_children, name) {
                    Some(i) => {
                        let ghost before = n.static_children@;
                        let (cname, child) = n.static_children.remove(i);
                        let new_child = insert_rec(child, items, k + 1, method, v);
                        n.static_children.insert(i, (cname, new_child));
                        proof {
                            let after = n.static_children@;
                            assert(after =~= before.update(
                                i as int,
                                (before[i as int].0, new_child),
                            ));
                        }
                        n
                    },
                    None => {
                        let child = build_chain(items, k + 1, method, v);
                        n.static_children.push((name.clone(), child));
                        n
                    },
                }
            },
            Item::Parameter(name) => {
                let child = build_chain(items, k + 1, method, v);
                n.dynamic_child = Some(
                    DynamicChild {
                        name: name.clone(),
                        child_type: DynamicChildType::Parameter(Box::new(child)),
                    },
                );
                n
            },
            Item::Wildcard(name) => {
                let child = build_chain(items, k + 1, method, v);
                n.dynamic_child = Some(
                    DynamicChild {
                        name: name.clone(),
                        child_type: DynamicChildType::Wildcard(Box::new(child)),
                    },
                );
                n
            },
        }
    }
}

/// Whether two nodes hold the same routes: the same items, the same static
/// children under the same names in the same order, and the same kind of
/// dynamic child, with equivalent child nodes throughout.
///
/// Equivalent nodes are indistinguishable to insertion and lookup; the
/// relation only ignores how much spare capacity the nodes' vectors carry.
pub open spec fn node_equiv<T>(a: Node<T>, b: Node<T>) -> bool
    decreases a,
{
    &&& a.items@ == b.items@
    &&& a.static_children@.len() == b.static_children@.len()
    &&& forall|i: int|
        0 <= i < a.static_children@.len() ==> (#[trigger] a.static_children@[i]).0
            == b.static_children@[i].0
    &&& forall|i: int|
        0 <= i < a.static_children@.len() ==> node_equiv(
            (#[trigger] a.static_children@[i]).1,
            b.static_children@[i].1,
        )
    &&& match (a.dynamic_child, b.dynamic_child) {
        (None, None) => true,
        (Some(da), Some(db)) => da.name == db.name && match (da.child_type, db.child_type) {
            (DynamicChildType::Parameter(ca), DynamicChildType::Parameter(cb)) => node_equiv(
                *ca,
                *cb,
            ),
            (DynamicChildType::Wildcard(ca), DynamicChildType::Wildcard(cb)) => node_equiv(
                *ca,
                *cb,
            ),
            _ => false,
        },
        _ => false,
    }
}

/// Well-formedness of a node: static child names are unique, method keys
/// are unique, and every child node is well-formed in turn.
pub open spec fn node_wf<T>(n: Node<T>) -> bool
    decreases n,
{
    &&& forall|i: int, j: int|
        0 <= i < j < n.static_children@.len() ==> (#[trigger] n.static_children@[i]).0@ != (
        #[trigger] n.static_children@[j]).0@
    &&& forall|i: int, j: int|
        0 <= i < j < n.items@.len() ==> (#[trigger] n.items@[i]).0 != (#[trigger] n.items@[j]).0
    &&& forall|i: int|
        0 <= i < n.static_children@.len() ==> node_wf((#[trigger] n.static_children@[i]).1)
    &&& match n.dynamic_child {
        None => true,
        Some(dc) => match dc.child_type {
            DynamicChildType::Parameter(c) => node_wf(*c),
            DynamicChildType::Wildcard(c) => node_wf(*c),
        },
    }
}

proof fn lemma_assoc_index_props<T>(s: Seq<(String, Node<T>)>, key: Seq<char>)
    ensures
        assoc_index(s, key) >= 0 ==> 0 <= assoc_index(s, key) < s.len() && s[assoc_index(
            s,
            key,
        )].0@ == key && (forall|j: int|
            0 <= j < assoc_index(s, key) ==> (#[trigger] s[j]).0@ != key) && assoc_node(s, key)
            == Some(s[assoc_index(s, key)].1),
        assoc_index(s, key) < 0 ==> assoc_node(s, key) is None && (forall|j: int|
            0 <= j < s.len() ==> (#[trigger] s[j]).0@ != key),
    decreases s.len(),
{
    if s.len() > 0 && s[0].0@ != key {
        let sd = s.drop_first();
        lemma_assoc_index_props(sd, key);
        assert(forall|j: int| 1 <= j < s.len() ==> (#[trigger] s[j]) == sd[j - 1]);
    }
}

proof fn lemma_assoc_item_none<T>(s: Seq<(Method, T)>, m: Method)
    requires
        assoc_item(s, m) is None,
    ensures
        forall|i: int| 0 <= i < s.len() ==> (#[trigger] s[i]).0 != m,
    decreases s.len(),
{
    if s.len() > 0 {
        let sd = s.drop_first();
        lemma_assoc_item_none(sd, m);
        assert(forall|i: int| 1 <= i < s.len() ==> (#[trigger] s[i]) == sd[i - 1]);
    }
}

proof fn lemma_fresh_chain_wf<T>(items: Seq<ItemView>, k: int, method: Method, v: T, n: Node<T>)
    requires
        fresh_chain(items, k, method, v, n),
    ensures
        node_wf(n),
    decreases items.len() - k,
{
    if 0 <= k < items.len() {
        match items[k] {
            ItemView::Static(name) => {
                lemma_fresh_chain_wf(items, k + 1, method, v, n.static_children@[0].1);
            },
            ItemView::Parameter(name) => {
                match n.dynamic_child {
                    Some(dc) => match dc.child_type {
                        DynamicChildType::Parameter(c) => {
                            lemma_fresh_chain_wf(items, k + 1, method, v, *c);
                        },
                        _ => {},
                    },
                    None => {},
                }
            },
            ItemView::Wildcard(name) => {
                match n.dynamic_child {
                    Some(dc) => match dc.child_type {
                        DynamicChildType::Wildcard(c) => {
                            lemma_fresh_chain_wf(items, k + 1, method, v, *c);
                        },
                        _ => {},
                    },
                    None => {},
                }
            },
        }
    } else {
        assert(n.items@ == seq![(method, v)]);
    }
}

/// Law: a conflict-free registration keeps the tree well formed: static
/// child names and method keys stay unique throughout.
pub proof fn lemma_inserted_preserves_wf<T>(
    oldn: Node<T>,
    items: Seq<ItemView>,
    k: int,
    method: Method,
    v: T,
    newn: Node<T>,
)
    requires
        node_wf(oldn),
        !add_conflict(oldn, items, k, method),
        inserted(oldn, items, k, method, v, newn),
    ensures
        node_wf(newn),
    decreases items.len() - k,
{
    if k < 0 || k >= items.len() {
        lemma_assoc_item_none(oldn.items@, method);
        assert(forall|i: int|
            0 <= i < oldn.items@.len() ==> (#[trigger] newn.items@[i]) == oldn.items@[i]);
        assert(newn.items@.last() == (method, v));
    } else {
        match items[k] {
            ItemView::Static(name) => {
                let i = assoc_index(oldn.static_children@, name);
                lemma_assoc_index_props(oldn.static_children@, name);
                if i >= 0 {
                    lemma_inserted_preserves_wf(
                        oldn.static_children@[i].1,
                        items,
                        k + 1,
                        method,
                        v,
                        newn.static_children@[i].1,
                    );
                } else {
                    lemma_fresh_chain_wf(items, k + 1, method, v, newn.static_children@.last().1);
                }
            },
            ItemView::Parameter(name) => {
                match newn.dynamic_child {
                    Some(dc) => match dc.child_type {
                        DynamicChildType::Parameter(c) => {
                            lemma_fresh_chain_wf(items, k + 1, method, v, *c);
                        },
                        _ => {},
                    },
                    None => {},
                }
            },
            ItemView::Wildcard(name) => {
                match newn.dynamic_child {
                    Some(dc) => match dc.child_type {
                        DynamicChildType::Wildcard(c) => {
                            lemma_fresh_chain_wf(items, k + 1, method, v, *c);
                        },
                        _ => {},
                    },
                    None => {},
                }
            },
        }
    }
}

proof fn lemma_assoc_node_pointwise<T>(
    s: Seq<(String, Node<T>)>,
    t: Seq<(String, Node<T>)>,
    key: Seq<char>,
    i: int,
)
    requires
        s.len() == t.len(),
        0 <= i < s.len(),
        forall|j: int| 0 <= j < s.len() && j != i ==> t[j] == s[j],
        t[i].0 == s[i].0,
        s[i].0@ == key,
        forall|j: int| 0 <= j < i ==> (#[trigger] s[j]).0@ != key,
    ensures
        assoc_node(t, key) == Some(t[i].1),
    decreases i,
{
    if i == 0 {
        assert(t[0].0@ == key);
    } else {
        assert(t[0] == s[0]);
        let sd = s.drop_first();
        let td = t.drop_first();
        assert(forall|j: int| 0 <= j < sd.len() ==> (#[trigger] sd[j]) == s[j + 1]);
        assert(forall|j: int| 0 <= j < td.len() ==> (#[trigger] td[j]) == t[j + 1]);
        lemma_assoc_node_pointwise(sd, td, key, i - 1);
    }
}

proof fn lemma_assoc_node_appended<T>(
    s: Seq<(String, Node<T>)>,
    t: Seq<(String, Node<T>)>,
    key: Seq<char>,
)
    requires
        t.len() == s.len() + 1,
        forall|j: int| 0 <= j < s.len() ==> t[j] == s[j],
        t.last().0@ == key,
        assoc_node(s, key) is None,
    ensures
        assoc_node(t, key) == Some(t.last().1),
    decreases s.len(),
{
    if s.len() == 0 {
        assert(t[0] == t.last());
    } else {
        assert(t[0] == s[0]);
        let sd = s.drop_first();
        let td = t.drop_first();
        assert(forall|j: int| 0 <= j < sd.len() ==> (#[trigger] sd[j]) == s[j + 1]);
        assert(forall|j: int| 0 <= j < td.len() ==> (#[trigger] td[j]) == t[j + 1]);
        assert(td.last() == t.last());
        lemma_assoc_node_appended(sd, td, key);
    }
}

proof fn lemma_assoc_item_push<T>(s: Seq<(Method, T)>, m: Method, v: T)
    requires
        assoc_item(s, m) is None,
    ensures
        assoc_item(s.push((m, v)), m) == Some(v),
    decreases s.len(),
{
    if s.len() == 0 {
        assert(s.push((m, v))[0] == (m, v));
    } else {
        assert(s.push((m, v))[0] == s[0]);
        assert(s.push((m, v)).drop_first() =~= s.drop_first().push((m, v)));
        lemma_assoc_item_push(s.drop_first(), m, v);
    }
}

proof fn lemma_fresh_chain_walk<T>(
    items: Seq<ItemView>,
    k: int,
    method: Method,
    v: T,
    n: Node<T>,
    acc: Map<Seq<char>, Seq<char>>,
)
    requires
        fresh_chain(items, k, method, v, n),
        forall|j: int| k <= j < items.len() ==> (#[trigger] items[j]) is Static,
    ensures
        spec_walk(n, raw_names(items), k, acc) matches Some(wp) && wp.1 == acc && assoc_item(
            wp.0.items@,
            method,
        ) == Some(v),
    decreases items.len() - k,
{
    if k < 0 || k >= items.len() {
        assert(assoc_item(n.items@, method) == Some(v)) by {
            assert(n.items@[0] == (method, v));
        }
    } else {
        match items[k] {
            ItemView::Static(name) => {
                assert(raw_names(items)[k] == name);
                assert(assoc_node(n.static_children@, name) == Some(n.static_children@[0].1));
                lemma_fresh_chain_walk(items, k + 1, method, v, n.static_children@[0].1, acc);
            },
            _ => {
                assert(false);
            },
        }
    }
}

/// Law: after a conflict-free registration of a template of static
/// segments only, walking exactly those segment names through the new tree
/// succeeds, captures nothing, and ends at a node that holds the new item
/// under the registered method.
pub proof fn lemma_inserted_static_lookup<T>(
    oldn: Node<T>,
    items: Seq<ItemView>,
    k: int,
    method: Method,
    v: T,
    newn: Node<T>,
    acc: Map<Seq<char>, Seq<char>>,
)
    requires
        0 <= k <= items.len(),
        !add_conflict(oldn, items, k, method),
        inserted(oldn, items, k, method, v, newn),
        forall|j: int| k <= j < items.len() ==> (#[trigger] items[j]) is Static,
    ensures
        spec_walk(newn, raw_names(items), k, acc) matches Some(wp) && wp.1 == acc && assoc_item(
            wp.0.items@,
            method,
        ) == Some(v),
    decreases items.len() - k,
{
    if k >= items.len() {
        lemma_assoc_item_push(oldn.items@, method, v);
    } else {
        match items[k] {
            ItemView::Static(name) => {
                assert(raw_names(items)[k] == name);
                let i = assoc_index(oldn.static_children@, name);
                lemma_assoc_index_props(oldn.static_children@, name);
                if i >= 0 {
                    lemma_assoc_node_pointwise(
                        oldn.static_children@,
                        newn.static_children@,
                        name,
                        i,
                    );
                    lemma_inserted_static_lookup(
                        oldn.static_children@[i].1,
                        items,
                        k + 1,
                        method,
                        v,
                        newn.static_children@[i].1,
                        acc,
                    );
                } else {
                    lemma_assoc_node_appended(oldn.static_children@, newn.static_children@, name);
                    lemma_fresh_chain_walk(
                        items,
                        k + 1,
                        method,
                        v,
                        newn.static_children@.last().1,
                        acc,
                    );
                }
            },
            _ => {
                assert(false);
            },
        }
    }
}

proof fn lemma_equiv_assoc<T>(
    a: Seq<(String, Node<T>)>,
    b: Seq<(String, Node<T>)>,
    key: Seq<char>,
)
    requires
        a.len() == b.len(),
        forall|i: int| 0 <= i < a.len() ==> (#[trigger] a[i]).0 == b[i].0,
        forall|i: int| 0 <= i < a.len() ==> node_equiv((#[trigger] a[i]).1, b[i].1),
    ensures
        match (assoc_node(a, key), assoc_node(b, key)) {
            (None, None) => true,
            (Some(ca), Some(cb)) => node_equiv(ca, cb),
            _ => false,
        },
    decreases a.len(),
{
    if a.len() > 0 {
        assert(a[0].0 == b[0].0);
        if a[0].0@ != key {
            let ta = a.drop_first();
            let tb = b.drop_first();
            assert(forall|i: int| 0 <= i < ta.len() ==> (#[trigger] ta[i]) == a[i + 1]);
            assert(forall|i: int| 0 <= i < tb.len() ==> (#[trigger] tb[i]) == b[i + 1]);
            lemma_equiv_assoc(ta, tb, key);
        }
    }
}

/// Law: equivalent nodes resolve every path alike.  The walks fail
/// together, or end with the same captured parameters and with final nodes
/// that hold the same items — so lookups through either node give the same
/// results.
pub proof fn lemma_equiv_walk<T>(
    a: Node<T>,
    b: Node<T>,
    pieces: Seq<Seq<char>>,
    k: int,
    acc: Map<Seq<char>, Seq<char>>,
)
    requires
        node_equiv(a, b),
    ensures
        match (spec_walk(a, pieces, k, acc), spec_walk(b, pieces, k, acc)) {
            (None, None) => true,
            (Some(ra), Some(rb)) => ra.1 == rb.1 && ra.0.items@ == rb.0.items@,
            _ => false,
        },
    decreases pieces.len() - k,
{
    if 0 <= k < pieces.len() {
        let p = pieces[k];
        lemma_equiv_assoc(a.static_children@, b.static_children@, p);
        match (assoc_node(a.static_children@, p), assoc_node(b.static_children@, p)) {
            (Some(ca), Some(cb)) => {
                lemma_equiv_walk(ca, cb, pieces, k + 1, acc);
            },
            (None, None) => {
                match (a.dynamic_child, b.dynamic_child) {
                    (Some(da), Some(db)) => {
                        match (da.child_type, db.child_type) {
                            (
                                DynamicChildType::Parameter(ca),
                                DynamicChildType::Parameter(cb),
                            ) => {
                                lemma_equiv_walk(
                                    *ca,
                                    *cb,
                                    pieces,
                                    k + 1,
                                    acc.insert(strip_sigil(da.name@), p),
                                );
                            },
                            (DynamicChildType::Wildcard(ca), DynamicChildType::Wildcard(cb)) => {
                                assert(node_equiv(*ca, *cb));
                                assert((*ca).items@ == (*cb).items@);
                            },
                            _ => {},
                        }
                    },
                    _ => {},
                }
            },
            _ => {},
        }
    }
}

/// Relies on `Vec::shrink_to_fit`: it only drops excess capacity and keeps
/// the elements as they are.
#[verifier::external_body]
fn shrink_vec<T>(v: &mut Vec<T>)
    ensures
        final(v)@ == old(v)@,
{
    v.shrink_to_fit();
}

/// Reclaims excess capacity throughout a node, returning an equivalent
/// node.
#[verifier::loop_isolation(false)]
fn optimize_node<T>(n: Node<T>) -> (r: Node<T>)
    ensures
        node_equiv(n, r),
    decreases n,
{
    let ghost n0 = n;
    let Node { mut static_children, dynamic_child, items } = n;
    let ghost orig = static_children@;
    let mut new_children: Vec<(String, Node<T>)> = Vec::new();
    while static_children.len() > 0
        invariant
            orig == n0.static_children@,
            new_children@.len() + static_children@.len() == orig.len(),
            static_children@ == orig.skip(new_children@.len() as int),
            forall|i: int|
                0 <= i < new_children@.len() ==> (#[trigger] new_children@[i]).0 == orig[i].0,
            forall|i: int|
                0 <= i < new_children@.len() ==> node_equiv(
                    orig[i].1,
                    (#[trigger] new_children@[i]).1,
                ),
        decreases static_children@.len(),
    {
        let ghost j = new_children@.len() as int;
        let (key, child) = static_children.remove(0);
        proof {
            assert(child == orig[j].1);
            assert(static_children@ =~= orig.skip(j + 1));
            assert(decreases_to!(n0 => n0.static_children));
            assert(decreases_to!(n0.static_children => n0.static_children[j]));
            assert(decreases_to!(n0.static_children[j] => n0.static_children[j].1));
            assert(decreases_to!(n0 => child));
        }
        let new_child = optimize_node(child);
        new_children.push((key, new_child));
    }
    let new_dynamic = match dynamic_child {
        None => None,
        Some(dc) => {
            let DynamicChild { name, child_type } = dc;
            let new_type = match child_type {
                DynamicChildType::Parameter(b) => DynamicChildType::Parameter(
                    Box::new(optimize_node(*b)),
                ),
                DynamicChildType::Wildcard(b) => DynamicChildType::Wildcard(
                    Box::new(optimize_node(*b)),
                ),
            };
            Some(DynamicChild { name, child_type: new_type })
        },
    };
    let mut items = items;
    shrink_vec(&mut items);
    shrink_vec(&mut new_children);
    let r = Node { static_children: new_children, dynamic_child: new_dynamic, items };
    proof {
        assert(node_equiv(n0, r));
    }
    r
}

/// Joins `pieces[i..]` with a single `/` between consecutive pieces.
fn join_tail(pieces: &Vec<String>, i: usize) -> (r: String)
    requires
        i <= pieces@.len(),
    ensures
        r@ == spec_join(pieces.deep_view().skip(i as int)),
{
    let ghost all = pieces.deep_view();
    let mut tail: Vec<String> = Vec::new();
    let mut j: usize = i;
    proof {
        assert(tail.deep_view() =~= all.subrange(i as int, i as int));
    }
    while j < pieces.len()
        invariant
            i <= j <= pieces@.len(),
            all == pieces.deep_view(),
            tail.deep_view() == all.subrange(i as int, j as int),
        decreases pieces@.len() - j,
    {
        let ghost old_views = tail.deep_view();
        tail.push(pieces[j].clone());
        proof {
            assert(tail.deep_view() =~= old_views.push(all[j as int]));
            assert(tail.deep_view() =~= all.subrange(i as int, j as int + 1));
        }
        j = j + 1;
    }
    proof {
        assert(tail.deep_view() =~= all.skip(i as int));
    }
    join_strings(&tail)
}

/// The routing tree.
#[derive(Debug)]
pub struct Tree<T> {
    /// The root node; the empty path ends here.
    pub root: Node<T>,
}

/// Router tree errors.
#[derive(Debug, PartialEq)]
pub enum TreeError {
    /// No registered route matches the looked-up path.
    PathNotFound {
        /// The path that was looked up.
        path: String,
    },
    /// A route matches the path, but not for the requested method.
    MethodNotFound {
        /// The method that was looked up.
        method: Method,
    },
    /// The route being added collides with an already registered route.
    PathAlreadyRegistered {
        /// The template of the route being added, raw names joined by `/`.
        route: String,
    },
}

impl<T> Tree<T> {
    /// An empty tree.
    pub fn new() -> (r: Self)
        ensures
            r.root.static_children@.len() == 0,
            r.root.dynamic_child is None,
            r.root.items@.len() == 0,
            node_wf(r.root),
    {
        let r = Tree { root: Node::new() };
        proof {
            assert(node_wf(r.root));
        }
        r
    }

    /// Registers `item` for the path's method at the node its segments lead
    /// to, building missing nodes on the way.
    ///
    /// Fails, leaving the tree unchanged, when a dynamic segment lands on a
    /// node that already has a dynamic child, or when the final node
    /// already holds an item for the method.
    pub fn add(&mut self, path: &Path, item: T) -> (r: Result<(), TreeError>)
        ensures
            if add_conflict(old(self).root, path@.items, 0, path@.method) {
                r matches Err(e) && e matches TreeError::PathAlreadyRegistered { route }
                    && route@ == spec_join(raw_names(path@.items)) && *final(self) == *old(self)
            } else {
                r matches Ok(u) && inserted(
                    old(self).root,
                    path@.items,
                    0,
                    path@.method,
                    item,
                    final(self).root,
                ) && (node_wf(old(self).root) ==> node_wf(final(self).root))
            },
    {
        let items = path.get_items();
        let method = path.get_method();
        if check_conflict(&self.root, items, 0, method) {
            return Err(TreeError::PathAlreadyRegistered { route: path.render_original() });
        }
        let mut root = Node::new();
        core::mem::swap(&mut self.root, &mut root);
        let new_root = insert_rec(root, items, 0, *method, item);
        self.root = new_root;
        proof {
            if node_wf(old(self).root) {
                lemma_inserted_preserves_wf(
                    old(self).root,
                    path@.items,
                    0,
                    path@.method,
                    item,
                    self.root,
                );
            }
        }
        Ok(())
    }

    /// Reclaims excess capacity throughout the tree.  The tree after the
    /// call holds exactly the routes it held before.
    pub fn optimize(&mut self)
        ensures
            node_equiv(old(self).root, final(self).root),
    {
        let mut root = Node::new();
        core::mem::swap(&mut self.root, &mut root);
        let new_root = optimize_node(root);
        self.root = new_root;
    }

    /// Splits `path` on `/` and walks the tree piece by piece: an exact
    /// static child wins, else a parameter child captures the piece, else a
    /// wildcard child captures the rest of the path and ends the walk.
    ///
    /// Fails with `PathNotFound` when no child matches some piece, and with
    /// `MethodNotFound` when the walk ends at a node with no item for
    /// `method`.
    pub fn lookup<'a>(&'a self, method: &Method, path: &str) -> (r: Result<
        RouteMatch<'a, T>,
        TreeError,
    >)
        ensures
            ({
                let w = spec_walk(
                    self.root,
                    spec_pieces(path@),
                    0,
                    Map::<Seq<char>, Seq<char>>::empty(),
                );
                match r {
                    Ok(rm) => w matches Some(wp) && (assoc_item(wp.0.items@, *method) matches Some(
                        it,
                    ) && *rm.item == it && rm.params@ == wp.1),
                    Err(e) => match e {
                        TreeError::PathNotFound { path: p } => w is None && p@ == path@,
                        TreeError::MethodNotFound { method: m } => w matches Some(wp) && assoc_item(
                            wp.0.items@,
                            *method,
                        ) is None && m == *method,
                        TreeError::PathAlreadyRegistered { route } => false,
                    },
                }
            }),
    {
        let ghost all = spec_pieces(path@);
        let ghost w = spec_walk(self.root, all, 0, Map::<Seq<char>, Seq<char>>::empty());
        let pieces = split_pieces(path);
        let mut params = RouteParameter::new();
        let mut current: &Node<T> = &self.root;
        let mut i: usize = 0;
        let n = pieces.len();
        while i < n
            invariant_except_break
                i <= n,
                n == pieces@.len(),
                all == spec_pieces(path@),
                pieces.deep_view() == all,
                w == spec_walk(self.root, all, 0, Map::<Seq<char>, Seq<char>>::empty()),
                w == spec_walk(*current, all, i as int, params@),
            ensures
                w == Some((*current, params@)),
            decreases n - i,
        {
            let ghost cur0 = *current;
            let ghost p0 = params@;
            let piece = &pieces[i];
            proof {
                assert(all.len() == pieces@.len());
                assert(piece@ == all[i as int]);
            }
            match find_static(&current.static_children, piece) {
                Some(j) => {
                    current = &current.static_children[j].1;
                },
                None => {
                    match &current.dynamic_child {
                        None => {
                            proof {
                                assert(spec_walk(cur0, all, i as int, p0) is None);
                            }
                            return Err(TreeError::PathNotFound { path: path.to_owned() });
                        },
                        Some(dc) => {
                            let name_len = dc.name.as_str().unicode_len();
                            let key: String = if name_len >= 1 {
                                dc.name.as_str().substring_char(1, name_len).to_owned()
                            } else {
                                String::new()
                            };
                            assert(key@ == strip_sigil(dc.name@));
                            proof {
                                assert(cur0.dynamic_child == Some(*dc));
                            }
                            match &dc.child_type {
                                DynamicChildType::Parameter(child) => {
                                    params.insert(key, piece.clone());
                                    current = &**child;
                                    proof {
                                        assert(spec_walk(cur0, all, i as int, p0) == spec_walk(
                                            *current,
                                            all,
                                            i as int + 1,
                                            p0.insert(strip_sigil(dc.name@), all[i as int]),
                                        ));
                                        assert(params@ == p0.insert(
                                            strip_sigil(dc.name@),
                                            all[i as int],
                                        ));
                                    }
                                },
                                DynamicChildType::Wildcard(child) => {
                                    let rest = join_tail(&pieces, i);
                                    proof {
                                        assert(pieces.deep_view().skip(i as int) =~= all.skip(
                                            i as int,
                                        ));
                                    }
                                    params.insert(key, rest);
                                    current = &**child;
                                    proof {
                                        assert(spec_walk(cur0, all, i as int, p0) == Some(
                                            (
                                                *current,
                                                p0.insert(
                                                    strip_sigil(dc.name@),
                                                    spec_join(all.skip(i as int)),
                                                ),
                                            ),
                                        ));
                                        assert(params@ == p0.insert(
                                            strip_sigil(dc.name@),
                                            spec_join(all.skip(i as int)),
                                        ));
                                    }
                                    break ;
                                },
                            }
                        },
                    }
                },
            }
            i = i + 1;
        }
        match find_item(&current.items, method) {
            Some(it) => Ok(RouteMatch::create(it, params)),
            None => Err(TreeError::MethodNotFound { method: *method }),
        }
    }
}

} // verus!
