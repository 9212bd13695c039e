//! Captured route parameters and the result of a successful lookup.

use vstd::prelude::*;
use vstd::hash_map::StringHashMap;

verus! {

/// The parameters captured while matching a path, keyed by the parameter or
/// wildcard name without its sigil.
pub struct RouteParameter {
    inner: StringHashMap<String>,
}

impl View for RouteParameter {
    type V = Map<Seq<char>, Seq<char>>;

    closed spec fn view(&self) -> Map<Seq<char>, Seq<char>> {
        self.inner@.map_values(|v: String| v@)
    }
}

impl RouteParameter {
    /// An empty parameter map.
    pub fn new() -> (r: Self)
        ensures
            r@ == Map::<Seq<char>, Seq<char>>::empty(),
    {
        let r = RouteParameter { inner: StringHashMap::new() };
        proof {
            assert(r@ =~= Map::<Seq<char>, Seq<char>>::empty());
        }
        r
    }

    /// Binds `key` to `value`, replacing any earlier binding of `key`.
    pub fn insert(&mut self, key: String, value: String)
        ensures
            final(self)@ == old(self)@.insert(key@, value@),
    {
        let ghost gkey = key@;
        let ghost gval = value@;
        self.inner.insert(key, value);
        proof {
            assert(self@ =~= old(self)@.insert(gkey, gval));
        }
    }

    /// The value bound to `key`, if any.
    pub fn get(&self, key: &str) -> (r: Option<&String>)
        ensures
            match r {
                Some(v) => self@.contains_key(key@) && v@ == self@[key@],
                None => !self@.contains_key(key@),
            },
    {
        let r = self.inner.get(key);
        proof {
            assert(self@.contains_key(key@) == self.inner@.contains_key(key@));
        }
        r
    }

    /// Whether `key` is bound.
    pub fn contains_key(&self, key: &str) -> (r: bool)
        ensures
            r == self@.contains_key(key@),
    {
        let r = self.inner.contains_key(key);
        proof {
            assert(self@.contains_key(key@) == self.inner@.contains_key(key@));
        }
        r
    }

    /// The number of bound keys.
    pub fn len(&self) -> (r: usize)
        ensures
            r == self@.len(),
    {
        let r = self.inner.len();
        proof {
            assert(self@.dom() =~= self.inner@.dom());
        }
        r
    }

    /// Whether no key is bound.
    pub fn is_empty(&self) -> (r: bool)
        ensures
            r == self@.is_empty(),
    {
        let r = self.inner.is_empty();
        proof {
            assert(self@.dom() =~= self.inner@.dom());
        }
        r
    }
}

/// The result of a successful lookup: a reference to the matched handler
/// item and the parameters captured along the way.
pub struct RouteMatch<'a, T> {
    /// The matched handler item.
    pub item: &'a T,
    /// The captured parameters.
    pub params: RouteParameter,
}

impl<'a, T> RouteMatch<'a, T> {
    /// Bundles a matched item with its captured parameters.
    pub fn create(item: &'a T, params: RouteParameter) -> (r: Self)
        ensures
            r.item == item,
            r.params@ == params@,
    {
        RouteMatch { item, params }
    }

    /// The matched item.
    pub fn get_item(&self) -> (r: &T)
        ensures
            r == self.item,
    {
        self.item
    }

    /// The captured parameters.
    pub fn get_params(&self) -> (r: &RouteParameter)
        ensures
            r@ == self.params@,
    {
        &self.params
    }

    /// The captured parameters, by value.
    pub fn move_params(self) -> (r: RouteParameter)
        ensures
            r@ == self.params@,
    {
        self.params
    }
}

} // verus!
