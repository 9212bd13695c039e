//! Parsed path templates: segments, validation and rendering.

use crate::method::Method;
use crate::pieces::{
    all_pieces_ok, join_strings, lemma_pieces_nonempty, spec_join, spec_pieces, split_pieces,
};
use crate::route_match::RouteParameter;
use vstd::prelude::*;

verus! {

/// One segment of a path template.
///
/// The stored name is the raw piece of the template, sigil included.
#[derive(Debug)]
pub enum Item {
    /// Matches only an identical literal piece.
    Static(String),
    /// Matches exactly one arbitrary piece, capturing it.
    Parameter(String),
    /// Matches and captures all remaining pieces; must come last.
    Wildcard(String),
}

/// The mathematical value of an [`Item`]: the same tag over the characters
/// of the raw name.
pub enum ItemView {
    /// A literal segment.
    Static(Seq<char>),
    /// A single-piece capture.
    Parameter(Seq<char>),
    /// A rest-of-path capture.
    Wildcard(Seq<char>),
}

impl ItemView {
    /// The raw name, sigil included.
    pub open spec fn raw_name(self) -> Seq<char> {
        match self {
            ItemView::Static(n) => n,
            ItemView::Parameter(n) => n,
            ItemView::Wildcard(n) => n,
        }
    }

    /// The name a segment goes by when parameters are looked up: the raw
    /// name without its sigil for parameters and wildcards, the raw name
    /// itself for static segments.
    pub open spec fn key_name(self) -> Seq<char> {
        match self {
            ItemView::Static(n) => n,
            ItemView::Parameter(n) => strip_sigil(n),
            ItemView::Wildcard(n) => strip_sigil(n),
        }
    }
}

/// A name without its first character; the empty name stays empty.
pub open spec fn strip_sigil(n: Seq<char>) -> Seq<char> {
    if n.len() == 0 {
        n
    } else {
        n.subrange(1, n.len() as int)
    }
}

/// How a raw piece is classified: `:` starts a parameter, `*` a wildcard,
/// anything else is a static segment.
pub open spec fn classify_piece(p: Seq<char>) -> ItemView {
    if p.len() > 0 && p[0] == ':' {
        ItemView::Parameter(p)
    } else if p.len() > 0 && p[0] == '*' {
        ItemView::Wildcard(p)
    } else {
        ItemView::Static(p)
    }
}

/// The classified segments of a template string.
pub open spec fn spec_classified(t: Seq<char>) -> Seq<ItemView> {
    spec_pieces(t).map_values(|p: Seq<char>| classify_piece(p))
}

/// Whether a single segment is invalid: its key name is empty.
pub open spec fn item_fault(it: ItemView) -> bool {
    it.key_name().len() == 0
}

/// The first validation error at or after position `k`, scanning left to
/// right: an empty key name is reported before a misplaced wildcard at the
/// same position.
pub open spec fn first_fault(items: Seq<ItemView>, k: int) -> Option<PathError>
    decreases items.len() - k,
{
    if k < 0 || k >= items.len() {
        None
    } else if item_fault(items[k]) {
        Some(PathError::NameMustNotBeEmpty)
    } else if items[k] is Wildcard && k != items.len() - 1 {
        Some(PathError::WildcardItemMustBeLast)
    } else {
        first_fault(items, k + 1)
    }
}

/// The first validation error of a segment sequence, if any.
pub open spec fn path_fault(items: Seq<ItemView>) -> Option<PathError> {
    first_fault(items, 0)
}

/// The raw names of a segment sequence, sigils included.
pub open spec fn raw_names(items: Seq<ItemView>) -> Seq<Seq<char>> {
    items.map_values(|it: ItemView| it.raw_name())
}

/// The rendered pieces of a segment sequence under `params`: a static
/// segment renders as its raw name, any other segment as the value bound to
/// its key name.  The error is the raw name of the leftmost segment whose
/// key name is unbound.
pub open spec fn render_pieces(items: Seq<ItemView>, params: Map<Seq<char>, Seq<char>>) -> Result<
    Seq<Seq<char>>,
    Seq<char>,
>
    decreases items.len(),
{
    if items.len() == 0 {
        Ok(Seq::empty())
    } else {
        let hd = items[0];
        if hd is Static {
            match render_pieces(items.drop_first(), params) {
                Ok(ps) => Ok(seq![hd.raw_name()] + ps),
                Err(e) => Err(e),
            }
        } else if params.contains_key(hd.key_name()) {
            match render_pieces(items.drop_first(), params) {
                Ok(ps) => Ok(seq![params[hd.key_name()]] + ps),
                Err(e) => Err(e),
            }
        } else {
            Err(hd.raw_name())
        }
    }
}

impl View for Item {
    type V = ItemView;

    open spec fn view(&self) -> ItemView {
        match self {
            Item::Static(n) => ItemView::Static(n@),
            Item::Parameter(n) => ItemView::Parameter(n@),
            Item::Wildcard(n) => ItemView::Wildcard(n@),
        }
    }
}

impl DeepView for Item {
    type V = ItemView;

    open spec fn deep_view(&self) -> ItemView {
        self.view()
    }
}

impl Item {
    /// The raw name of the segment, sigil included.
    pub fn get_name(&self) -> (r: &str)
        ensures
            r@ == self@.raw_name(),
    {
        match self {
            Item::Static(n) => n.as_str(),
            Item::Parameter(n) => n.as_str(),
            Item::Wildcard(n) => n.as_str(),
        }
    }

    /// Whether this is a static segment.
    pub fn is_static(&self) -> (r: bool)
        ensures
            r == (self@ is Static),
    {
        match self {
            Item::Static(_) => true,
            _ => false,
        }
    }

    /// Whether this is a parameter segment.
    pub fn is_parameter(&self) -> (r: bool)
        ensures
            r == (self@ is Parameter),
    {
        match self {
            Item::Parameter(_) => true,
            _ => false,
        }
    }

    /// Whether this is a wildcard segment.
    pub fn is_wildcard(&self) -> (r: bool)
        ensures
            r == (self@ is Wildcard),
    {
        match self {
            Item::Wildcard(_) => true,
            _ => false,
        }
    }

    /// Rejects a segment whose key name is empty.
    pub fn validate(&self) -> (r: Result<(), PathError>)
        ensures
            r matches Err(e) ==> e == PathError::NameMustNotBeEmpty && item_fault(self@),
            r matches Ok(u) ==> !item_fault(self@),
    {
        let faulty = match self {
            Item::Static(n) => n.as_str().is_empty(),
            Item::Parameter(n) => n.as_str().unicode_len() <= 1,
            Item::Wildcard(n) => n.as_str().unicode_len() <= 1,
        };
        if faulty {
            Err(PathError::NameMustNotBeEmpty)
        } else {
            Ok(())
        }
    }
}

/// A parsed path template: a method and an ordered sequence of segments.
#[derive(Debug)]
pub struct Path {
    method: Method,
    items: Vec<Item>,
}

/// The mathematical value of a [`Path`].
pub struct PathView {
    /// The method the template was registered for.
    pub method: Method,
    /// The classified segments.
    pub items: Seq<ItemView>,
}

impl View for Path {
    type V = PathView;

    closed spec fn view(&self) -> PathView {
        PathView { method: self.method, items: self.items.deep_view() }
    }
}

impl Path {
    /// Parses a template: splits it on `/` (dropping empty pieces),
    /// classifies each piece by its first character, and validates the
    /// segments.
    pub fn parse(method: Method, path: &str) -> (r: Result<Path, PathError>)
        ensures
            match path_fault(spec_classified(path@)) {
                Some(e) => r matches Err(e2) && e2 == e,
                None => r matches Ok(p) && p@.method == method && p@.items == spec_classified(
                    path@,
                ),
            },
    {
        let ghost all = spec_classified(path@);
        let pieces = split_pieces(path);
        proof {
            lemma_pieces_nonempty(path@);
        }
        let mut items: Vec<Item> = Vec::new();
        let mut idx: usize = 0;
        proof {
            assert(items.deep_view() =~= all.take(0));
        }
        while idx < pieces.len()
            invariant
                idx <= pieces.len(),
                pieces.deep_view() == spec_pieces(path@),
                all == spec_classified(path@),
                all_pieces_ok(spec_pieces(path@)),
                items.deep_view() == all.take(idx as int),
            decreases pieces.len() - idx,
        {
            let piece = &pieces[idx];
            assert(piece@ == spec_pieces(path@)[idx as int]);
            assert(piece@.len() > 0);
            let c = piece.as_str().get_char(0);
            let item = if c == ':' {
                Item::Parameter(piece.clone())
            } else if c == '*' {
                Item::Wildcard(piece.clone())
            } else {
                Item::Static(piece.clone())
            };
            assert(item@ == all[idx as int]);
            let ghost old_views = items.deep_view();
            items.push(item);
            proof {
                assert(items.deep_view() =~= old_views.push(all[idx as int]));
                assert(items.deep_view() =~= all.take(idx as int + 1));
            }
            idx = idx + 1;
        }
        proof {
            assert(items.deep_view() =~= all);
        }
        let parsed = Path { method, items };
        match parsed.validate() {
            Ok(_) => Ok(parsed),
            Err(e) => Err(e),
        }
    }

    /// Rejects a segment sequence with an empty key name or a wildcard that
    /// is not the last segment, reporting the leftmost violation.
    pub fn validate(&self) -> (r: Result<(), PathError>)
        ensures
            match path_fault(self@.items) {
                Some(e) => r matches Err(e2) && e2 == e,
                None => r matches Ok(u),
            },
    {
        let ghost items = self@.items;
        let n = self.items.len();
        let mut i: usize = 0;
        while i < n
            invariant
                i <= n,
                n == self.items.len(),
                items == self@.items,
                path_fault(items) == first_fault(items, i as int),
            decreases n - i,
        {
            let item = &self.items[i];
            assert(item@ == items[i as int]);
            match item.validate() {
                Err(e) => {
                    return Err(e);
                },
                Ok(_) => {},
            }
            if item.is_wildcard() && i != n - 1 {
                return Err(PathError::WildcardItemMustBeLast);
            }
            i = i + 1;
        }
        Ok(())
    }

    /// Substitutes `params` into the template: static segments emit their
    /// literal name, parameter and wildcard segments emit the value bound to
    /// their key name, and the results are joined with `/`.
    pub fn render(&self, params: RouteParameter) -> (r: Result<String, PathError>)
        ensures
            match render_pieces(self@.items, params@) {
                Ok(ps) => r matches Ok(s) && s@ == spec_join(ps),
                Err(name) => r matches Err(e) && e matches PathError::ParameterNotFound {
                    parameter,
                } && parameter@ == name,
            },
    {
        let ghost items = self@.items;
        let ghost pview = params@;
        let n = self.items.len();
        let mut outs: Vec<String> = Vec::new();
        let mut i: usize = 0;
        proof {
            assert(items.skip(0) =~= items);
            assert(outs.deep_view() =~= Seq::<Seq<char>>::empty());
            match render_pieces(items, pview) {
                Ok(ps) => {
                    assert(outs.deep_view() + ps =~= ps);
                },
                Err(e) => {},
            }
        }
        while i < n
            invariant
                i <= n,
                n == self.items.len(),
                items == self@.items,
                pview == params@,
                match render_pieces(items.skip(i as int), pview) {
                    Ok(ps) => render_pieces(items, pview) == Ok::<_, Seq<char>>(
                        outs.deep_view() + ps,
                    ),
                    Err(e) => render_pieces(items, pview) == Err::<Seq<Seq<char>>, _>(e),
                },
            decreases n - i,
        {
            let ghost rest = items.skip(i as int);
            proof {
                assert(rest[0] == items[i as int]);
                assert(rest.drop_first() =~= items.skip(i as int + 1));
            }
            let item = &self.items[i];
            assert(item@ == items[i as int]);
            let name = item.get_name();
            let piece: String = if item.is_static() {
                name.to_owned()
            } else {
                let name_len = name.unicode_len();
                let key: &str = if name_len >= 1 {
                    name.substring_char(1, name_len)
                } else {
                    proof {
                        reveal_strlit("");
                        assert(""@ =~= strip_sigil(name@));
                    }
                    ""
                };
                assert(key@ == item@.key_name());
                match params.get(key) {
                    Some(v) => v.clone(),
                    None => {
                        return Err(PathError::ParameterNotFound { parameter: name.to_owned() });
                    },
                }
            };
            let ghost old_views = outs.deep_view();
            let ghost pc = piece@;
            outs.push(piece);
            proof {
                assert(outs.deep_view() =~= old_views.push(pc));
                match render_pieces(items.skip(i as int + 1), pview) {
                    Ok(ps) => {
                        assert(old_views + (seq![pc] + ps) =~= old_views.push(pc) + ps);
                    },
                    Err(e) => {},
                }
            }
            i = i + 1;
        }
        proof {
            assert(items.skip(n as int) =~= Seq::<ItemView>::empty());
            assert(render_pieces(items.skip(n as int), pview) == Ok::<_, Seq<char>>(
                Seq::<Seq<char>>::empty(),
            ));
            assert(outs.deep_view() + Seq::<Seq<char>>::empty() =~= outs.deep_view());
        }
        Ok(join_strings(&outs))
    }

    /// The template as registered: the raw segment names, sigils included,
    /// joined with `/`.
    pub fn render_original(&self) -> (r: String)
        ensures
            r@ == spec_join(raw_names(self@.items)),
    {
        let ghost items = self@.items;
        let n = self.items.len();
        let mut outs: Vec<String> = Vec::new();
        let mut i: usize = 0;
        proof {
            assert(outs.deep_view() =~= raw_names(items).take(0));
        }
        while i < n
            invariant
                i <= n,
                n == self.items.len(),
                items == self@.items,
                outs.deep_view() == raw_names(items).take(i as int),
            decreases n - i,
        {
            let item = &self.items[i];
            assert(item@ == items[i as int]);
            let ghost old_views = outs.deep_view();
            outs.push(item.get_name().to_owned());
            proof {
                assert(outs.deep_view() =~= old_views.push(items[i as int].raw_name()));
                assert(outs.deep_view() =~= raw_names(items).take(i as int + 1));
            }
            i = i + 1;
        }
        proof {
            assert(outs.deep_view() =~= raw_names(items));
        }
        join_strings(&outs)
    }

    /// The method of the path.
    pub fn get_method(&self) -> (r: &Method)
        ensures
            *r == self@.method,
    {
        &self.method
    }

    /// The segments of the path.
    pub fn get_items(&self) -> (r: &Vec<Item>)
        ensures
            r.deep_view() == self@.items,
    {
        &self.items
    }

    /// The number of segments.
    pub fn len(&self) -> (r: usize)
        ensures
            r == self@.items.len(),
    {
        self.items.len()
    }

    /// Whether the path has no segments.
    pub fn is_empty(&self) -> (r: bool)
        ensures
            r == (self@.items.len() == 0),
    {
        self.items.is_empty()
    }
}

proof fn lemma_no_fault_upto(items: Seq<ItemView>, k: int, j: int)
    requires
        0 <= k <= j < items.len(),
        first_fault(items, k) is None,
    ensures
        !item_fault(items[j]),
        !(items[j] is Wildcard && j != items.len() - 1),
    decreases j - k,
{
    if k < j {
        lemma_no_fault_upto(items, k + 1, j);
    }
}

/// Law: a wildcard segment anywhere but in the last position makes
/// validation fail.
pub proof fn lemma_wildcard_not_last_fails(items: Seq<ItemView>, i: int)
    requires
        0 <= i < items.len() - 1,
        items[i] is Wildcard,
    ensures
        path_fault(items) is Some,
{
    if path_fault(items) is None {
        lemma_no_fault_upto(items, 0, i);
        assert(false);
    }
}

/// Law: a wildcard segment anywhere but in the last position is rejected
/// as `WildcardItemMustBeLast` whenever no segment has an empty key name.
pub proof fn lemma_wildcard_not_last_error(items: Seq<ItemView>, i: int)
    requires
        0 <= i < items.len() - 1,
        items[i] is Wildcard,
        forall|j: int| 0 <= j < items.len() ==> !item_fault(#[trigger] items[j]),
    ensures
        path_fault(items) == Some(PathError::WildcardItemMustBeLast),
{
    lemma_wildcard_fault_from(items, i, 0);
}

proof fn lemma_wildcard_fault_from(items: Seq<ItemView>, i: int, k: int)
    requires
        0 <= k <= i < items.len() - 1,
        items[i] is Wildcard,
        forall|j: int| 0 <= j < items.len() ==> !item_fault(#[trigger] items[j]),
    ensures
        first_fault(items, k) == Some(PathError::WildcardItemMustBeLast),
    decreases i - k,
{
    if k < i && !(items[k] is Wildcard && k != items.len() - 1) {
        lemma_wildcard_fault_from(items, i, k + 1);
    }
}

/// Law: a segment with an empty key name makes validation fail.
pub proof fn lemma_empty_name_fails(items: Seq<ItemView>, i: int)
    requires
        0 <= i < items.len(),
        item_fault(items[i]),
    ensures
        path_fault(items) is Some,
{
    if path_fault(items) is None {
        lemma_no_fault_upto(items, 0, i);
        assert(false);
    }
}

/// Law: a segment with an empty key name is rejected as
/// `NameMustNotBeEmpty` whenever no wildcard stands before the last
/// position.
pub proof fn lemma_empty_name_error(items: Seq<ItemView>, i: int)
    requires
        0 <= i < items.len(),
        item_fault(items[i]),
        forall|j: int|
            0 <= j < items.len() ==> !((#[trigger] items[j]) is Wildcard && j != items.len() - 1),
    ensures
        path_fault(items) == Some(PathError::NameMustNotBeEmpty),
{
    lemma_empty_name_from(items, i, 0);
}

proof fn lemma_empty_name_from(items: Seq<ItemView>, i: int, k: int)
    requires
        0 <= k <= i < items.len(),
        item_fault(items[i]),
        forall|j: int|
            0 <= j < items.len() ==> !((#[trigger] items[j]) is Wildcard && j != items.len() - 1),
    ensures
        first_fault(items, k) == Some(PathError::NameMustNotBeEmpty),
    decreases i - k,
{
    if k < i && !item_fault(items[k]) {
        lemma_empty_name_from(items, i, k + 1);
    }
}

/// Law: a template of separators only classifies to zero segments, and
/// zero segments validate.
pub proof fn lemma_separators_only_template(t: Seq<char>)
    requires
        forall|i: int| 0 <= i < t.len() ==> t[i] == '/',
    ensures
        spec_classified(t).len() == 0,
        path_fault(spec_classified(t)) is None,
{
    crate::pieces::lemma_separators_only(t);
}

/// Law: a path of static segments only renders, under any parameters at
/// all, to its literal segment names joined by `/` — the same pieces that
/// `render_original` emits.
pub proof fn lemma_static_only_render(items: Seq<ItemView>, params: Map<Seq<char>, Seq<char>>)
    requires
        forall|i: int| 0 <= i < items.len() ==> (#[trigger] items[i]) is Static,
    ensures
        render_pieces(items, params) == Ok::<Seq<Seq<char>>, Seq<char>>(raw_names(items)),
    decreases items.len(),
{
    if items.len() == 0 {
        assert(raw_names(items) =~= Seq::<Seq<char>>::empty());
    } else {
        let rest = items.drop_first();
        assert forall|i: int| 0 <= i < rest.len() implies (#[trigger] rest[i]) is Static by {
            assert(rest[i] == items[i + 1]);
        }
        lemma_static_only_render(rest, params);
        assert(seq![items[0].raw_name()] + raw_names(rest) =~= raw_names(items));
    }
}

/// Router path errors.
#[derive(Debug, PartialEq)]
pub enum PathError {
    /// A segment's name is empty once its sigil is dropped.
    NameMustNotBeEmpty,
    /// A parameter required by the template is missing from the supplied
    /// parameters.
    ParameterNotFound {
        /// The raw name of the segment whose parameter is missing.
        parameter: String,
    },
    /// A wildcard segment is followed by further segments.
    WildcardItemMustBeLast,
}

} // verus!
