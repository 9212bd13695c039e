//! Splitting path strings into pieces and joining pieces back together.
//!
//! A path such as `/param/:item` is read as the pieces between `/`
//! separators, with empty pieces dropped, so repeated, leading and trailing
//! separators are ignored.

use vstd::prelude::*;

verus! {

/// The pieces of `s`, continuing a piece `cur` whose characters have already
/// been read.  Pieces are separated by `/`; empty pieces are dropped.
pub open spec fn split_from(s: Seq<char>, cur: Seq<char>) -> Seq<Seq<char>>
    decreases s.len(),
{
    if s.len() == 0 {
        if cur.len() == 0 {
            Seq::empty()
        } else {
            seq![cur]
        }
    } else if s[0] == '/' {
        if cur.len() == 0 {
            split_from(s.drop_first(), Seq::empty())
        } else {
            seq![cur] + split_from(s.drop_first(), Seq::empty())
        }
    } else {
        split_from(s.drop_first(), cur.push(s[0]))
    }
}

/// The pieces of a path string: split on `/`, with empty pieces dropped.
pub open spec fn spec_pieces(s: Seq<char>) -> Seq<Seq<char>> {
    split_from(s, Seq::empty())
}

/// The pieces joined with a single `/` between consecutive pieces.
pub open spec fn spec_join(ps: Seq<Seq<char>>) -> Seq<char>
    decreases ps.len(),
{
    if ps.len() == 0 {
        Seq::empty()
    } else if ps.len() == 1 {
        ps[0]
    } else {
        spec_join(ps.drop_last()) + seq!['/'] + ps.last()
    }
}

/// Every piece in `ps` is non-empty and holds no separator.
pub open spec fn all_pieces_ok(ps: Seq<Seq<char>>) -> bool {
    forall|i: int|
        0 <= i < ps.len() ==> (#[trigger] ps[i]).len() > 0 && !ps[i].contains('/')
}

proof fn lemma_pieces_ok_concat(a: Seq<Seq<char>>, b: Seq<Seq<char>>)
    requires
        all_pieces_ok(a),
        all_pieces_ok(b),
    ensures
        all_pieces_ok(a + b),
{
    assert forall|i: int| 0 <= i < (a + b).len() implies ((a + b)[i]).len() > 0 && !(a
        + b)[i].contains('/') by {
        if i < a.len() {
            assert((a + b)[i] == a[i]);
        } else {
            assert((a + b)[i] == b[i - a.len()]);
        }
    }
}

/// Every piece produced by splitting is non-empty and holds no separator.
pub proof fn lemma_split_from_pieces(s: Seq<char>, cur: Seq<char>)
    requires
        !cur.contains('/'),
    ensures
        all_pieces_ok(split_from(s, cur)),
    decreases s.len(),
{
    if s.len() == 0 {
        if cur.len() > 0 {
            assert(split_from(s, cur)[0] == cur);
        }
    } else if s[0] == '/' {
        lemma_split_from_pieces(s.drop_first(), Seq::empty());
        let rest = split_from(s.drop_first(), Seq::empty());
        if cur.len() > 0 {
            assert(all_pieces_ok(seq![cur])) by {
                assert(seq![cur][0] == cur);
            }
            lemma_pieces_ok_concat(seq![cur], rest);
        }
    } else {
        assert(!cur.push(s[0]).contains('/')) by {
            assert(forall|i: int|
                0 <= i < cur.push(s[0]).len() ==> #[trigger] cur.push(s[0])[i] != '/');
        }
        lemma_split_from_pieces(s.drop_first(), cur.push(s[0]));
    }
}

/// Every piece of a split path is non-empty and holds no separator.
pub proof fn lemma_pieces_nonempty(s: Seq<char>)
    ensures
        all_pieces_ok(spec_pieces(s)),
{
    lemma_split_from_pieces(s, Seq::empty());
}

/// A string of separators only splits into zero pieces.
pub proof fn lemma_separators_only(s: Seq<char>)
    requires
        forall|i: int| 0 <= i < s.len() ==> s[i] == '/',
    ensures
        spec_pieces(s).len() == 0,
{
    lemma_separators_only_from(s);
}

proof fn lemma_separators_only_from(s: Seq<char>)
    requires
        forall|i: int| 0 <= i < s.len() ==> s[i] == '/',
    ensures
        split_from(s, Seq::empty()) == Seq::<Seq<char>>::empty(),
    decreases s.len(),
{
    if s.len() > 0 {
        assert(s.drop_first().len() == s.len() - 1);
        assert(forall|i: int| 0 <= i < s.drop_first().len() ==> #[trigger] s.drop_first()[i] == '/');
        lemma_separators_only_from(s.drop_first());
    }
}

/// Joins strings with a single `/` between consecutive entries.
pub fn join_strings(pieces: &Vec<String>) -> (r: String)
    ensures
        r@ == spec_join(pieces.deep_view()),
{
    let ghost all = pieces.deep_view();
    let mut out = String::new();
    let mut i: usize = 0;
    proof {
        assert(all.take(0) =~= Seq::<Seq<char>>::empty());
    }
    while i < pieces.len()
        invariant
            i <= pieces.len(),
            all == pieces.deep_view(),
            out@ == spec_join(all.take(i as int)),
        decreases pieces.len() - i,
    {
        proof {
            assert(all.take(i as int + 1).drop_last() =~= all.take(i as int));
            assert(all.take(i as int + 1).last() == all[i as int]);
        }
        if i > 0 {
            proof {
                reveal_strlit("/");
                assert("/"@ =~= seq!['/']);
            }
            out.append("/");
        } else {
            proof {
                assert(Seq::<char>::empty() + all[0] =~= all[0]);
            }
        }
        out.append(pieces[i].as_str());
        i = i + 1;
    }
    proof {
        assert(all.take(pieces.len() as int) =~= all);
    }
    out
}

/// Splits a path string on `/`, dropping empty pieces.
pub fn split_pieces(s: &str) -> (r: Vec<String>)
    ensures
        r.deep_view() == spec_pieces(s@),
{
    let n = s.unicode_len();
    let mut out: Vec<String> = Vec::new();
    let mut start: usize = 0;
    let mut i: usize = 0;
    proof {
        assert(s@.skip(0) =~= s@);
        assert(s@.subrange(0, 0) =~= Seq::<char>::empty());
        assert(out.deep_view() =~= Seq::<Seq<char>>::empty());
        assert(out.deep_view() + split_from(s@, Seq::empty()) =~= split_from(s@, Seq::empty()));
    }
    while i < n
        invariant
            start <= i <= n,
            n == s@.len(),
            spec_pieces(s@) == out.deep_view() + split_from(
                s@.skip(i as int),
                s@.subrange(start as int, i as int),
            ),
        decreases n - i,
    {
        let ghost rest = s@.skip(i as int);
        let ghost cur = s@.subrange(start as int, i as int);
        assert(rest.len() > 0);
        assert(rest[0] == s@[i as int]);
        assert(rest.drop_first() =~= s@.skip(i as int + 1));
        let c = s.get_char(i);
        if c == '/' {
            if i > start {
                let piece = s.substring_char(start, i).to_owned();
                assert(piece@ == cur);
                let ghost old_views = out.deep_view();
                out.push(piece);
                assert(out.deep_view() =~= old_views.push(cur));
                assert(split_from(rest, cur) == seq![cur] + split_from(
                    rest.drop_first(),
                    Seq::empty(),
                ));
                assert(old_views + (seq![cur] + split_from(rest.drop_first(), Seq::empty()))
                    =~= old_views.push(cur) + split_from(rest.drop_first(), Seq::empty()));
            } else {
                assert(cur.len() == 0);
            }
            start = i + 1;
            assert(s@.subrange(start as int, i as int + 1) =~= Seq::<char>::empty());
        } else {
            assert(s@.subrange(start as int, i as int + 1) =~= cur.push(s@[i as int]));
        }
        i = i + 1;
    }
    assert(s@.skip(n as int) =~= Seq::<char>::empty());
    let ghost cur = s@.subrange(start as int, n as int);
    if start < n {
        let piece = s.substring_char(start, n).to_owned();
        let ghost old_views = out.deep_view();
        out.push(piece);
        assert(out.deep_view() =~= old_views.push(cur));
        assert(spec_pieces(s@) =~= out.deep_view());
    } else {
        assert(cur.len() == 0);
        assert(spec_pieces(s@) =~= out.deep_view());
    }
    out
}

} // verus!
