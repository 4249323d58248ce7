//! First-match lookup over sequences, shared by the store's queries.

use vstd::prelude::*;

verus! {

/// The index of the first element satisfying `p`, or -1 if there is none.
pub open spec fn find_first<T>(s: Seq<T>, p: spec_fn(T) -> bool) -> int
    decreases s.len(),
{
    if s.len() == 0 {
        -1
    } else if p(s[0]) {
        0
    } else {
        let r = find_first(s.drop_first(), p);
        if r == -1 {
            -1
        } else {
            r + 1
        }
    }
}

/// What `find_first` returns: -1 exactly when no element matches, otherwise
/// the least matching index.
pub proof fn lemma_find_first<T>(s: Seq<T>, p: spec_fn(T) -> bool)
    ensures
        find_first(s, p) == -1 ==> forall|i: int| 0 <= i < s.len() ==> !p(#[trigger] s[i]),
        find_first(s, p) != -1 ==> {
            &&& 0 <= find_first(s, p) < s.len()
            &&& p(s[find_first(s, p)])
            &&& forall|i: int| 0 <= i < find_first(s, p) ==> !p(#[trigger] s[i])
        },
    decreases s.len(),
{
    if s.len() > 0 && !p(s[0]) {
        lemma_find_first(s.drop_first(), p);
        assert forall|i: int| 1 <= i < s.len() implies s.drop_first()[i - 1] == #[trigger] s[i] by {}
    }
}

/// If `i` is a matching index preceded only by non-matches, it is the one
/// that `find_first` returns.
pub proof fn lemma_find_first_at<T>(s: Seq<T>, p: spec_fn(T) -> bool, i: int)
    requires
        0 <= i < s.len(),
        p(s[i]),
        forall|j: int| 0 <= j < i ==> !p(#[trigger] s[j]),
    ensures
        find_first(s, p) == i,
    decreases s.len(),
{
    if i > 0 {
        assert(!p(s[0]));
        assert forall|j: int| 1 <= j < s.len() implies s.drop_first()[j - 1] == #[trigger] s[j] by {}
        lemma_find_first_at(s.drop_first(), p, i - 1);
    }
}

/// Two sequences whose elements match the predicate at the same positions
/// give the same first match.
pub proof fn lemma_find_first_same<T>(s: Seq<T>, t: Seq<T>, p: spec_fn(T) -> bool)
    requires
        s.len() == t.len(),
        forall|i: int| 0 <= i < s.len() ==> p(#[trigger] s[i]) == p(#[trigger] t[i]),
    ensures
        find_first(s, p) == find_first(t, p),
    decreases s.len(),
{
    if s.len() > 0 {
        assert(p(s[0]) == p(t[0]));
        if !p(s[0]) {
            assert forall|i: int| 0 <= i < s.drop_first().len() implies p(
                #[trigger] s.drop_first()[i],
            ) == p(#[trigger] t.drop_first()[i]) by {
                assert(s.drop_first()[i] == s[i + 1]);
                assert(t.drop_first()[i] == t[i + 1]);
            }
            lemma_find_first_same(s.drop_first(), t.drop_first(), p);
        }
    }
}

/// Filtering keeps nothing when no element matches.
pub proof fn lemma_filter_skip_all<T>(s: Seq<T>, p: spec_fn(T) -> bool)
    requires
        forall|i: int| 0 <= i < s.len() ==> !p(#[trigger] s[i]),
    ensures
        s.filter(p) == Seq::<T>::empty(),
    decreases s.len(),
{
    broadcast use vstd::seq_lib::group_filter_ensures;
    broadcast use Seq::<_>::lemma_filter_push;

    if s.len() == 0 {
        assert(s.filter(p).len() <= 0);
        assert(s.filter(p) =~= Seq::<T>::empty());
    } else {
        lemma_filter_skip_all(s.drop_last(), p);
        assert(s.drop_last().push(s.last()) =~= s);
        assert(s.drop_last().push(s.last()).filter(p) == s.drop_last().filter(p));
    }
}

/// Filtering keeps everything when every element matches.
pub proof fn lemma_filter_keep_all<T>(s: Seq<T>, p: spec_fn(T) -> bool)
    requires
        forall|i: int| 0 <= i < s.len() ==> p(#[trigger] s[i]),
    ensures
        s.filter(p) == s,
    decreases s.len(),
{
    broadcast use vstd::seq_lib::group_filter_ensures;
    broadcast use Seq::<_>::lemma_filter_push;

    if s.len() == 0 {
        assert(s.filter(p).len() <= 0);
        assert(s.filter(p) =~= s);
    } else {
        lemma_filter_keep_all(s.drop_last(), p);
        assert(s.drop_last().push(s.last()) =~= s);
        assert(s.drop_last().push(s.last()).filter(p) == s.drop_last().filter(p).push(s.last()));
        assert(s.drop_last().push(s.last()) == s.drop_last().filter(p).push(s.last()));
    }
}

} // verus!
