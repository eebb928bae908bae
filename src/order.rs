use vstd::prelude::*;

verus! {

/// A value with a magnitude by which lists of it are ranked, largest first.
pub trait Ranked {
    spec fn rank(&self) -> nat;

    fn rank_of(&self) -> (r: u64)
        ensures
            r as nat == self.rank(),
    ;
}

/// Places `x` after every trailing element whose rank is below its own,
/// so that among equal ranks the earlier element stays first.
pub open spec fn insert_ranked<T: Ranked>(s: Seq<T>, x: T) -> Seq<T>
    decreases s.len(),
{
    if s.len() == 0 {
        seq![x]
    } else if s.last().rank() >= x.rank() {
        s.push(x)
    } else {
        insert_ranked(s.drop_last(), x).push(s.last())
    }
}

/// The stable ordering of `s` by descending rank.
pub open spec fn sort_ranked<T: Ranked>(s: Seq<T>) -> Seq<T>
    decreases s.len(),
{
    if s.len() == 0 {
        Seq::empty()
    } else {
        insert_ranked(sort_ranked(s.drop_last()), s.last())
    }
}

pub open spec fn descending<T: Ranked>(s: Seq<T>) -> bool {
    forall|i: int, j: int| 0 <= i < j < s.len() ==> s[i].rank() >= s[j].rank()
}

proof fn lemma_insert_at<T: Ranked>(s: Seq<T>, x: T, j: int)
    requires
        0 <= j <= s.len(),
        forall|k: int| j <= k < s.len() ==> (#[trigger] s[k]).rank() < x.rank(),
        j == 0 || s[j - 1].rank() >= x.rank(),
    ensures
        insert_ranked(s, x) == s.insert(j, x),
    decreases s.len(),
{
    if s.len() == 0 {
        assert(s.insert(j, x) =~= seq![x]);
    } else if j == s.len() {
        assert(s.insert(j, x) =~= s.push(x));
    } else {
        let s0 = s.drop_last();
        assert forall|k: int| j <= k < s0.len() implies (#[trigger] s0[k]).rank() < x.rank() by {
            assert(s0[k] == s[k]);
        }
        lemma_insert_at(s0, x, j);
        assert(s0.insert(j, x).push(s.last()) =~= s.insert(j, x));
    }
}

proof fn lemma_insert_descending<T: Ranked>(s: Seq<T>, x: T)
    requires
        descending(s),
    ensures
        descending(insert_ranked(s, x)),
        insert_ranked(s, x).len() == s.len() + 1,
        insert_ranked(s, x).to_multiset() == s.to_multiset().insert(x),
    decreases s.len(),
{
    broadcast use vstd::seq_lib::group_to_multiset_ensures;

    if s.len() == 0 {
        assert(seq![x] =~= Seq::<T>::empty().push(x));
    } else if s.last().rank() >= x.rank() {
    } else {
        let s0 = s.drop_last();
        let r0 = insert_ranked(s0, x);
        lemma_insert_descending(s0, x);
        assert(s0.push(s.last()) =~= s);
        let r = r0.push(s.last());
        assert forall|i: int, j: int| 0 <= i < j < r.len() implies r[i].rank() >= r[j].rank() by {
            if j == r.len() - 1 {
                lemma_insert_element(s0, x, i);
                if r[i] != x {
                    let k = choose|k: int| 0 <= k < s0.len() && r0[i] == #[trigger] s0[k];
                    assert(s0[k] == s[k]);
                }
            }
        }
    }
}

proof fn lemma_insert_descending_len<T: Ranked>(s: Seq<T>, x: T)
    ensures
        insert_ranked(s, x).len() == s.len() + 1,
    decreases s.len(),
{
    if s.len() > 0 && s.last().rank() < x.rank() {
        lemma_insert_descending_len(s.drop_last(), x);
    }
}

/// Each element of `insert_ranked(s, x)` is `x` or an element of `s`.
proof fn lemma_insert_element<T: Ranked>(s: Seq<T>, x: T, i: int)
    requires
        0 <= i < s.len() + 1,
    ensures
        insert_ranked(s, x)[i] == x || exists|k: int|
            0 <= k < s.len() && insert_ranked(s, x)[i] == #[trigger] s[k],
    decreases s.len(),
{
    lemma_insert_descending_len(s, x);
    if s.len() == 0 {
    } else if s.last().rank() >= x.rank() {
        if i < s.len() {
            assert(insert_ranked(s, x)[i] == s[i]);
        }
    } else {
        let s0 = s.drop_last();
        lemma_insert_descending_len(s0, x);
        if i < s.len() {
            lemma_insert_element(s0, x, i);
            if insert_ranked(s, x)[i] != x {
                let k = choose|k: int| 0 <= k < s0.len() && insert_ranked(s0, x)[i] == #[trigger] s0[k];
                assert(s[k] == s0[k]);
            }
        } else {
            assert(insert_ranked(s, x)[i] == s[s.len() - 1]);
        }
    }
}

/// Sorting by rank yields a descending list with the same elements.
pub proof fn lemma_sort_ranked<T: Ranked>(s: Seq<T>)
    ensures
        descending(sort_ranked(s)),
        sort_ranked(s).len() == s.len(),
        sort_ranked(s).to_multiset() == s.to_multiset(),
    decreases s.len(),
{
    broadcast use vstd::seq_lib::group_to_multiset_ensures;

    if s.len() > 0 {
        lemma_sort_ranked(s.drop_last());
        lemma_insert_descending(sort_ranked(s.drop_last()), s.last());
        assert(s.drop_last().push(s.last()) =~= s);
    }
}

/// Orders `v` by descending rank, keeping equal ranks in the order in which they arrive.
pub fn sort_by_rank<T: Ranked>(v: Vec<T>) -> (r: Vec<T>)
    ensures
        r@ == sort_ranked(v@),
{
    let ghost orig = v@;
    let mut out: Vec<T> = Vec::new();
    let mut rest = v;
    let ghost mut n: int = 0;
    while rest.len() > 0
        invariant
            0 <= n <= orig.len(),
            rest@ == orig.subrange(n, orig.len() as int),
            out@ == sort_ranked(orig.subrange(0, n)),
        decreases rest.len(),
    {
        let x = rest.remove(0);
        proof {
            lemma_insert_descending_len(out@, x);
        }
        let key = x.rank_of();
        let mut j = out.len();
        while j > 0 && out[j - 1].rank_of() < key
            invariant
                0 <= j <= out.len(),
                key as nat == x.rank(),
                forall|k: int| j <= k < out.len() ==> (#[trigger] out@[k]).rank() < x.rank(),
            decreases j,
        {
            j = j - 1;
        }
        proof {
            lemma_insert_at(out@, x, j as int);
            assert(orig.subrange(0, n + 1).drop_last() =~= orig.subrange(0, n));
            assert(orig.subrange(0, n + 1).last() == x);
            n = n + 1;
        }
        out.insert(j, x);
        assert(rest@ =~= orig.subrange(n, orig.len() as int));
    }
    assert(orig.subrange(0, n) =~= orig);
    out
}

} // verus!
