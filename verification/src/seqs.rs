//! Sequences put together from pieces, and sequences taken item by item.

use vstd::multiset::Multiset;
use vstd::prelude::*;

verus! {

/// The first `n` of the sequences that `f` numbers, one after the other.
pub open spec fn concat_upto<A>(f: spec_fn(int) -> Seq<A>, n: nat) -> Seq<A> {
    Seq::new(n, f).flatten()
}

/// One more sequence is added at the end.
pub proof fn lemma_concat_step<A>(f: spec_fn(int) -> Seq<A>, n: nat)
    ensures
        concat_upto(f, n + 1) == concat_upto(f, n) + f(n as int),
        concat_upto(f, 0) == Seq::<A>::empty(),
{
    assert(Seq::new(n + 1, f) =~= Seq::new(n, f).push(f(n as int)));
    Seq::new(n, f).lemma_flatten_push(f(n as int));
    assert(Seq::new(0, f) =~= Seq::<Seq<A>>::empty());
}

/// The first sequences that `f` numbers stand at the start of more of them.
pub proof fn lemma_concat_prefix<A>(f: spec_fn(int) -> Seq<A>, k: nat, n: nat)
    requires
        k <= n,
    ensures
        concat_upto(f, k).len() <= concat_upto(f, n).len(),
        concat_upto(f, n) == concat_upto(f, k) + concat_upto(f, n).skip(
            concat_upto(f, k).len() as int,
        ),
    decreases n - k,
{
    if k == n {
        assert(concat_upto(f, n) =~= concat_upto(f, k) + concat_upto(f, n).skip(
            concat_upto(f, k).len() as int,
        ));
    } else {
        lemma_concat_prefix(f, k, (n - 1) as nat);
        lemma_concat_step(f, (n - 1) as nat);
        assert(concat_upto(f, n) =~= concat_upto(f, k) + concat_upto(f, n).skip(
            concat_upto(f, k).len() as int,
        ));
    }
}

/// An item of one of the sequences that `f` numbers is an item of them all
/// put together.
pub proof fn lemma_concat_contains<A>(f: spec_fn(int) -> Seq<A>, n: nat, i: int, x: A)
    requires
        0 <= i < n,
        f(i).contains(x),
    ensures
        concat_upto(f, n).contains(x),
    decreases n,
{
    lemma_concat_step(f, (n - 1) as nat);
    let shorter = concat_upto(f, (n - 1) as nat);
    let longer = concat_upto(f, n);
    if i < n - 1 {
        lemma_concat_contains(f, (n - 1) as nat, i, x);
        let k = choose|k: int| 0 <= k < shorter.len() && shorter[k] == x;
        assert(longer[k] == x);
    } else {
        let piece = f(i);
        let k = choose|k: int| 0 <= k < piece.len() && piece[k] == x;
        assert(longer[shorter.len() + k] == x);
    }
}

/// One more item of a sequence is reached.
pub proof fn lemma_take_next<A>(s: Seq<A>, i: int)
    requires
        0 <= i < s.len(),
    ensures
        forall|x: A| #[trigger] s.take(i + 1).contains(x) <==> s.take(i).contains(x) || s[i] == x,
{
    let shorter = s.take(i);
    let longer = s.take(i + 1);
    assert forall|x: A| #[trigger] longer.contains(x) <==> shorter.contains(x) || s[i] == x by {
        if longer.contains(x) {
            let k = choose|k: int| 0 <= k < longer.len() && longer[k] == x;
            if k < i {
                assert(shorter[k] == x);
            }
        }
        if shorter.contains(x) {
            let k = choose|k: int| 0 <= k < shorter.len() && shorter[k] == x;
            assert(longer[k] == x);
        }
        if s[i] == x {
            assert(longer[i] == x);
        }
    }
}

/// No items make the empty multiset.
pub proof fn lemma_empty_multiset<A>()
    ensures
        Seq::<A>::empty().to_multiset() == Multiset::<A>::empty(),
        Multiset::<A>::empty().add(Multiset::<A>::empty()) == Multiset::<A>::empty(),
{
    broadcast use vstd::seq_lib::group_to_multiset_ensures;
    broadcast use vstd::multiset::group_multiset_axioms;

    assert(Seq::<A>::empty().to_multiset() =~= Multiset::<A>::empty());
    assert(Multiset::<A>::empty().add(Multiset::<A>::empty()) =~= Multiset::<A>::empty());
}

} // verus!
