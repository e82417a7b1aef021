//! Lists in a fixed order: stable sorting, and keeping the first of each key.
use vstd::prelude::*;

verus! {

// ---------------------------------------------------------------------------
// Stable sorting
// ---------------------------------------------------------------------------

/// Values that are listed by rank.
pub trait Ranked: Sized {
    /// Whether `self` ranks strictly before `other`.
    spec fn before(self, other: Self) -> bool;

    /// Whether `self` ranks strictly before `other`.
    fn ranks_before(&self, other: &Self) -> (r: bool)
        ensures
            r == self.before(*other),
    ;

    /// No two values rank before each other.
    proof fn rank_is_asymmetric(a: Self, b: Self)
        ensures
            !(a.before(b) && b.before(a)),
    ;

    /// Not ranking before carries over.
    proof fn rank_is_negatively_transitive(a: Self, b: Self, c: Self)
        requires
            !a.before(b),
            !b.before(c),
        ensures
            !a.before(c),
    ;
}

/// The place of `x` in the ranked list `s`: behind every value that it does not rank before.
pub open spec fn place_of<T: Ranked>(s: Seq<T>, x: T) -> int
    decreases s.len(),
{
    if s.len() > 0 && x.before(s.last()) {
        place_of(s.drop_last(), x)
    } else {
        s.len() as int
    }
}

/// The values of `s` by rank; values of equal rank stay in the order of `s`.
pub open spec fn ranked<T: Ranked>(s: Seq<T>) -> Seq<T>
    decreases s.len(),
{
    if s.len() == 0 {
        s
    } else {
        let rest = ranked(s.drop_last());
        rest.insert(place_of(rest, s.last()), s.last())
    }
}

/// Whether no value of `s` ranks before one that stands earlier.
pub open spec fn is_ranked<T: Ranked>(s: Seq<T>) -> bool {
    forall|i: int, j: int| 0 <= i < j < s.len() ==> !(#[trigger] s[j]).before(#[trigger] s[i])
}

/// Whether neither of the two ranks before the other.
pub open spec fn same_rank<T: Ranked>(a: T, b: T) -> bool {
    !a.before(b) && !b.before(a)
}

/// The values by rank; values of equal rank stay in the order in which they came.
pub fn rank_list<T: Ranked>(values: Vec<T>) -> (r: Vec<T>)
    ensures
        r@ == ranked(values@),
{
    let ghost all = values@;
    let mut out: Vec<T> = Vec::new();
    let ghost mut done: int = 0;
    for x in it: values
        invariant
            it.seq() == all,
            done == it.index(),
            out@ == ranked(all.take(done)),
    {
        proof {
            lemma_ranked_keeps_values(all.take(done));
            done = done + 1;
            assert(all.take(done).drop_last() == all.take(done - 1));
        }
        let mut place: usize = out.len();
        assert(out@.take(place as int) == out@);
        while place > 0 && x.ranks_before(&out[place - 1])
            invariant
                place <= out@.len(),
                place_of(out@, x) == place_of(out@.take(place as int), x),
            decreases place,
        {
            assert(out@.take(place as int).drop_last() == out@.take(place - 1));
            place -= 1;
        }
        out.insert(place, x);
    }
    assert(all.take(done) == all);
    out
}

proof fn lemma_place_in_range<T: Ranked>(s: Seq<T>, x: T)
    ensures
        0 <= place_of(s, x) <= s.len(),
        place_of(s, x) > 0 ==> !x.before(s[place_of(s, x) - 1]),
        forall|i: int| place_of(s, x) <= i < s.len() ==> x.before(#[trigger] s[i]),
    decreases s.len(),
{
    if s.len() > 0 && x.before(s.last()) {
        lemma_place_in_range(s.drop_last(), x);
        assert forall|i: int| place_of(s, x) <= i < s.len() implies x.before(#[trigger] s[i]) by {
            if i < s.len() - 1 {
                assert(s.drop_last()[i] == s[i]);
            }
        }
    }
}

proof fn lemma_ranked_keeps_values<T: Ranked>(s: Seq<T>)
    ensures
        ranked(s).to_multiset() == s.to_multiset(),
        ranked(s).len() == s.len(),
    decreases s.len(),
{
    if s.len() > 0 {
        let rest = ranked(s.drop_last());
        lemma_ranked_keeps_values(s.drop_last());
        lemma_place_in_range(rest, s.last());
        vstd::seq_lib::to_multiset_insert(rest, place_of(rest, s.last()), s.last());
        vstd::seq_lib::to_multiset_build(s.drop_last(), s.last());
        assert(s.drop_last().push(s.last()) == s);
    }
}

/// Ranking a list neither loses nor adds a value.
pub proof fn ranking_is_a_permutation<T: Ranked>(s: Seq<T>)
    ensures
        ranked(s).to_multiset() == s.to_multiset(),
        ranked(s).len() == s.len(),
{
    lemma_ranked_keeps_values(s);
}

/// In a ranked list nothing ranks before what stands earlier.
pub proof fn ranking_orders_by_rank<T: Ranked>(s: Seq<T>)
    ensures
        is_ranked(ranked(s)),
    decreases s.len(),
{
    if s.len() > 0 {
        let rest = ranked(s.drop_last());
        let x = s.last();
        let place = place_of(rest, x);
        let out = ranked(s);
        ranking_orders_by_rank(s.drop_last());
        lemma_place_in_range(rest, x);
        assert forall|i: int, j: int| 0 <= i < j < out.len() implies !(#[trigger] out[j]).before(
            #[trigger] out[i],
        ) by {
            let a = if i < place {
                i
            } else {
                i - 1
            };
            let b = if j < place {
                j
            } else {
                j - 1
            };
            if i == place {
                assert(out[j] == rest[b]);
                T::rank_is_asymmetric(x, rest[b]);
            } else if j == place {
                assert(out[i] == rest[a]);
                if a < place - 1 {
                    assert(!rest[place - 1].before(rest[a]));
                    T::rank_is_negatively_transitive(x, rest[place - 1], rest[a]);
                }
            } else {
                assert(out[i] == rest[a] && out[j] == rest[b]);
            }
        }
    }
}

/// Ranking is stable: values of one rank keep the order in which they came.
pub proof fn ranking_is_stable<T: Ranked>(s: Seq<T>, x: T)
    ensures
        ranked(s).filter(|e: T| same_rank(e, x)) == s.filter(|e: T| same_rank(e, x)),
    decreases s.len(),
{
    let like_x = |e: T| same_rank(e, x);
    if s.len() > 0 {
        let rest = ranked(s.drop_last());
        let last = s.last();
        let place = place_of(rest, last);
        ranking_is_stable(s.drop_last(), x);
        lemma_place_in_range(rest, last);
        let head = rest.take(place);
        let tail = rest.skip(place);
        assert(rest == head + tail);
        assert(ranked(s) == head + (seq![last] + tail));
        Seq::filter_distributes_over_add(head, tail, like_x);
        Seq::filter_distributes_over_add(head, seq![last] + tail, like_x);
        Seq::filter_distributes_over_add(seq![last], tail, like_x);
        reveal(Seq::filter);
        assert(seq![last].drop_last() == Seq::<T>::empty());
        assert(Seq::<T>::empty().filter(like_x) == Seq::<T>::empty());
        if like_x(last) {
            assert forall|e: T| tail.contains(e) implies !like_x(e) by {
                let k = choose|k: int| 0 <= k < tail.len() && tail[k] == e;
                assert(tail[k] == rest[place + k]);
                if like_x(e) {
                    T::rank_is_negatively_transitive(last, x, e);
                }
            }
            assert forall|i: int| 0 <= i < tail.len() implies !like_x(#[trigger] tail[i]) by {
                assert(tail.contains(tail[i]));
            }
            tail.lemma_all_neg_filter_empty(like_x);
            assert(seq![last].filter(like_x) =~= seq![last]);
            assert(ranked(s).filter(like_x) =~= rest.filter(like_x).push(last));
        } else {
            assert(seq![last].filter(like_x) =~= Seq::<T>::empty());
            assert(ranked(s).filter(like_x) =~= rest.filter(like_x));
        }
    }
}

// ---------------------------------------------------------------------------
// The first of each key
// ---------------------------------------------------------------------------

/// Whether some value of `s` has the key `k`.
pub open spec fn has_key<T, K>(s: Seq<T>, key: spec_fn(T) -> K, k: K) -> bool {
    exists|i: int| 0 <= i < s.len() && key(#[trigger] s[i]) == k
}

/// The values of `s` whose key no earlier value has, in the order of `s`.
pub open spec fn first_per_key<T, K>(s: Seq<T>, key: spec_fn(T) -> K) -> Seq<T>
    decreases s.len(),
{
    if s.len() == 0 {
        s
    } else {
        let rest = first_per_key(s.drop_last(), key);
        if has_key(s.drop_last(), key, key(s.last())) {
            rest
        } else {
            rest.push(s.last())
        }
    }
}

/// Keeping the first of each key keeps every key, each one once, and only values of the list.
pub proof fn first_per_key_keeps_each_key_once<T, K>(s: Seq<T>, key: spec_fn(T) -> K)
    ensures
        forall|k: K| #[trigger] has_key(first_per_key(s, key), key, k) == has_key(s, key, k),
        forall|i: int, j: int|
            0 <= i < j < first_per_key(s, key).len() ==> key(#[trigger] first_per_key(s, key)[i])
                != key(#[trigger] first_per_key(s, key)[j]),
        forall|i: int|
            0 <= i < first_per_key(s, key).len() ==> s.contains(
                #[trigger] first_per_key(s, key)[i],
            ),
        s.len() > 0 ==> first_per_key(s, key).len() > 0 && first_per_key(s, key)[0] == s[0],
        first_per_key(s, key).len() <= s.len(),
    decreases s.len(),
{
    if s.len() > 0 {
        let before = s.drop_last();
        let rest = first_per_key(before, key);
        let out = first_per_key(s, key);
        first_per_key_keeps_each_key_once(before, key);
        assert forall|k: K| #[trigger] has_key(out, key, k) == has_key(s, key, k) by {
            assert(has_key(rest, key, k) == has_key(before, key, k));
            if has_key(out, key, k) {
                let i = choose|i: int| 0 <= i < out.len() && key(#[trigger] out[i]) == k;
                if i < rest.len() {
                    assert(key(rest[i]) == k);
                    let j = choose|j: int| 0 <= j < before.len() && key(#[trigger] before[j]) == k;
                    assert(key(s[j]) == k);
                } else {
                    assert(key(s[s.len() - 1]) == k);
                }
            }
            if has_key(s, key, k) {
                let i = choose|i: int| 0 <= i < s.len() && key(#[trigger] s[i]) == k;
                if i < before.len() {
                    assert(key(before[i]) == k);
                    let j = choose|j: int| 0 <= j < rest.len() && key(#[trigger] rest[j]) == k;
                    assert(key(out[j]) == k);
                } else if has_key(before, key, k) {
                    let j = choose|j: int| 0 <= j < rest.len() && key(#[trigger] rest[j]) == k;
                    assert(key(out[j]) == k);
                } else {
                    assert(key(out[out.len() - 1]) == k);
                }
            }
        }
        assert forall|i: int| 0 <= i < out.len() implies s.contains(#[trigger] out[i]) by {
            if i < rest.len() {
                assert(before.contains(rest[i]));
                let j = choose|j: int| 0 <= j < before.len() && before[j] == rest[i];
                assert(s[j] == out[i]);
            } else {
                assert(s[s.len() - 1] == out[i]);
            }
        }
        assert forall|i: int, j: int| 0 <= i < j < out.len() implies key(#[trigger] out[i]) != key(
            #[trigger] out[j],
        ) by {
            if j == rest.len() && key(out[i]) == key(out[j]) {
                assert(key(rest[i]) == key(s.last()));
                assert(has_key(rest, key, key(s.last())));
            }
        }
        if before.len() == 0 {
            assert(!has_key(before, key, key(s.last())));
        }
    }
}

// ---------------------------------------------------------------------------
// Answers that come in at any time
// ---------------------------------------------------------------------------

proof fn lemma_ranked_lists_agree<T: Ranked>(p: Seq<T>, q: Seq<T>)
    requires
        is_ranked(p),
        is_ranked(q),
        p.to_multiset() == q.to_multiset(),
        forall|x: T, y: T|
            p.contains(x) && p.contains(y) && x != y ==> #[trigger] x.before(y) || y.before(x),
    ensures
        p == q,
    decreases p.len(),
{
    broadcast use vstd::seq_lib::group_to_multiset_ensures;

    vstd::seq_lib::to_multiset_len(p);
    vstd::seq_lib::to_multiset_len(q);
    if p.len() > 0 {
        let x = p.last();
        let y = q.last();
        assert(p.contains(x));
        assert(q.contains(y));
        assert(q.to_multiset().contains(y));
        assert(p.contains(y));
        assert(p.to_multiset().contains(x));
        assert(q.contains(x));
        if x != y {
            let i = choose|i: int| 0 <= i < p.len() && p[i] == y;
            let j = choose|j: int| 0 <= j < q.len() && q[j] == x;
            assert(!p[p.len() - 1].before(p[i]));
            assert(!q[q.len() - 1].before(q[j]));
            assert(x.before(y) || y.before(x));
        }
        let pp = p.drop_last();
        let qq = q.drop_last();
        vstd::seq_lib::to_multiset_build(pp, x);
        vstd::seq_lib::to_multiset_build(qq, x);
        assert(pp.push(x) =~= p);
        assert(qq.push(x) =~= q);
        assert(p.to_multiset().remove(x) =~= pp.to_multiset());
        assert(q.to_multiset().remove(x) =~= qq.to_multiset());
        assert forall|i: int, j: int| 0 <= i < j < pp.len() implies !(#[trigger] pp[j]).before(
            #[trigger] pp[i],
        ) by {
            assert(!p[j].before(p[i]));
        }
        assert forall|i: int, j: int| 0 <= i < j < qq.len() implies !(#[trigger] qq[j]).before(
            #[trigger] qq[i],
        ) by {
            assert(!q[j].before(q[i]));
        }
        assert forall|a: T, b: T| pp.contains(a) && pp.contains(b) && a != b implies
            #[trigger] a.before(b) || b.before(a) by {
            let i = choose|i: int| 0 <= i < pp.len() && pp[i] == a;
            let j = choose|j: int| 0 <= j < pp.len() && pp[j] == b;
            assert(p[i] == a && p[j] == b);
            assert(p.contains(a) && p.contains(b));
        }
        lemma_ranked_lists_agree(pp, qq);
    } else {
        assert(p =~= q);
    }
}

/// Where different values have different ranks, the order in which they come does not matter.
pub proof fn ranking_depends_on_the_values_only<T: Ranked>(s: Seq<T>, t: Seq<T>)
    requires
        s.to_multiset() == t.to_multiset(),
        forall|x: T, y: T|
            s.contains(x) && s.contains(y) && x != y ==> #[trigger] x.before(y) || y.before(x),
    ensures
        ranked(s) == ranked(t),
{
    broadcast use vstd::seq_lib::group_to_multiset_ensures;

    ranking_is_a_permutation(s);
    ranking_is_a_permutation(t);
    ranking_orders_by_rank(s);
    ranking_orders_by_rank(t);
    assert forall|x: T, y: T|
        ranked(s).contains(x) && ranked(s).contains(y) && x != y implies #[trigger] x.before(y)
        || y.before(x) by {
        assert(ranked(s).to_multiset().contains(x));
        assert(ranked(s).to_multiset().contains(y));
        assert(s.contains(x) && s.contains(y));
    }
    lemma_ranked_lists_agree(ranked(s), ranked(t));
}

/// The answer to the request with the number `index`; a request that failed has no value.
pub struct Indexed<T> {
    pub index: usize,
    pub value: Option<T>,
}

impl<T> Ranked for Indexed<T> {
    open spec fn before(self, other: Self) -> bool {
        self.index < other.index
    }

    fn ranks_before(&self, other: &Self) -> (r: bool) {
        self.index < other.index
    }

    proof fn rank_is_asymmetric(a: Self, b: Self) {
    }

    proof fn rank_is_negatively_transitive(a: Self, b: Self, c: Self) {
    }
}

/// The values of the answers, by number.
pub open spec fn values_in_order<T>(answers: Seq<Indexed<T>>) -> Seq<T> {
    ranked(answers).filter_map(|answer: Indexed<T>| answer.value)
}

/// The values of the answers, by number. Requests that failed are left out.
pub fn in_request_order<T>(answers: Vec<Indexed<T>>) -> (r: Vec<T>)
    ensures
        r@ == values_in_order(answers@),
{
    let listed: Vec<Indexed<T>> = rank_list(answers);
    let ghost all = listed@;
    let ghost value = |answer: Indexed<T>| answer.value;
    let mut out: Vec<T> = Vec::new();
    let ghost mut done: int = 0;
    for answer in it: listed
        invariant
            it.seq() == all,
            done == it.index(),
            value == |answer: Indexed<T>| answer.value,
            out@ == all.take(done).filter_map(value),
    {
        proof {
            done = done + 1;
            assert(all.take(done).drop_last() == all.take(done - 1));
        }
        let ghost before = out@;
        if let Some(found) = answer.value {
            out.push(found);
            assert(out@ =~= before + seq![found]);
        }
    }
    assert(all.take(done) == all);
    out
}

/// The order in which answers come in does not matter where no two requests share a number.
pub proof fn arrival_order_does_not_matter<T>(s: Seq<Indexed<T>>, t: Seq<Indexed<T>>)
    requires
        s.to_multiset() == t.to_multiset(),
        forall|i: int, j: int|
            0 <= i < j < s.len() ==> (#[trigger] s[i]).index != (#[trigger] s[j]).index,
    ensures
        values_in_order(s) == values_in_order(t),
{
    assert forall|x: Indexed<T>, y: Indexed<T>|
        s.contains(x) && s.contains(y) && x != y implies #[trigger] x.before(y) || y.before(x) by {
        let i = choose|i: int| 0 <= i < s.len() && s[i] == x;
        let j = choose|j: int| 0 <= j < s.len() && s[j] == y;
        assert(s[i].index != s[j].index);
    }
    ranking_depends_on_the_values_only(s, t);
}

// ---------------------------------------------------------------------------
// What a list keeps of another
// ---------------------------------------------------------------------------

/// Whether `places` are the places below `n` that `chosen` holds of: all of them, in order.
pub open spec fn are_places(places: Seq<int>, n: int, chosen: spec_fn(int) -> bool) -> bool {
    &&& forall|i: int, j: int|
        0 <= i < j < places.len() ==> (#[trigger] places[i]) < (#[trigger] places[j])
    &&& forall|k: int| #[trigger] places.contains(k) <==> (0 <= k < n && chosen(k))
}

pub(crate) proof fn lemma_no_places(chosen: spec_fn(int) -> bool)
    ensures
        are_places(Seq::<int>::empty(), 0, chosen),
{
}

pub(crate) proof fn lemma_place_is_chosen(
    places: Seq<int>,
    n: int,
    chosen: spec_fn(int) -> bool,
    i: int,
)
    requires
        are_places(places, n, chosen),
        0 <= i < places.len(),
    ensures
        0 <= places[i] < n,
        chosen(places[i]),
{
    assert(places.contains(places[i]));
}

pub(crate) proof fn lemma_same_places(
    places: Seq<int>,
    n: int,
    before: spec_fn(int) -> bool,
    chosen: spec_fn(int) -> bool,
)
    requires
        are_places(places, n, before),
        forall|k: int| 0 <= k < n ==> #[trigger] before(k) == chosen(k),
    ensures
        are_places(places, n, chosen),
{
    assert forall|k: int| #[trigger] places.contains(k) <==> (0 <= k < n && chosen(k)) by {
        if 0 <= k < n {
            assert(before(k) == chosen(k));
        }
    }
}

pub(crate) proof fn lemma_next_place(
    places: Seq<int>,
    n: int,
    before: spec_fn(int) -> bool,
    chosen: spec_fn(int) -> bool,
) -> (next: Seq<int>)
    requires
        0 <= n,
        are_places(places, n, before),
        forall|k: int| 0 <= k < n ==> #[trigger] before(k) == chosen(k),
    ensures
        are_places(next, n + 1, chosen),
        next == if chosen(n) {
            places.push(n)
        } else {
            places
        },
{
    lemma_same_places(places, n, before, chosen);
    if chosen(n) {
        let next = places.push(n);
        assert forall|i: int, j: int| 0 <= i < j < next.len() implies (#[trigger] next[i]) < (
        #[trigger] next[j]) by {
            assert(places.contains(places[i]));
        }
        assert forall|k: int| #[trigger] next.contains(k) <==> (0 <= k < n + 1 && chosen(k)) by {
            if next.contains(k) {
                let i = choose|i: int| 0 <= i < next.len() && next[i] == k;
                if i < places.len() {
                    assert(places[i] == k);
                    assert(places.contains(k));
                }
            }
            if 0 <= k < n && chosen(k) {
                assert(places.contains(k));
                let i = choose|i: int| 0 <= i < places.len() && places[i] == k;
                assert(next[i] == k);
            }
            if k == n {
                assert(next[places.len() as int] == k);
            }
        }
        next
    } else {
        assert forall|k: int| #[trigger] places.contains(k) <==> (0 <= k < n + 1 && chosen(k)) by {
        }
        places
    }
}

/// What is left of a list are the values that are wanted: all of them, in the order of the list.
pub proof fn filtering_keeps_what_is_wanted<T>(s: Seq<T>, wanted: spec_fn(T) -> bool) -> (places:
    Seq<int>)
    ensures
        are_places(places, s.len() as int, |k: int| wanted(s[k])),
        s.filter(wanted).len() == places.len(),
        forall|i: int|
            0 <= i < places.len() ==> 0 <= #[trigger] places[i] < s.len() && s.filter(wanted)[i]
                == s[places[i]],
    decreases s.len(),
{
    reveal(Seq::filter);
    let chosen = |k: int| wanted(s[k]);
    if s.len() == 0 {
        lemma_no_places(chosen);
        Seq::empty()
    } else {
        let rest = s.drop_last();
        let before = |k: int| wanted(rest[k]);
        let places = filtering_keeps_what_is_wanted(rest, wanted);
        assert forall|k: int| 0 <= k < rest.len() implies #[trigger] before(k) == chosen(k) by {
            assert(rest[k] == s[k]);
        }
        let next = lemma_next_place(places, rest.len() as int, before, chosen);
        assert forall|i: int| 0 <= i < next.len() implies 0 <= #[trigger] next[i] < s.len()
            && s.filter(wanted)[i] == s[next[i]] by {
            lemma_place_is_chosen(next, s.len() as int, chosen, i);
            if i < places.len() {
                assert(rest.filter(wanted)[i] == rest[places[i]]);
            }
        }
        next
    }
}

/// What is picked out of a list are the values that there is something to pick of: all of them, in
/// the order of the list.
pub proof fn picking_takes_all_there_is<T, U>(s: Seq<T>, pick: spec_fn(T) -> Option<U>) -> (places:
    Seq<int>)
    ensures
        are_places(places, s.len() as int, |k: int| pick(s[k]) is Some),
        s.filter_map(pick).len() == places.len(),
        forall|i: int|
            0 <= i < places.len() ==> 0 <= #[trigger] places[i] < s.len() && Some(
                s.filter_map(pick)[i],
            ) == pick(s[places[i]]),
    decreases s.len(),
{
    let chosen = |k: int| pick(s[k]) is Some;
    if s.len() == 0 {
        lemma_no_places(chosen);
        assert(s.filter_map(pick) =~= Seq::<U>::empty());
        Seq::empty()
    } else {
        let rest = s.drop_last();
        let before = |k: int| pick(rest[k]) is Some;
        let places = picking_takes_all_there_is(rest, pick);
        assert forall|k: int| 0 <= k < rest.len() implies #[trigger] before(k) == chosen(k) by {
            assert(rest[k] == s[k]);
        }
        let next = lemma_next_place(places, rest.len() as int, before, chosen);
        let out = s.filter_map(pick);
        let short = rest.filter_map(pick);
        match pick(s.last()) {
            Some(value) => {
                assert(out =~= short.push(value));
            },
            None => {
                assert(out =~= short);
            },
        }
        assert forall|i: int| 0 <= i < next.len() implies 0 <= #[trigger] next[i] < s.len()
            && Some(s.filter_map(pick)[i]) == pick(s[next[i]]) by {
            lemma_place_is_chosen(next, s.len() as int, chosen, i);
            if i < places.len() {
                assert(Some(short[i]) == pick(rest[places[i]]));
            }
        }
        next
    }
}

/// Of the values with one key the first is kept, and the values that are kept stay in the order of
/// the list.
pub proof fn the_first_of_each_key_is_kept<T, K>(s: Seq<T>, key: spec_fn(T) -> K) -> (places: Seq<
    int,
>)
    ensures
        are_places(
            places,
            s.len() as int,
            |k: int| forall|m: int| 0 <= m < k ==> key(#[trigger] s[m]) != key(s[k]),
        ),
        first_per_key(s, key).len() == places.len(),
        forall|i: int| 0 <= i < places.len() ==> 0 <= #[trigger] places[i] < s.len(),
        forall|i: int|
            0 <= i < places.len() ==> first_per_key(s, key)[i] == s[#[trigger] places[i]],
    decreases s.len(),
{
    let chosen = |k: int| forall|m: int| 0 <= m < k ==> key(#[trigger] s[m]) != key(s[k]);
    if s.len() == 0 {
        lemma_no_places(chosen);
        let none = Seq::<int>::empty();
        assert(none.len() == 0);
        none
    } else {
        let rest = s.drop_last();
        let before = |k: int|
            forall|m: int| 0 <= m < k ==> key(#[trigger] rest[m]) != key(rest[k]);
        let places = the_first_of_each_key_is_kept(rest, key);
        assert forall|k: int| 0 <= k < rest.len() implies #[trigger] before(k) == chosen(k) by {
            assert(forall|m: int| 0 <= m <= k ==> #[trigger] rest[m] == s[m]);
            if before(k) {
                assert forall|m: int| 0 <= m < k implies key(#[trigger] s[m]) != key(s[k]) by {
                    assert(key(rest[m]) != key(rest[k]));
                }
            }
            if chosen(k) {
                assert forall|m: int| 0 <= m < k implies key(#[trigger] rest[m])
                    != key(rest[k]) by {
                    assert(key(s[m]) != key(s[k]));
                }
            }
        }
        let n = rest.len() as int;
        let next = lemma_next_place(places, n, before, chosen);
        assert(has_key(rest, key, key(s.last())) == !chosen(n)) by {
            if has_key(rest, key, key(s.last())) {
                let m = choose|m: int| 0 <= m < rest.len() && key(#[trigger] rest[m]) == key(
                    s.last(),
                );
                assert(key(s[m]) == key(s[n]));
            }
            if !chosen(n) {
                let m = choose|m: int| 0 <= m < n && key(#[trigger] s[m]) == key(s[n]);
                assert(key(rest[m]) == key(s.last()));
            }
        }
        let out = first_per_key(s, key);
        assert(out == if chosen(n) {
            first_per_key(rest, key).push(s.last())
        } else {
            first_per_key(rest, key)
        });
        assert forall|i: int| 0 <= i < next.len() implies 0 <= #[trigger] next[i] < s.len()
            && out[i] == s[next[i]] by {
            lemma_place_is_chosen(next, s.len() as int, chosen, i);
            if i < places.len() {
                assert(first_per_key(rest, key)[i] == rest[places[i]]);
            }
        }
        next
    }
}

/// Ranking keeps each value and adds none: each value of the one list stands in the other.
pub proof fn ranking_keeps_each_value<T: Ranked>(s: Seq<T>, i: int)
    requires
        0 <= i < s.len(),
    ensures
        ranked(s).contains(s[i]),
        s.contains(ranked(s)[i]),
        ranked(s).len() == s.len(),
{
    broadcast use vstd::seq_lib::group_to_multiset_ensures;

    ranking_is_a_permutation(s);
    assert(s.contains(s[i]));
    assert(s.to_multiset().contains(s[i]));
    assert(ranked(s).contains(ranked(s)[i]));
    assert(ranked(s).to_multiset().contains(ranked(s)[i]));
}

/// The values of the answers stand by the numbers of the requests: each request that did not fail
/// has its value among them, no other value is, and no value stands before one of a smaller
/// number.
pub proof fn answers_stand_by_number<T>(answers: Seq<Indexed<T>>) -> (r: (
    Seq<Indexed<T>>,
    Seq<int>,
))
    ensures
        r.0.to_multiset() == answers.to_multiset(),
        forall|i: int, j: int|
            0 <= i < j < r.0.len() ==> (#[trigger] r.0[i]).index <= (#[trigger] r.0[j]).index,
        are_places(r.1, r.0.len() as int, |k: int| r.0[k].value is Some),
        values_in_order(answers).len() == r.1.len(),
        forall|i: int|
            0 <= i < r.1.len() ==> Some(#[trigger] values_in_order(answers)[i])
                == r.0[r.1[i]].value,
{
    let listed = ranked(answers);
    ranking_is_a_permutation(answers);
    ranking_orders_by_rank(answers);
    let value = |answer: Indexed<T>| answer.value;
    let places = picking_takes_all_there_is(listed, value);
    lemma_same_places(
        places,
        listed.len() as int,
        |k: int| value(listed[k]) is Some,
        |k: int| listed[k].value is Some,
    );
    assert forall|i: int, j: int| 0 <= i < j < listed.len() implies (#[trigger] listed[i]).index
        <= (#[trigger] listed[j]).index by {
        assert(!listed[j].before(listed[i]));
    }
    (listed, places)
}

} // verus!
