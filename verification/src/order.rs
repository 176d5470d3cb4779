use vstd::prelude::*;

verus! {

/// Whether a relation can rank values: any two values compare one way or the other,
/// and the relation is transitive. Two values may tie.
pub open spec fn is_ranking<T>(leq: spec_fn(T, T) -> bool) -> bool {
    &&& forall|x: T, y: T| #[trigger] leq(x, y) || #[trigger] leq(y, x)
    &&& forall|x: T, y: T, z: T| #[trigger] leq(x, y) && #[trigger] leq(y, z) ==> leq(x, z)
}

/// Whether every value of a sequence may stand before all that follow it.
pub open spec fn in_order<T>(s: Seq<T>, leq: spec_fn(T, T) -> bool) -> bool {
    forall|i: int, j: int| #![trigger s[i], s[j]] 0 <= i < j < s.len() ==> leq(s[i], s[j])
}

/// The values that tie with `x`.
pub open spec fn tied_with<T>(leq: spec_fn(T, T) -> bool, x: T) -> spec_fn(T) -> bool {
    |y: T| leq(x, y) && leq(y, x)
}

/// The values of a sequence that tie with `x`, in the order in which they stand.
pub open spec fn peers<T>(s: Seq<T>, leq: spec_fn(T, T) -> bool, x: T) -> Seq<T> {
    s.filter(tied_with(leq, x))
}

/// Whether `out` is `input` sorted without disturbing ties: it is in order, and values
/// that tie stand in it as they stood in `input`, each as often and in the same order.
pub open spec fn is_stable_sort_of<T>(out: Seq<T>, input: Seq<T>, leq: spec_fn(T, T) -> bool) -> bool {
    &&& in_order(out, leq)
    &&& forall|x: T| #[trigger] peers(out, leq, x) == peers(input, leq, x)
}

proof fn lemma_filter_none<T>(s: Seq<T>, pred: spec_fn(T) -> bool)
    requires
        forall|i: int| 0 <= i < s.len() ==> !pred(#[trigger] s[i]),
    ensures
        s.filter(pred) == Seq::<T>::empty(),
    decreases s.len(),
{
    reveal(Seq::filter);
    if s.len() > 0 {
        let rest = s.drop_last();
        assert forall|i: int| 0 <= i < rest.len() implies !pred(#[trigger] rest[i]) by {
            assert(rest[i] == s[i]);
        }
        lemma_filter_none(rest, pred);
    }
}

/// Placing a value into a sorted sequence, behind everything that must stand before
/// it and in front of everything else, keeps the sequence sorted; and if the sequence
/// was a stable sort of `done`, the result is one of `done` with the value in front.
pub proof fn lemma_place_in_front<T>(
    out: Seq<T>,
    done: Seq<T>,
    x: T,
    p: int,
    leq: spec_fn(T, T) -> bool,
)
    requires
        is_ranking(leq),
        is_stable_sort_of(out, done, leq),
        0 <= p <= out.len(),
        forall|k: int| 0 <= k < p ==> !leq(x, #[trigger] out[k]),
        p < out.len() ==> leq(x, out[p]),
    ensures
        is_stable_sort_of(out.insert(p, x), seq![x] + done, leq),
{
    let placed = out.insert(p, x);
    let head = out.subrange(0, p);
    let tail = out.subrange(p, out.len() as int);
    assert(out =~= head + tail);
    assert(placed =~= head + seq![x] + tail);
    assert forall|k: int| p <= k < out.len() implies leq(x, #[trigger] out[k]) by {
        if k > p {
            assert(leq(out[p], out[k]));
        }
    }
    assert forall|i: int, j: int| #![trigger placed[i], placed[j]] 0 <= i < j < placed.len()
        implies leq(placed[i], placed[j]) by {
        if j < p {
            assert(leq(out[i], out[j]));
        } else if j == p {
            assert(!leq(x, out[i]));
        } else if i < p {
            assert(leq(out[i], out[j - 1]));
        } else if i == p {
            assert(leq(x, out[j - 1]));
        } else {
            assert(leq(out[i - 1], out[j - 1]));
        }
    }
    assert forall|y: T| #[trigger] peers(placed, leq, y) == peers(seq![x] + done, leq, y) by {
        let tie = tied_with(leq, y);
        assert(peers(out, leq, y) == peers(done, leq, y));
        Seq::filter_distributes_over_add(head, tail, tie);
        Seq::filter_distributes_over_add(head + seq![x], tail, tie);
        Seq::filter_distributes_over_add(head, seq![x], tie);
        Seq::filter_distributes_over_add(seq![x], done, tie);
        Seq::<T>::empty().lemma_filter_push(x, tie);
        assert(Seq::<T>::empty().filter(tie) =~= Seq::<T>::empty()) by {
            reveal(Seq::filter);
        }
        if tie(x) {
            assert forall|k: int| 0 <= k < head.len() implies !tie(#[trigger] head[k]) by {
                if tie(head[k]) {
                    assert(leq(x, y) && leq(y, out[k]));
                }
            }
            lemma_filter_none(head, tie);
        }
    }
}

/// The place of a value in a sorted sequence: behind the values at the front that
/// must stand before it, counted from the front.
pub open spec fn first_place<T>(s: Seq<T>, x: T, leq: spec_fn(T, T) -> bool) -> nat
    decreases s.len(),
{
    if s.len() == 0 || leq(x, s[0]) {
        0
    } else {
        1 + first_place(s.drop_first(), x, leq)
    }
}

/// A sequence sorted without disturbing ties: its values are placed one by one, from
/// the last to the first, each in front of the values that it may stand before.
pub open spec fn stable_sorted<T>(s: Seq<T>, leq: spec_fn(T, T) -> bool) -> Seq<T>
    decreases s.len(),
{
    if s.len() == 0 {
        s
    } else {
        let rest = stable_sorted(s.drop_first(), leq);
        rest.insert(first_place(rest, s[0], leq) as int, s[0])
    }
}

/// The place of a value lies within the sequence, the values in front of it must
/// stand before the value, and the value may stand before the one at its place.
pub proof fn lemma_first_place<T>(s: Seq<T>, x: T, leq: spec_fn(T, T) -> bool)
    ensures
        first_place(s, x, leq) <= s.len(),
        forall|k: int| 0 <= k < first_place(s, x, leq) ==> !leq(x, #[trigger] s[k]),
        first_place(s, x, leq) < s.len() ==> leq(x, s[first_place(s, x, leq) as int]),
    decreases s.len(),
{
    if !(s.len() == 0 || leq(x, s[0])) {
        let rest = s.drop_first();
        lemma_first_place(rest, x, leq);
        assert forall|k: int| 0 <= k < first_place(s, x, leq) implies !leq(x, #[trigger] s[k]) by {
            if k > 0 {
                assert(rest[k - 1] == s[k]);
            }
        }
    }
}

/// Sorting without disturbing ties yields a sequence that is in order and in which
/// values that tie stand as they stood; it holds the same values, each as often; and
/// it leaves a sequence that is in order as it is.
pub proof fn lemma_stable_sorted<T>(s: Seq<T>, leq: spec_fn(T, T) -> bool)
    requires
        is_ranking(leq),
    ensures
        is_stable_sort_of(stable_sorted(s, leq), s, leq),
        stable_sorted(s, leq).to_multiset() == s.to_multiset(),
        stable_sorted(s, leq).len() == s.len(),
        in_order(s, leq) ==> stable_sorted(s, leq) == s,
    decreases s.len(),
{
    if s.len() > 0 {
        let tail = s.drop_first();
        let rest = stable_sorted(tail, leq);
        let p = first_place(rest, s[0], leq) as int;
        lemma_stable_sorted(tail, leq);
        lemma_first_place(rest, s[0], leq);
        lemma_place_in_front(rest, tail, s[0], p, leq);
        assert(seq![s[0]] + tail =~= s);
        vstd::seq_lib::to_multiset_insert(rest, p, s[0]);
        vstd::seq_lib::to_multiset_insert(tail, 0, s[0]);
        assert(tail.insert(0, s[0]) =~= s);
        if in_order(s, leq) {
            assert forall|i: int, j: int| #![trigger tail[i], tail[j]] 0 <= i < j < tail.len()
                implies leq(tail[i], tail[j]) by {
                assert(leq(s[i + 1], s[j + 1]));
            }
            if tail.len() > 0 {
                assert(leq(s[0], s[1]));
            }
        }
    }
}

/// Sorting what is sorted changes nothing: sorting twice gives what sorting once
/// gives.
pub proof fn lemma_stable_sorted_idempotent<T>(s: Seq<T>, leq: spec_fn(T, T) -> bool)
    requires
        is_ranking(leq),
    ensures
        stable_sorted(stable_sorted(s, leq), leq) == stable_sorted(s, leq),
{
    lemma_stable_sorted(s, leq);
    lemma_stable_sorted(stable_sorted(s, leq), leq);
}

proof fn lemma_filter_front<T>(s: Seq<T>, pred: spec_fn(T) -> bool)
    requires
        s.len() > 0,
    ensures
        s.filter(pred) == if pred(s[0]) {
            seq![s[0]] + s.drop_first().filter(pred)
        } else {
            s.drop_first().filter(pred)
        },
{
    let front = seq![s[0]];
    assert(s =~= front + s.drop_first());
    Seq::filter_distributes_over_add(front, s.drop_first(), pred);
    Seq::<T>::empty().lemma_filter_push(s[0], pred);
    assert(Seq::<T>::empty().filter(pred) =~= Seq::<T>::empty()) by {
        reveal(Seq::filter);
    }
}

proof fn lemma_filter_member<T>(s: Seq<T>, pred: spec_fn(T) -> bool, k: int) -> (i: int)
    requires
        0 <= k < s.filter(pred).len(),
    ensures
        0 <= i < s.len(),
        s[i] == s.filter(pred)[k],
        pred(s[i]),
    decreases s.len(),
{
    reveal(Seq::filter);
    let rest = s.drop_last();
    if pred(s.last()) && k == rest.filter(pred).len() {
        s.len() - 1
    } else {
        lemma_filter_member(rest, pred, k)
    }
}

/// There is one way only to sort a sequence without disturbing ties: two sequences
/// that are both in order, and in both of which values that tie stand as they stood
/// in the input, are the same.
pub proof fn lemma_stable_sort_unique<T>(
    a: Seq<T>,
    b: Seq<T>,
    input: Seq<T>,
    leq: spec_fn(T, T) -> bool,
)
    requires
        is_ranking(leq),
        is_stable_sort_of(a, input, leq),
        is_stable_sort_of(b, input, leq),
    ensures
        a == b,
    decreases a.len(),
{
    if a.len() == 0 {
        if b.len() > 0 {
            let tie = tied_with(leq, b[0]);
            lemma_filter_front(b, tie);
            assert(peers(a, leq, b[0]) == peers(input, leq, b[0]));
            assert(peers(b, leq, b[0]) == peers(input, leq, b[0]));
            assert(a.filter(tie) =~= Seq::<T>::empty()) by {
                reveal(Seq::filter);
            }
        }
    } else {
        let x = a[0];
        let tie_x = tied_with(leq, x);
        lemma_filter_front(a, tie_x);
        assert(peers(a, leq, x) == peers(input, leq, x));
        assert(peers(b, leq, x) == peers(input, leq, x));
        // `x` heads its peers in `a`, hence in `b`: it stands in `b` at some place `j`.
        let j = lemma_filter_member(b, tie_x, 0);
        let y = b[0];
        lemma_filter_front(b, tie_x);
        if !tie_x(y) {
            // Then `y` stands before `x` in `b` and behind it in `a`, so the two tie.
            let tie_y = tied_with(leq, y);
            lemma_filter_front(b, tie_y);
            assert(peers(a, leq, y) == peers(input, leq, y));
            assert(peers(b, leq, y) == peers(input, leq, y));
            let i = lemma_filter_member(a, tie_y, 0);
            if i > 0 {
                assert(leq(a[0], a[i]));
            }
            assert(leq(b[0], b[j]));
        }
        assert(b[0] == x);
        // With the same head, the rests are stable sorts of one another.
        let a_rest = a.drop_first();
        let b_rest = b.drop_first();
        assert forall|i: int, j: int| #![trigger a_rest[i], a_rest[j]] 0 <= i < j < a_rest.len()
            implies leq(a_rest[i], a_rest[j]) by {
            assert(leq(a[i + 1], a[j + 1]));
        }
        assert forall|i: int, j: int| #![trigger b_rest[i], b_rest[j]] 0 <= i < j < b_rest.len()
            implies leq(b_rest[i], b_rest[j]) by {
            assert(leq(b[i + 1], b[j + 1]));
        }
        assert forall|z: T| #[trigger] peers(a_rest, leq, z) == peers(b_rest, leq, z) by {
            let tie = tied_with(leq, z);
            lemma_filter_front(a, tie);
            lemma_filter_front(b, tie);
            assert(peers(a, leq, z) == peers(input, leq, z));
            assert(peers(b, leq, z) == peers(input, leq, z));
            if tie(x) {
                assert((seq![x] + a_rest.filter(tie)).drop_first() =~= a_rest.filter(tie));
            }
        }
        lemma_stable_sort_unique(a_rest, b_rest, b_rest, leq);
        assert(a =~= seq![x] + a_rest);
    }
}

proof fn lemma_first_place_projects<A, B>(
    s: Seq<A>,
    x: A,
    part: spec_fn(A) -> B,
    leq: spec_fn(A, A) -> bool,
    part_leq: spec_fn(B, B) -> bool,
)
    requires
        forall|i: int| 0 <= i < s.len() ==> leq(x, #[trigger] s[i]) == part_leq(part(x), part(s[i])),
    ensures
        first_place(s, x, leq) == first_place(s.map_values(part), part(x), part_leq),
    decreases s.len(),
{
    if s.len() > 0 {
        assert(s.map_values(part)[0] == part(s[0]));
        if !leq(x, s[0]) {
            let rest = s.drop_first();
            assert forall|i: int| 0 <= i < rest.len() implies leq(x, #[trigger] rest[i])
                == part_leq(part(x), part(rest[i])) by {
                assert(rest[i] == s[i + 1]);
            }
            lemma_first_place_projects(rest, x, part, leq, part_leq);
            assert(s.map_values(part).drop_first() =~= rest.map_values(part));
        }
    }
}

/// Sorting goes through a projection: where an order on values agrees, on the values
/// of a sequence, with an order on a part of them, the parts of the sorted sequence
/// are the sorted parts of the sequence.
pub proof fn lemma_stable_sorted_projects<A, B>(
    s: Seq<A>,
    part: spec_fn(A) -> B,
    leq: spec_fn(A, A) -> bool,
    part_leq: spec_fn(B, B) -> bool,
)
    requires
        is_ranking(leq),
        forall|i: int, j: int|
            #![trigger s[i], s[j]]
            0 <= i < s.len() && 0 <= j < s.len() ==> leq(s[i], s[j]) == part_leq(
                part(s[i]),
                part(s[j]),
            ),
    ensures
        stable_sorted(s, leq).map_values(part) == stable_sorted(s.map_values(part), part_leq),
    decreases s.len(),
{
    if s.len() > 0 {
        let tail = s.drop_first();
        let parts = s.map_values(part);
        let rest = stable_sorted(tail, leq);
        assert forall|i: int, j: int|
            #![trigger tail[i], tail[j]]
            0 <= i < tail.len() && 0 <= j < tail.len() implies leq(tail[i], tail[j]) == part_leq(
            part(tail[i]),
            part(tail[j]),
        ) by {
            assert(tail[i] == s[i + 1] && tail[j] == s[j + 1]);
        }
        lemma_stable_sorted_projects(tail, part, leq, part_leq);
        assert(parts.drop_first() =~= tail.map_values(part));
        // Every value of the sorted rest is a value of the sequence.
        lemma_stable_sorted(tail, leq);
        assert forall|i: int| 0 <= i < rest.len() implies leq(s[0], #[trigger] rest[i])
            == part_leq(part(s[0]), part(rest[i])) by {
            assert(rest.contains(rest[i]));
            vstd::seq_lib::to_multiset_contains(rest, rest[i]);
            vstd::seq_lib::to_multiset_contains(tail, rest[i]);
            let k = choose|k: int| 0 <= k < tail.len() && tail[k] == rest[i];
            assert(tail[k] == s[k + 1]);
        }
        lemma_first_place_projects(rest, s[0], part, leq, part_leq);
        let p = first_place(rest, s[0], leq) as int;
        lemma_first_place(rest, s[0], leq);
        assert(rest.insert(p, s[0]).map_values(part) =~= rest.map_values(part).insert(
            p,
            part(s[0]),
        ));
    }
}

} // verus!
