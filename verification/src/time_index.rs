use vstd::prelude::*;
use vstd::multiset::Multiset;
use crate::in_window;
use crate::Millis;

verus! {

/// One overlay entry: active on the half-open window `[time_in, time_out)`
/// (an absent `time_out` means the entry never expires), drawn in ascending
/// `index` order; `scene` is the opaque vector content it shows.
#[derive(Debug, PartialEq, Eq)]
pub struct Transition<S> {
    pub time_in: Millis,
    pub time_out: Option<Millis>,
    pub index: usize,
    pub scene: S,
}

struct TreeNode<S> {
    transition: Transition<S>,
    max: Option<Millis>,
}

/// Interval-stabbing index over the entries of one catalog: the entries are
/// kept sorted by `(time_in, time_out)` in a flat array, and an implicit
/// balanced binary tree is laid over that array, each node carrying an upper
/// bound for every `time_out` in its subtree (`None` = some entry below is
/// open-ended, so the subtree never goes entirely inactive).
pub struct TimeIndex<S> {
    nodes: Vec<TreeNode<S>>,
}

/// Whether entry `t` is active at time `ts`.
pub open spec fn active<S>(t: Transition<S>, ts: Millis) -> bool {
    in_window(t.time_in, t.time_out, ts)
}

/// Order on `time_out` values used for sorting: concrete bounds ascending,
/// open-ended entries after every concrete one.
pub open spec fn out_le(a: Option<Millis>, b: Option<Millis>) -> bool {
    match (a, b) {
        (Some(x), Some(y)) => x <= y,
        (Some(_), None) => true,
        (None, Some(_)) => false,
        (None, None) => true,
    }
}

/// Sort key over whole entries: `time_in` ascending, ties broken by
/// `time_out` ascending with open-ended entries last.
pub open spec fn key_le<S>(a: Transition<S>, b: Transition<S>) -> bool {
    a.time_in < b.time_in || (a.time_in == b.time_in && out_le(a.time_out, b.time_out))
}

pub open spec fn sorted_by_key<S>(s: Seq<Transition<S>>) -> bool {
    forall|i: int, j: int| 0 <= i < j < s.len() ==> #[trigger] key_le(s[i], s[j])
}

proof fn lemma_key_le_trans<S>(a: Transition<S>, b: Transition<S>, c: Transition<S>)
    requires
        key_le(a, b),
        key_le(b, c),
    ensures
        key_le(a, c),
{
}

proof fn lemma_key_le_total<S>(a: Transition<S>, b: Transition<S>)
    ensures
        key_le(a, b) || key_le(b, a),
{
}

/// `b` is an upper bound for the expiry `t`: an unbounded `b` covers
/// everything, a concrete `b` covers only concrete expiries below it.
spec fn bound_covers(b: Option<Millis>, t: Option<Millis>) -> bool {
    match b {
        None => true,
        Some(m) => match t {
            Some(o) => o <= m,
            None => false,
        },
    }
}

/// Bound merge: any open-ended operand poisons the result.
spec fn merge_bound(a: Option<Millis>, b: Option<Millis>) -> Option<Millis> {
    match (a, b) {
        (Some(x), Some(y)) => if x >= y { Some(x) } else { Some(y) },
        _ => None,
    }
}

/// Merging keeps every expiry that either operand already covered.
proof fn lemma_merge_covers(a: Option<Millis>, b: Option<Millis>, t: Option<Millis>)
    requires
        bound_covers(a, t) || bound_covers(b, t),
    ensures
        bound_covers(merge_bound(a, b), t),
{
}

/// The merge is exact: it poisons exactly when an operand is poisoned,
/// and a concrete result is one of the operands.
proof fn lemma_merge_exact(a: Option<Millis>, b: Option<Millis>)
    ensures
        merge_bound(a, b) is None <==> (a is None || b is None),
        forall|m: Millis| merge_bound(a, b) == Some(m) ==> a == Some(m) || b == Some(m),
{
}

/// The `max` augmentation is exact on the implicit subtree covering
/// `[lo, hi)`: the subtree root's bound covers every expiry in the range,
/// it is unbounded exactly when some entry in the range is open-ended,
/// a concrete bound is an expiry attained in the range (so it is the true
/// maximum), and both child subtrees satisfy the same.
spec fn wf_range<S>(nodes: Seq<TreeNode<S>>, lo: int, hi: int) -> bool
    decreases hi - lo
{
    if lo >= hi {
        true
    } else {
        let mid = lo + (hi - lo) / 2;
        &&& forall|j: int|
            lo <= j < hi ==> bound_covers(nodes[mid].max, #[trigger] nodes[j].transition.time_out)
        &&& (nodes[mid].max is None ==> exists|j: int|
            lo <= j < hi && (#[trigger] nodes[j].transition.time_out) is None)
        &&& (forall|m: Millis| nodes[mid].max == Some(m) ==> exists|j: int|
            lo <= j < hi && (#[trigger] nodes[j].transition.time_out) == Some(m))
        &&& wf_range(nodes, lo, mid)
        &&& wf_range(nodes, mid + 1, hi)
    }
}

/// `wf_range` only reads the nodes inside `[lo, hi)`.
proof fn lemma_wf_range_frame<S>(a: Seq<TreeNode<S>>, b: Seq<TreeNode<S>>, lo: int, hi: int)
    requires
        forall|j: int| lo <= j < hi ==> a[j] == #[trigger] b[j],
        wf_range(a, lo, hi),
    ensures
        wf_range(b, lo, hi),
    decreases hi - lo,
{
    if lo < hi {
        let mid = lo + (hi - lo) / 2;
        assert forall|j: int| lo <= j < mid implies a[j] == #[trigger] b[j] by {
            assert(a[j] == b[j]);
        }
        assert forall|j: int| mid + 1 <= j < hi implies a[j] == #[trigger] b[j] by {
            assert(a[j] == b[j]);
        }
        lemma_wf_range_frame(a, b, lo, mid);
        lemma_wf_range_frame(a, b, mid + 1, hi);
        assert forall|j: int|
            lo <= j < hi implies bound_covers(b[mid].max, #[trigger] b[j].transition.time_out) by {
            assert(a[j] == b[j]);
            assert(bound_covers(a[mid].max, a[j].transition.time_out));
        }
        if b[mid].max is None {
            let j = choose|j: int|
                lo <= j < hi && (#[trigger] a[j].transition.time_out) is None;
            assert(a[j] == b[j]);
            assert(lo <= j < hi && b[j].transition.time_out is None);
        }
        assert forall|m: Millis| b[mid].max == Some(m) implies exists|j: int|
            lo <= j < hi && (#[trigger] b[j].transition.time_out) == Some(m) by {
            let j = choose|j: int|
                lo <= j < hi && (#[trigger] a[j].transition.time_out) == Some(m);
            assert(a[j] == b[j]);
            assert(lo <= j < hi && b[j].transition.time_out == Some(m));
        }
    }
}

fn key_le_exec<S>(a: &Transition<S>, b: &Transition<S>) -> (r: bool)
    ensures
        r == key_le(*a, *b),
{
    if a.time_in < b.time_in {
        true
    } else if a.time_in == b.time_in {
        match (a.time_out, b.time_out) {
            (Some(x), Some(y)) => x <= y,
            (Some(_), None) => true,
            (None, Some(_)) => false,
            (None, None) => true,
        }
    } else {
        false
    }
}

/// Selection sort by `key_le`; keeps exactly the given entries.
fn sort_transitions<S>(input: Vec<Transition<S>>) -> (r: Vec<Transition<S>>)
    ensures
        sorted_by_key(r@),
        r@.to_multiset() == input@.to_multiset(),
{
    let mut src = input;
    let mut out: Vec<Transition<S>> = Vec::new();
    let ghost all: Seq<Transition<S>> = src@;
    proof {
        broadcast use vstd::seq_lib::group_to_multiset_ensures;
        assert(out@.to_multiset().add(src@.to_multiset()) =~= src@.to_multiset());
    }
    while src.len() > 0
        invariant
            sorted_by_key(out@),
            out@.to_multiset().add(src@.to_multiset()) == all.to_multiset(),
            forall|i: int, j: int|
                0 <= i < out@.len() && 0 <= j < src@.len() ==> #[trigger] key_le(out@[i], src@[j]),
        decreases src.len(),
    {
        let mut m: usize = 0;
        let mut k: usize = 1;
        while k < src.len()
            invariant
                m < k,
                k <= src@.len(),
                m < src@.len(),
                forall|i: int| 0 <= i < k ==> key_le(src@[m as int], #[trigger] src@[i]),
            decreases src.len() - k,
        {
            let ghost m0 = m as int;
            if key_le_exec(&src[k], &src[m]) && !key_le_exec(&src[m], &src[k]) {
                m = k;
            }
            k += 1;
            proof {
                assert forall|i: int| 0 <= i < k implies key_le(src@[m as int], #[trigger] src@[i]) by {
                    if m as int == m0 {
                        if i == k - 1 {
                            lemma_key_le_total(src@[m as int], src@[i]);
                            assert(key_le(src@[m as int], src@[i]));
                        } else {
                            assert(key_le(src@[m0], src@[i]));
                        }
                    } else {
                        if i < k - 1 {
                            assert(key_le(src@[m0], src@[i]));
                            lemma_key_le_trans(src@[m as int], src@[m0], src@[i]);
                        }
                    }
                }
            }
        }
        let ghost src_before = src@;
        let e = src.remove(m);
        proof {
            broadcast use vstd::seq_lib::group_to_multiset_ensures;
            assert(src@ == src_before.remove(m as int));
            assert(src@.to_multiset() =~= src_before.to_multiset().remove(e));
            assert(out@.push(e).to_multiset() =~= out@.to_multiset().insert(e));
            assert(src_before.contains(e)) by {
                assert(src_before[m as int] == e);
            }
            assert(src_before.to_multiset().count(e) >= 1);
            assert forall|x: Transition<S>| #![auto]
                out@.push(e).to_multiset().add(src@.to_multiset()).count(x)
                    == all.to_multiset().count(x) by {
                assert(out@.to_multiset().add(src_before.to_multiset()).count(x)
                    == all.to_multiset().count(x));
            }
            assert(out@.push(e).to_multiset().add(src@.to_multiset()) =~= all.to_multiset());
            assert forall|i: int, j: int|
                0 <= i < out@.push(e).len() && 0 <= j < src@.len()
                implies #[trigger] key_le(out@.push(e)[i], src@[j]) by {
                let s_j = if j < m as int { src_before[j] } else { src_before[j + 1] };
                assert(src@[j] == s_j);
                assert(key_le(e, s_j));
                if i < out@.len() {
                    assert(key_le(out@[i], src_before[j]) || key_le(out@[i], src_before[j + 1]));
                    assert(key_le(out@[i], s_j)) by {
                        if j < m as int {
                            assert(key_le(out@[i], src_before[j]));
                        } else {
                            assert(key_le(out@[i], src_before[j + 1]));
                        }
                    }
                } else {
                    assert(out@.push(e)[i] == e);
                }
            }
            assert forall|i: int, j: int|
                0 <= i < j < out@.push(e).len()
                implies #[trigger] key_le(out@.push(e)[i], out@.push(e)[j]) by {
                if j < out@.len() {
                    assert(key_le(out@[i], out@[j]));
                } else {
                    assert(out@.push(e)[j] == e);
                    assert(key_le(out@[i], e)) by {
                        assert(key_le(out@[i], src_before[m as int]));
                    }
                }
            }
        }
        out.push(e);
    }
    proof {
        broadcast use vstd::seq_lib::group_to_multiset_ensures;
        assert forall|x: Transition<S>| #![auto] src@.to_multiset().count(x) == 0 by {
            if src@.to_multiset().count(x) > 0 {
                assert(src@.contains(x));
            }
        }
        assert(src@.to_multiset() =~= Multiset::<Transition<S>>::empty());
        assert(out@.to_multiset() =~= out@.to_multiset().add(src@.to_multiset()));
    }
    out
}

fn merge_exec(a: Option<Millis>, b: Option<Millis>) -> (r: Option<Millis>)
    ensures
        r == merge_bound(a, b),
{
    match (a, b) {
        (Some(x), Some(y)) => if x >= y { Some(x) } else { Some(y) },
        _ => None,
    }
}

/// Recomputes the `max` field of every node in the subtree covering
/// `[lo, lo + len)` and returns the subtree's own bound: the node's expiry
/// merged with both children's bounds. The bound is exact: it covers every
/// expiry in the range, it is unbounded exactly when some entry in the
/// range is open-ended, and a concrete bound is an expiry attained in the
/// range - the true maximum.
#[verifier::rlimit(60)]
fn compute_max<S>(nodes: &mut Vec<TreeNode<S>>, lo: usize, len: usize) -> (b: Option<Millis>)
    requires
        len >= 1,
        lo + len <= old(nodes)@.len(),
        forall|j: int|
            lo <= j < lo + len ==> #[trigger] old(nodes)@[j].max == old(nodes)@[j].transition.time_out,
    ensures
        final(nodes)@.len() == old(nodes)@.len(),
        forall|j: int|
            0 <= j < old(nodes)@.len() && !(lo <= j < lo + len)
                ==> final(nodes)@[j] == #[trigger] old(nodes)@[j],
        forall|j: int|
            lo <= j < lo + len
                ==> #[trigger] final(nodes)@[j].transition == old(nodes)@[j].transition,
        wf_range(final(nodes)@, lo as int, lo + len),
        b == final(nodes)@[lo + len / 2].max,
        forall|j: int|
            lo <= j < lo + len
                ==> bound_covers(b, #[trigger] final(nodes)@[j].transition.time_out),
        b is None ==> exists|j: int|
            lo <= j < lo + len && (#[trigger] final(nodes)@[j].transition.time_out) is None,
        forall|m: Millis| b == Some(m) ==> exists|j: int|
            lo <= j < lo + len && (#[trigger] final(nodes)@[j].transition.time_out) == Some(m),
    decreases len,
{
    let n_total = nodes.len();
    proof {
        assert(lo + len <= n_total);
    }
    let mid = lo + len / 2;
    let llen = len / 2;
    let rlen = len - llen - 1;
    let mut mx = nodes[mid].max;
    let ghost orig = nodes@;
    if llen > 0 {
        let lb = compute_max(nodes, lo, llen);
        proof {
            assert(nodes@[mid as int] == orig[mid as int]);
            assert forall|j: int| lo <= j <= mid
                implies bound_covers(merge_bound(mx, lb), #[trigger] nodes@[j].transition.time_out) by {
                lemma_merge_covers(mx, lb, nodes@[j].transition.time_out);
            }
            lemma_merge_exact(mx, lb);
        }
        mx = merge_exec(mx, lb);
        proof {
            if mx is None {
                if nodes@[mid as int].max is None {
                    assert(nodes@[mid as int].transition.time_out is None);
                } else {
                    let j = choose|j: int|
                        lo <= j < lo + llen && (#[trigger] nodes@[j].transition.time_out) is None;
                    assert(lo <= j <= mid && nodes@[j].transition.time_out is None);
                }
            }
            assert forall|m: Millis| mx == Some(m) implies exists|j: int|
                lo <= j <= mid && (#[trigger] nodes@[j].transition.time_out) == Some(m) by {
                if nodes@[mid as int].max == Some(m) {
                    assert(lo <= mid as int <= mid && nodes@[mid as int].transition.time_out == Some(m));
                } else {
                    let j = choose|j: int|
                        lo <= j < lo + llen && (#[trigger] nodes@[j].transition.time_out) == Some(m);
                    assert(lo <= j <= mid && nodes@[j].transition.time_out == Some(m));
                }
            }
        }
    }
    // here: mx is the exact bound of [lo, mid], and the left subtree is consistent
    proof {
        assert forall|j: int| lo <= j <= mid
            implies bound_covers(mx, #[trigger] nodes@[j].transition.time_out) by {}
        assert(mx is None ==> exists|j: int|
            lo <= j <= mid && (#[trigger] nodes@[j].transition.time_out) is None);
        assert(forall|m: Millis| mx == Some(m) ==> exists|j: int|
            lo <= j <= mid && (#[trigger] nodes@[j].transition.time_out) == Some(m));
        assert(wf_range(nodes@, lo as int, mid as int));
    }
    let ghost after_left = nodes@;
    if rlen > 0 {
        let rb = compute_max(nodes, mid + 1, rlen);
        proof {
            lemma_wf_range_frame(after_left, nodes@, lo as int, mid as int);
            assert forall|j: int| lo <= j < lo + len
                implies bound_covers(merge_bound(mx, rb), #[trigger] nodes@[j].transition.time_out) by {
                if j <= mid {
                    assert(nodes@[j] == after_left[j]);
                    lemma_merge_covers(mx, rb, nodes@[j].transition.time_out);
                } else {
                    lemma_merge_covers(mx, rb, nodes@[j].transition.time_out);
                }
            }
            lemma_merge_exact(mx, rb);
        }
        let ghost mx_left = mx;
        mx = merge_exec(mx, rb);
        proof {
            if mx is None {
                if mx_left is None {
                    let j = choose|j: int|
                        lo <= j <= mid && (#[trigger] after_left[j].transition.time_out) is None;
                    assert(nodes@[j] == after_left[j]);
                    assert(lo <= j < lo + len && nodes@[j].transition.time_out is None);
                } else {
                    let j = choose|j: int|
                        mid + 1 <= j < mid + 1 + rlen
                            && (#[trigger] nodes@[j].transition.time_out) is None;
                    assert(lo <= j < lo + len && nodes@[j].transition.time_out is None);
                }
            }
            assert forall|m: Millis| mx == Some(m) implies exists|j: int|
                lo <= j < lo + len && (#[trigger] nodes@[j].transition.time_out) == Some(m) by {
                if mx_left == Some(m) {
                    let j = choose|j: int|
                        lo <= j <= mid && (#[trigger] after_left[j].transition.time_out) == Some(m);
                    assert(nodes@[j] == after_left[j]);
                    assert(lo <= j < lo + len && nodes@[j].transition.time_out == Some(m));
                } else {
                    assert(rb == Some(m));
                    let j = choose|j: int|
                        mid + 1 <= j < mid + 1 + rlen
                            && (#[trigger] nodes@[j].transition.time_out) == Some(m);
                    assert(lo <= j < lo + len && nodes@[j].transition.time_out == Some(m));
                }
            }
        }
    }
    proof {
        assert forall|j: int| lo <= j < lo + len
            implies bound_covers(mx, #[trigger] nodes@[j].transition.time_out) by {}
        assert(mx is None ==> exists|j: int|
            lo <= j < lo + len && (#[trigger] nodes@[j].transition.time_out) is None);
        assert(forall|m: Millis| mx == Some(m) ==> exists|j: int|
            lo <= j < lo + len && (#[trigger] nodes@[j].transition.time_out) == Some(m));
        assert(wf_range(nodes@, lo as int, mid as int));
        assert(wf_range(nodes@, mid + 1, lo + len));
    }
    let ghost before_set = nodes@;
    let node_ref = vstd::std_specs::vec::vec_index_mut(nodes, mid);
    node_ref.max = mx;
    proof {
        assert(nodes@ =~= before_set.update(mid as int, nodes@[mid as int]));
        assert(nodes@[mid as int].max == mx);
        assert(nodes@[mid as int].transition == before_set[mid as int].transition);
        lemma_wf_range_frame(before_set, nodes@, lo as int, mid as int);
        lemma_wf_range_frame(before_set, nodes@, mid + 1, lo + len);
        assert forall|j: int| lo <= j < lo + len
            implies bound_covers(nodes@[mid as int].max, #[trigger] nodes@[j].transition.time_out) by {
            assert(nodes@[j].transition.time_out == before_set[j].transition.time_out);
        }
        if mx is None {
            let j = choose|j: int|
                lo <= j < lo + len && (#[trigger] before_set[j].transition.time_out) is None;
            assert(nodes@[j].transition.time_out == before_set[j].transition.time_out);
            assert(lo <= j < lo + len && nodes@[j].transition.time_out is None);
        }
        assert forall|m: Millis| mx == Some(m) implies exists|j: int|
            lo <= j < lo + len && (#[trigger] nodes@[j].transition.time_out) == Some(m) by {
            let j = choose|j: int|
                lo <= j < lo + len && (#[trigger] before_set[j].transition.time_out) == Some(m);
            assert(nodes@[j].transition.time_out == before_set[j].transition.time_out);
            assert(lo <= j < lo + len && nodes@[j].transition.time_out == Some(m));
        }
        assert(wf_range(nodes@, lo as int, lo + len));
    }
    mx
}

/// The positions in `[lo, hi)`, ascending, whose entry is active at `ts`.
pub open spec fn range_matches<S>(s: Seq<Transition<S>>, lo: int, hi: int, ts: Millis) -> Seq<int>
    decreases hi - lo,
{
    if lo >= hi {
        Seq::empty()
    } else {
        (if active(s[lo], ts) {
            seq![lo]
        } else {
            Seq::empty()
        }) + range_matches(s, lo + 1, hi, ts)
    }
}

/// Every matching position of the whole catalog, ascending.
pub open spec fn match_positions<S>(s: Seq<Transition<S>>, ts: Millis) -> Seq<int> {
    range_matches(s, 0, s.len() as int, ts)
}

/// The draw order over array positions: `index` ascending, ties kept in
/// array position order, which makes the order total.
pub open spec fn pos_le<S>(s: Seq<Transition<S>>) -> spec_fn(int, int) -> bool {
    |p: int, q: int| s[p].index < s[q].index || (s[p].index == s[q].index && p <= q)
}

/// The exact query result at `ts`: the active entries, sorted by draw order.
pub open spec fn query_spec<S>(s: Seq<Transition<S>>, ts: Millis) -> Seq<Transition<S>> {
    match_positions(s, ts).sort_by(pos_le(s)).map_values(|p: int| s[p])
}

pub proof fn lemma_pos_le_total<S>(s: Seq<Transition<S>>)
    ensures
        vstd::relations::total_ordering(pos_le(s)),
{
    let leq = pos_le(s);
    assert forall|x: int, y: int| #[trigger] leq(x, y) && #[trigger] leq(y, x) implies x == y by {}
    assert forall|x: int, y: int, z: int|
        #[trigger] leq(x, y) && #[trigger] leq(y, z) implies leq(x, z) by {}
    assert forall|x: int, y: int| #![trigger leq(x, y)] true implies leq(x, y) || leq(y, x) by {}
    assert(vstd::relations::reflexive(leq));
    assert(vstd::relations::antisymmetric(leq));
    assert(vstd::relations::transitive(leq));
    assert(vstd::relations::strongly_connected(leq));
}

/// Splitting a position range splits its match list.
proof fn lemma_range_matches_concat<S>(s: Seq<Transition<S>>, lo: int, m: int, hi: int, ts: Millis)
    requires
        lo <= m <= hi,
    ensures
        range_matches(s, lo, hi, ts) == range_matches(s, lo, m, ts) + range_matches(s, m, hi, ts),
    decreases m - lo,
{
    if lo < m {
        lemma_range_matches_concat(s, lo + 1, m, hi, ts);
        assert(range_matches(s, lo, hi, ts) =~= range_matches(s, lo, m, ts) + range_matches(s, m, hi, ts));
    } else {
        assert(range_matches(s, lo, hi, ts) =~= range_matches(s, lo, lo, ts) + range_matches(s, lo, hi, ts));
    }
}

/// A range with no active entry contributes no match.
proof fn lemma_range_matches_empty<S>(s: Seq<Transition<S>>, lo: int, hi: int, ts: Millis)
    requires
        forall|j: int| lo <= j < hi ==> !active(#[trigger] s[j], ts),
    ensures
        range_matches(s, lo, hi, ts) == Seq::<int>::empty(),
    decreases hi - lo,
{
    if lo < hi {
        lemma_range_matches_empty(s, lo + 1, hi, ts);
        assert(range_matches(s, lo, hi, ts) =~= Seq::<int>::empty());
    }
}

/// A match list only holds in-range positions of active entries.
proof fn lemma_range_matches_sound<S>(s: Seq<Transition<S>>, lo: int, hi: int, ts: Millis)
    ensures
        forall|k: int| 0 <= k < range_matches(s, lo, hi, ts).len()
            ==> lo <= #[trigger] range_matches(s, lo, hi, ts)[k] < hi
                && active(s[range_matches(s, lo, hi, ts)[k]], ts),
    decreases hi - lo,
{
    if lo < hi {
        lemma_range_matches_sound(s, lo + 1, hi, ts);
        let whole = range_matches(s, lo, hi, ts);
        let tail = range_matches(s, lo + 1, hi, ts);
        let hl = whole.len() - tail.len();
        assert forall|k: int| 0 <= k < whole.len()
            implies lo <= #[trigger] whole[k] < hi && active(s[whole[k]], ts) by {
            if k >= hl {
                assert(whole[k] == tail[k - hl]);
                assert(lo + 1 <= tail[k - hl] < hi && active(s[tail[k - hl]], ts));
            } else {
                assert(whole[k] == lo);
            }
        }
    }
}

/// A position with an active entry appears in the match list.
proof fn lemma_range_matches_complete<S>(s: Seq<Transition<S>>, lo: int, hi: int, ts: Millis, p: int)
    requires
        lo <= p < hi,
        active(s[p], ts),
    ensures
        range_matches(s, lo, hi, ts).contains(p),
    decreases hi - lo,
{
    if lo == p {
        assert(range_matches(s, lo, hi, ts)[0] == p);
    } else {
        lemma_range_matches_complete(s, lo + 1, hi, ts, p);
        let tail = range_matches(s, lo + 1, hi, ts);
        let k = choose|k: int| 0 <= k < tail.len() && tail[k] == p;
        let whole = range_matches(s, lo, hi, ts);
        let head_len = whole.len() - tail.len();
        assert(whole[head_len + k] == p);
    }
}

/// Total length of the ranges still waiting on the traversal stack.
spec fn weight(st: Seq<(usize, usize)>) -> int
    decreases st.len(),
{
    if st.len() == 0 {
        0
    } else {
        weight(st.drop_last()) + st.last().1
    }
}

proof fn lemma_weight_nonneg(st: Seq<(usize, usize)>)
    ensures
        weight(st) >= 0,
    decreases st.len(),
{
    if st.len() > 0 {
        lemma_weight_nonneg(st.drop_last());
    }
}

proof fn lemma_weight_push(st: Seq<(usize, usize)>, x: (usize, usize))
    ensures
        weight(st.push(x)) == weight(st) + x.1,
{
    assert(st.push(x).drop_last() =~= st);
    assert(st.push(x).last() == x);
}

/// The multiset of matching positions inside the stacked ranges.
spec fn stack_matches<S>(st: Seq<(usize, usize)>, s: Seq<Transition<S>>, ts: Millis) -> Multiset<int>
    decreases st.len(),
{
    if st.len() == 0 {
        Multiset::empty()
    } else {
        stack_matches(st.drop_last(), s, ts).add(
            range_matches(s, st.last().0 as int, st.last().0 + st.last().1, ts).to_multiset(),
        )
    }
}

proof fn lemma_stack_matches_push<S>(
    st: Seq<(usize, usize)>,
    x: (usize, usize),
    s: Seq<Transition<S>>,
    ts: Millis,
)
    ensures
        stack_matches(st.push(x), s, ts) == stack_matches(st, s, ts).add(
            range_matches(s, x.0 as int, x.0 + x.1, ts).to_multiset(),
        ),
{
    assert(st.push(x).drop_last() =~= st);
    assert(st.push(x).last() == x);
}

/// Law: at a time where no catalog entry is active, the query result is
/// empty - every `ts` outside all closed windows and all started open-ended
/// windows maps to no overlay at all.
pub proof fn lemma_query_empty_when_inactive<S>(s: Seq<Transition<S>>, ts: Millis)
    requires
        forall|p: int| 0 <= p < s.len() ==> !active(#[trigger] s[p], ts),
    ensures
        query_spec(s, ts) == Seq::<Transition<S>>::empty(),
{
    broadcast use vstd::seq_lib::group_to_multiset_ensures;
    lemma_range_matches_empty(s, 0, s.len() as int, ts);
    assert(match_positions(s, ts) == Seq::<int>::empty());
    lemma_pos_le_total(s);
    let mp = match_positions(s, ts);
    mp.lemma_sort_by_ensures(pos_le(s));
    let sorted = mp.sort_by(pos_le(s));
    assert(sorted.len() == sorted.to_multiset().len());
    assert(mp.len() == mp.to_multiset().len());
    assert(sorted =~= Seq::<int>::empty());
    assert(query_spec(s, ts) =~= Seq::<Transition<S>>::empty());
}

/// Law: window boundaries. `ts == time_in` matches whenever the window is
/// non-degenerate; `ts == time_out` never matches a concrete `time_out`;
/// an absent `time_out` matches every `ts` at or after `time_in`.
pub proof fn lemma_boundary_semantics<S>(t: Transition<S>, ts: Millis)
    ensures
        (match t.time_out {
            None => true,
            Some(o) => t.time_in < o,
        }) ==> active(t, t.time_in),
        (match t.time_out {
            None => false,
            Some(o) => ts == o,
        }) ==> !active(t, ts),
        t.time_out == Option::<Millis>::None && ts >= t.time_in ==> active(t, ts),
{
}

/// Law: query results come sorted ascending by `index`, whatever the
/// insertion order of the catalog was.
pub proof fn lemma_query_sorted<S>(s: Seq<Transition<S>>, ts: Millis, i: int, j: int)
    requires
        0 <= i <= j < query_spec(s, ts).len(),
    ensures
        query_spec(s, ts)[i].index <= query_spec(s, ts)[j].index,
{
    lemma_pos_le_total(s);
    match_positions(s, ts).lemma_sort_by_ensures(pos_le(s));
    let sorted = match_positions(s, ts).sort_by(pos_le(s));
    if i < j {
        assert(pos_le(s)(sorted[i], sorted[j]));
    }
    assert(query_spec(s, ts)[i] == s[sorted[i]]);
    assert(query_spec(s, ts)[j] == s[sorted[j]]);
}

/// Law: overlap is respected - every entry active at `ts` appears in the
/// query result, however many windows cover the same instant.
pub proof fn lemma_query_complete<S>(s: Seq<Transition<S>>, ts: Millis, p: int)
    requires
        0 <= p < s.len(),
        active(s[p], ts),
    ensures
        query_spec(s, ts).contains(s[p]),
{
    broadcast use vstd::seq_lib::group_to_multiset_ensures;
    lemma_range_matches_complete(s, 0, s.len() as int, ts, p);
    lemma_pos_le_total(s);
    let mp = match_positions(s, ts);
    mp.lemma_sort_by_ensures(pos_le(s));
    let sorted = mp.sort_by(pos_le(s));
    assert(mp.to_multiset().count(p) > 0);
    assert(sorted.to_multiset().count(p) > 0);
    assert(sorted.contains(p));
    let k = choose|k: int| 0 <= k < sorted.len() && sorted[k] == p;
    assert(query_spec(s, ts)[k] == s[p]);
}

/// Law: everything the query returns is indeed active at `ts`.
pub proof fn lemma_query_sound<S>(s: Seq<Transition<S>>, ts: Millis, k: int)
    requires
        0 <= k < query_spec(s, ts).len(),
    ensures
        active(query_spec(s, ts)[k], ts),
{
    broadcast use vstd::seq_lib::group_to_multiset_ensures;
    lemma_pos_le_total(s);
    let mp = match_positions(s, ts);
    mp.lemma_sort_by_ensures(pos_le(s));
    let sorted = mp.sort_by(pos_le(s));
    assert(query_spec(s, ts)[k] == s[sorted[k]]);
    assert(sorted.to_multiset().count(sorted[k]) > 0);
    assert(mp.to_multiset().count(sorted[k]) > 0);
    assert(mp.contains(sorted[k]));
    let j = choose|j: int| 0 <= j < mp.len() && mp[j] == sorted[k];
    lemma_range_matches_sound(s, 0, s.len() as int, ts);
    assert(active(s[mp[j]], ts));
}

/// The integer image of a vector of array positions.
spec fn ints_of(v: Seq<usize>) -> Seq<int> {
    v.map_values(|u: usize| u as int)
}

impl<S> TimeIndex<S> {
    /// The catalog entries held by the index, in internal array order.
    pub closed spec fn entries(self) -> Seq<Transition<S>> {
        self.nodes@.map_values(|n: TreeNode<S>| n.transition)
    }

    #[verifier::type_invariant]
    spec fn wf(self) -> bool {
        &&& sorted_by_key(self.entries())
        &&& wf_range(self.nodes@, 0, self.nodes@.len() as int)
    }

    /// Builds the read-only index from a finalized entry list: sorts the
    /// entries by `(time_in, time_out)` and computes every subtree bound.
    /// The index holds exactly the entries given, whatever their order,
    /// rearranged into the sort order that the implicit tree expects.
    pub fn new(transitions: Vec<Transition<S>>) -> (r: TimeIndex<S>)
        ensures
            r.entries().to_multiset() == transitions@.to_multiset(),
            r.entries().len() == transitions@.len(),
            sorted_by_key(r.entries()),
    {
        let ghost given = transitions@;
        let mut sorted = sort_transitions(transitions);
        let ghost sorted_seq = sorted@;
        let mut nodes: Vec<TreeNode<S>> = Vec::new();
        while sorted.len() > 0
            invariant
                nodes@.len() + sorted@.len() == sorted_seq.len(),
                nodes@.map_values(|n: TreeNode<S>| n.transition)
                    =~= sorted_seq.take(nodes@.len() as int),
                sorted@ =~= sorted_seq.skip(nodes@.len() as int),
                forall|j: int|
                    0 <= j < nodes@.len() ==> #[trigger] nodes@[j].max == nodes@[j].transition.time_out,
            decreases sorted.len(),
        {
            let t = sorted.remove(0);
            let mx = t.time_out;
            nodes.push(TreeNode { transition: t, max: mx });
            proof {
                assert(nodes@.map_values(|n: TreeNode<S>| n.transition)
                    =~= sorted_seq.take(nodes@.len() as int));
                assert(sorted@ =~= sorted_seq.skip(nodes@.len() as int));
            }
        }
        proof {
            assert(nodes@.map_values(|n: TreeNode<S>| n.transition) =~= sorted_seq);
        }
        let n = nodes.len();
        if n > 0 {
            let ghost before = nodes@;
            compute_max(&mut nodes, 0, n);
            proof {
                assert(nodes@.map_values(|nd: TreeNode<S>| nd.transition)
                    =~= before.map_values(|nd: TreeNode<S>| nd.transition));
            }
        }
        proof {
            broadcast use vstd::seq_lib::group_to_multiset_ensures;
            assert(nodes@.map_values(|nd: TreeNode<S>| nd.transition) =~= sorted_seq);
        }
        let r = TimeIndex { nodes };
        proof {
            assert(r.entries() == sorted_seq);
            assert(r.wf());
            broadcast use vstd::seq_lib::group_to_multiset_ensures;
            assert(sorted_seq.to_multiset() == given.to_multiset());
            assert(sorted_seq.len() == sorted_seq.to_multiset().len());
            assert(given.len() == given.to_multiset().len());
        }
        r
    }

    /// Draw-order comparison of two array positions: `index` ascending,
    /// ties kept in array order.
    fn le_draw(&self, a: usize, b: usize) -> (r: bool)
        requires
            a < self.nodes@.len(),
            b < self.nodes@.len(),
        ensures
            r == pos_le(self.entries())(a as int, b as int),
    {
        let ia = self.nodes[a].transition.index;
        let ib = self.nodes[b].transition.index;
        proof {
            assert(self.entries()[a as int] == self.nodes@[a as int].transition);
            assert(self.entries()[b as int] == self.nodes@[b as int].transition);
        }
        ia < ib || (ia == ib && a <= b)
    }

    /// Insertion sort of matched positions into draw order.
    #[verifier::rlimit(50)]
    fn sort_draw_order(&self, v: Vec<usize>) -> (r: Vec<usize>)
        requires
            forall|i: int| 0 <= i < v@.len() ==> #[trigger] v@[i] < self.nodes@.len(),
        ensures
            ints_of(r@).to_multiset() == ints_of(v@).to_multiset(),
            vstd::relations::sorted_by(ints_of(r@), pos_le(self.entries())),
            forall|i: int| 0 <= i < r@.len() ==> #[trigger] r@[i] < self.nodes@.len(),
    {
        let ghost s = self.entries();
        let ghost leq = pos_le(s);
        let mut out: Vec<usize> = Vec::new();
        let mut i: usize = 0;
        proof {
            broadcast use vstd::seq_lib::group_to_multiset_ensures;
            assert(ints_of(out@) =~= Seq::<int>::empty());
            assert(ints_of(v@.take(0)) =~= Seq::<int>::empty());
        }
        while i < v.len()
            invariant
                i <= v@.len(),
                forall|t: int| 0 <= t < v@.len() ==> #[trigger] v@[t] < self.nodes@.len(),
                forall|t: int| 0 <= t < out@.len() ==> #[trigger] out@[t] < self.nodes@.len(),
                s == self.entries(),
                leq == pos_le(s),
                vstd::relations::sorted_by(ints_of(out@), leq),
                ints_of(out@).to_multiset() == ints_of(v@.take(i as int)).to_multiset(),
            decreases v@.len() - i,
        {
            let e = v[i];
            let mut k: usize = 0;
            while k < out.len() && self.le_draw(out[k], e)
                invariant
                    k <= out@.len(),
                    s == self.entries(),
                    leq == pos_le(s),
                    forall|t: int| 0 <= t < out@.len() ==> #[trigger] out@[t] < self.nodes@.len(),
                    e < self.nodes@.len(),
                    forall|t: int| 0 <= t < k ==> leq(#[trigger] ints_of(out@)[t], e as int),
                decreases out@.len() - k,
            {
                k += 1;
            }
            let ghost out0 = out@;
            out.insert(k, e);
            i += 1;
            proof {
                broadcast use vstd::seq_lib::group_to_multiset_ensures;
                broadcast use vstd::multiset::group_multiset_axioms;
                out0.insert_ensures(k as int, e);
                assert(ints_of(out@) =~= ints_of(out0).insert(k as int, e as int)) by {
                    ints_of(out0).insert_ensures(k as int, e as int);
                    assert(out@ == out0.insert(k as int, e));
                    assert forall|t: int| 0 <= t < ints_of(out@).len()
                        implies #[trigger] ints_of(out@)[t] == ints_of(out0).insert(k as int, e as int)[t] by {
                        if t < k as int {
                            assert(out@[t] == out0[t]);
                        } else if t == k as int {
                            assert(out@[t] == e);
                        } else {
                            assert(out@[t] == out0[t - 1]);
                        }
                    }
                }
                vstd::seq_lib::to_multiset_insert(ints_of(out0), k as int, e as int);
                assert(ints_of(v@.take(i as int)) =~= ints_of(v@.take(i - 1)).push(e as int));
                vstd::seq_lib::to_multiset_build(ints_of(v@.take(i - 1)), e as int);
                assert(ints_of(out@).to_multiset() == ints_of(v@.take(i as int)).to_multiset());
                assert forall|t1: int, t2: int| 0 <= t1 < t2 < ints_of(out@).len()
                    implies leq(#[trigger] ints_of(out@)[t1], #[trigger] ints_of(out@)[t2]) by {
                    let a1 = ints_of(out@)[t1];
                    let a2 = ints_of(out@)[t2];
                    let old_ints = ints_of(out0);
                    if t2 < k as int {
                        assert(a1 == old_ints[t1] && a2 == old_ints[t2]);
                    } else if t2 == k as int {
                        assert(a2 == e as int);
                        assert(a1 == old_ints[t1]);
                        assert(leq(old_ints[t1], e as int));
                    } else {
                        assert(a2 == old_ints[t2 - 1]);
                        if t1 < k as int {
                            assert(a1 == old_ints[t1]);
                            if t1 < t2 - 1 {
                                assert(leq(old_ints[t1], old_ints[t2 - 1]));
                            }
                        } else if t1 == k as int {
                            assert(a1 == e as int);
                            // the scan stopped before position k of the old list
                            if (k as int) < old_ints.len() {
                                assert(!leq(old_ints[k as int], e as int));
                                assert(leq(e as int, old_ints[k as int]));
                                if (k as int) < t2 - 1 {
                                    assert(leq(old_ints[k as int], old_ints[t2 - 1]));
                                }
                            }
                        } else {
                            assert(a1 == old_ints[t1 - 1]);
                            if t1 - 1 < t2 - 1 {
                                assert(leq(old_ints[t1 - 1], old_ints[t2 - 1]));
                            }
                        }
                    }
                }
                assert(vstd::relations::sorted_by(ints_of(out@), leq));
            }
        }
        proof {
            assert(v@.take(i as int) =~= v@);
        }
        out
    }

    /// Stabbing query: returns exactly the entries active at `ts`, sorted in
    /// draw order (`index` ascending, ties in internal array order). Subtrees
    /// whose bound rules out every match, and right siblings that start after
    /// `ts`, are never visited.
    pub fn search(&self, ts: Millis) -> (r: Vec<&Transition<S>>)
        ensures
            r@.map_values(|t: &Transition<S>| *t) == query_spec(self.entries(), ts),
    {
        proof {
            use_type_invariant(self);
        }
        let ghost s = self.entries();
        let n = self.nodes.len();
        let mut found: Vec<usize> = Vec::new();
        let mut stack: Vec<(usize, usize)> = Vec::new();
        if n > 0 {
            stack.push((0, n));
        }
        proof {
            broadcast use vstd::multiset::group_multiset_axioms;
            broadcast use vstd::seq_lib::group_to_multiset_ensures;
            assert(s.len() == n as int);
            assert(ints_of(found@) =~= Seq::<int>::empty());
            assert(ints_of(found@).to_multiset() =~= Multiset::<int>::empty()) by {
                assert(ints_of(found@).to_multiset().len() == 0);
            }
            if n > 0 {
                lemma_stack_matches_push(Seq::empty(), (0usize, n), s, ts);
                assert(stack@ =~= Seq::<(usize, usize)>::empty().push((0usize, n)));
                assert(stack_matches(stack@, s, ts)
                    == stack_matches(Seq::empty(), s, ts).add(
                        range_matches(s, 0, 0 + n as int, ts).to_multiset(),
                    ));
                assert(match_positions(s, ts) == range_matches(s, 0, n as int, ts));
            } else {
                assert(match_positions(s, ts) == Seq::<int>::empty());
                assert(stack@ =~= Seq::<(usize, usize)>::empty());
            }
            assert(ints_of(found@).to_multiset().add(stack_matches(stack@, s, ts))
                =~= match_positions(s, ts).to_multiset());
        }
        while stack.len() > 0
            invariant
                s == self.entries(),
                n == self.nodes@.len(),
                sorted_by_key(s),
                forall|t: int| 0 <= t < stack@.len()
                    ==> 1 <= (#[trigger] stack@[t]).1 && stack@[t].0 + stack@[t].1 <= n
                        && wf_range(self.nodes@, stack@[t].0 as int, stack@[t].0 + stack@[t].1),
                ints_of(found@).to_multiset().add(stack_matches(stack@, s, ts))
                    == match_positions(s, ts).to_multiset(),
                forall|t: int| 0 <= t < found@.len() ==> #[trigger] found@[t] < n,
            decreases weight(stack@),
        {
            let ghost stack0 = stack@;
            let ghost w0 = weight(stack0);
            let top = stack.pop().unwrap();
            let (s0, l0) = top;
            let ghost lo = s0 as int;
            let ghost hi = s0 + l0 as int;
            let ghost rest = stack0.drop_last();
            let ghost base = stack_matches(rest, s, ts);
            let ghost rmatch = range_matches(s, lo, hi, ts);
            proof {
                broadcast use vstd::multiset::group_multiset_axioms;
                broadcast use vstd::seq_lib::group_to_multiset_ensures;
                assert(stack0[stack0.len() - 1] == top);
                assert(1 <= l0 && s0 + l0 <= n && wf_range(self.nodes@, lo, hi));
                assert(stack@ =~= rest);
                assert(stack_matches(stack0, s, ts) == base.add(rmatch.to_multiset()));
                lemma_weight_nonneg(rest);
                assert(weight(stack0) == weight(rest) + l0);
            }
            let mid = s0 + l0 / 2;
            let node = &self.nodes[mid];
            let ghost entry = s[mid as int];
            proof {
                assert(entry == self.nodes@[mid as int].transition);
            }
            let explore = match node.max {
                Some(m) => ts < m,
                None => true,
            };
            if explore {
                let ls = mid - s0;
                if ls > 0 {
                    stack.push((s0, ls));
                    proof {
                        lemma_stack_matches_push(rest, (s0, ls), s, ts);
                        lemma_weight_push(rest, (s0, ls));
                    }
                }
                let ghost stack_l = stack@;
                if ts >= node.transition.time_in {
                    let rs = l0 + s0 - mid - 1;
                    if rs > 0 {
                        stack.push((mid + 1, rs));
                        proof {
                            lemma_stack_matches_push(stack_l, ((mid + 1) as usize, rs), s, ts);
                            lemma_weight_push(stack_l, ((mid + 1) as usize, rs));
                        }
                    }
                    let ghost found0 = found@;
                    if crate::window_contains(node.transition.time_in, node.transition.time_out, ts) {
                        found.push(mid);
                    }
                    proof {
                        broadcast use vstd::multiset::group_multiset_axioms;
                        broadcast use vstd::seq_lib::group_to_multiset_ensures;
                        lemma_range_matches_concat(s, lo, mid as int, hi, ts);
                        lemma_range_matches_concat(s, mid as int, mid + 1, hi, ts);
                        vstd::seq_lib::lemma_multiset_commutative(
                            range_matches(s, lo, mid as int, ts),
                            range_matches(s, mid as int, hi, ts),
                        );
                        vstd::seq_lib::lemma_multiset_commutative(
                            range_matches(s, mid as int, mid + 1, ts),
                            range_matches(s, mid + 1, hi, ts),
                        );
                        assert(active(entry, ts) == in_window(entry.time_in, entry.time_out, ts));
                        if active(entry, ts) {
                            assert(range_matches(s, mid as int, mid + 1, ts)
                                =~= Seq::<int>::empty().push(mid as int));
                            vstd::seq_lib::to_multiset_build(Seq::<int>::empty(), mid as int);
                            assert(found@ == found0.push(mid));
                            assert(ints_of(found@) =~= ints_of(found0).push(mid as int));
                            vstd::seq_lib::to_multiset_build(ints_of(found0), mid as int);
                        } else {
                            assert(range_matches(s, mid as int, mid + 1, ts) =~= Seq::<int>::empty());
                            assert(found@ == found0);
                        }
                        assert(ints_of(found@).to_multiset().add(stack_matches(stack@, s, ts))
                            =~= match_positions(s, ts).to_multiset());
                        assert(weight(stack@) < w0);
                    }
                } else {
                    proof {
                        broadcast use vstd::multiset::group_multiset_axioms;
                        assert forall|j: int| mid as int <= j < hi implies !active(#[trigger] s[j], ts) by {
                            if j > mid as int {
                                assert(key_le(s[mid as int], s[j]));
                            }
                            assert(s[j].time_in > ts);
                        }
                        lemma_range_matches_concat(s, lo, mid as int, hi, ts);
                        lemma_range_matches_empty(s, mid as int, hi, ts);
                        vstd::seq_lib::lemma_multiset_commutative(
                            range_matches(s, lo, mid as int, ts),
                            range_matches(s, mid as int, hi, ts),
                        );
                        assert(ints_of(found@).to_multiset().add(stack_matches(stack@, s, ts))
                            =~= match_positions(s, ts).to_multiset());
                        assert(weight(stack@) < w0);
                    }
                }
            } else {
                proof {
                    broadcast use vstd::multiset::group_multiset_axioms;
                    assert forall|j: int| lo <= j < hi implies !active(#[trigger] s[j], ts) by {
                        assert(bound_covers(
                            self.nodes@[mid as int].max,
                            self.nodes@[j].transition.time_out,
                        ));
                        assert(s[j] == self.nodes@[j].transition);
                    }
                    lemma_range_matches_empty(s, lo, hi, ts);
                    assert(rmatch.to_multiset() =~= Multiset::<int>::empty());
                    assert(ints_of(found@).to_multiset().add(stack_matches(stack@, s, ts))
                        =~= match_positions(s, ts).to_multiset());
                    assert(weight(stack@) < w0);
                }
            }
        }
        proof {
            broadcast use vstd::multiset::group_multiset_axioms;
            assert(ints_of(found@).to_multiset() =~= match_positions(s, ts).to_multiset());
        }
        let sorted = self.sort_draw_order(found);
        proof {
            lemma_pos_le_total(s);
            match_positions(s, ts).lemma_sort_by_ensures(pos_le(s));
            vstd::seq_lib::lemma_sorted_unique(
                ints_of(sorted@),
                match_positions(s, ts).sort_by(pos_le(s)),
                pos_le(s),
            );
            assert(ints_of(sorted@) == match_positions(s, ts).sort_by(pos_le(s)));
        }
        let mut res: Vec<&Transition<S>> = Vec::new();
        let mut i: usize = 0;
        while i < sorted.len()
            invariant
                i <= sorted@.len(),
                s == self.entries(),
                forall|t: int| 0 <= t < sorted@.len() ==> #[trigger] sorted@[t] < self.nodes@.len(),
                res@.len() == i,
                forall|t: int| 0 <= t < i ==> *(#[trigger] res@[t]) == s[sorted@[t] as int],
            decreases sorted@.len() - i,
        {
            let p = sorted[i];
            res.push(&self.nodes[p].transition);
            i += 1;
        }
        proof {
            let spec_sorted = match_positions(s, ts).sort_by(pos_le(s));
            let mapped = res@.map_values(|tr: &Transition<S>| *tr);
            assert forall|t: int| 0 <= t < res@.len()
                implies mapped[t] == #[trigger] query_spec(s, ts)[t] by {
                assert(ints_of(sorted@)[t] == spec_sorted[t]);
                assert(*res@[t] == s[sorted@[t] as int]);
                assert(mapped[t] == *res@[t]);
            }
            assert(mapped =~= query_spec(s, ts));
        }
        res
    }
}

} // verus!
