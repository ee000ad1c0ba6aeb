//! What holds of every built phase lookup table: determinism, the meaning of
//! each transition, distinct keys, and exact breadth-first depths.
use vstd::prelude::*;

use crate::lookup::{key_spec, AlwaysValid, PatternValidityChecker};
use crate::phase_table::{
    built, covered, lemma_apply_maskable, rooted, enumerate, enumeration_of, has_parent, initial, near, position, room,
    successors, transition_spec, Enumeration, PhaseLookupTable, PhasePatternIndex,
};
use crate::puzzle::{
    apply_path, apply_spec, mask_spec, maskable, move_fits, parity_spec, path_fits, reachable,
    PermutationPuzzle,
};

verus! {

/// The enumeration only appends: what `s` has indexed keeps its index, key,
/// representative and depth.
pub proof fn lemma_enumerate_extends<C: PatternValidityChecker>(
    s: Enumeration,
    moves: Seq<Seq<usize>>,
    mask: Seq<u8>,
    cap: nat,
)
    requires
        enumerate::<C>(s, moves, mask, cap) is Some,
        s.reps.len() == s.keys.len(),
        s.depths.len() == s.keys.len(),
    ensures
        ({
            let e = enumerate::<C>(s, moves, mask, cap)->Some_0;
            &&& e.keys.len() >= s.keys.len()
            &&& e.reps.len() == e.keys.len()
            &&& e.depths.len() == e.keys.len()
            &&& e.keys.take(s.keys.len() as int) == s.keys
            &&& e.reps.take(s.keys.len() as int) == s.reps
            &&& e.depths.take(s.keys.len() as int) == s.depths
        }),
    decreases room(s, cap), s.fringe.len(),
{
    if s.fringe.len() > 0 {
        let p = s.fringe[0].0;
        let d = s.fringe[0].1;
        let rest = Enumeration { fringe: s.fringe.drop_first(), ..s };
        match key_spec::<C>(p, mask) {
            None => lemma_enumerate_extends::<C>(rest, moves, mask, cap),
            Some(k) => {
                if s.keys.contains(k) {
                    lemma_enumerate_extends::<C>(rest, moves, mask, cap);
                } else {
                    let next = Enumeration {
                        fringe: s.fringe.drop_first() + successors(p, moves, d + 1),
                        keys: s.keys.push(k),
                        reps: s.reps.push(p),
                        depths: s.depths.push(d),
                    };
                    lemma_enumerate_extends::<C>(next, moves, mask, cap);
                    let e = enumerate::<C>(s, moves, mask, cap)->Some_0;
                    let l = s.keys.len() as int;
                    assert(e.keys.take(l) =~= e.keys.take(l + 1).take(l));
                    assert(e.reps.take(l) =~= e.reps.take(l + 1).take(l));
                    assert(e.depths.take(l) =~= e.depths.take(l + 1).take(l));
                    assert(next.keys.take(l) =~= s.keys);
                    assert(next.reps.take(l) =~= s.reps);
                    assert(next.depths.take(l) =~= s.depths);
                }
            },
        }
    } else {
        let e = s;
        assert(e.keys.take(s.keys.len() as int) =~= s.keys);
        assert(e.reps.take(s.keys.len() as int) =~= s.reps);
        assert(e.depths.take(s.keys.len() as int) =~= s.depths);
    }
}

/// Index 0 belongs to the default pattern, at depth 0, wherever the default
/// pattern belongs to the phase.
pub proof fn lemma_first_index<C: PatternValidityChecker>(
    pz: PermutationPuzzle,
    mask: Seq<u8>,
    cap: nat,
    t: PhaseLookupTable,
)
    requires
        built::<C>(pz, mask, cap, t),
        key_spec::<C>(pz.default_pattern@, mask) is Some,
    ensures
        t.index_to_lookup_pattern@.len() > 0,
        t.index_to_lookup_pattern@[0]@ == key_spec::<C>(pz.default_pattern@, mask)->Some_0,
        t.exact_depths@[0] == 0,
{
    let s = initial(pz.default_pattern@);
    let k = key_spec::<C>(pz.default_pattern@, mask)->Some_0;
    let moves = pz.moves_spec();
    assert(s.fringe[0].0 == pz.default_pattern@);
    assert(!s.keys.contains(k));
    let next = Enumeration {
        fringe: s.fringe.drop_first() + successors(pz.default_pattern@, moves, 1),
        keys: s.keys.push(k),
        reps: s.reps.push(pz.default_pattern@),
        depths: s.depths.push(0),
    };
    assert(enumerate::<C>(s, moves, mask, cap) == enumerate::<C>(next, moves, mask, cap));
    lemma_enumerate_extends::<C>(next, moves, mask, cap);
    let e = enumerate::<C>(next, moves, mask, cap)->Some_0;
    assert(e.keys[0] == e.keys.take(1)[0]);
    assert(e.depths[0] == e.depths.take(1)[0]);
}

/// Building twice from the same puzzle, phase and capacity gives the same keys,
/// depths and transitions.
pub proof fn lemma_build_deterministic<C: PatternValidityChecker>(
    pz: PermutationPuzzle,
    mask: Seq<u8>,
    cap: nat,
    t1: PhaseLookupTable,
    t2: PhaseLookupTable,
)
    requires
        built::<C>(pz, mask, cap, t1),
        built::<C>(pz, mask, cap, t2),
    ensures
        t1.keys() == t2.keys(),
        t1.exact_depths@ == t2.exact_depths@,
        t1.move_application_table@.len() == t2.move_application_table@.len(),
        forall|i: int|
            0 <= i < t1.move_application_table@.len() ==> (#[trigger] t1.move_application_table@[i])@
                == t2.move_application_table@[i]@,
{
    let e = enumeration_of::<C>(pz, mask, cap)->Some_0;
    assert(t1.keys() =~= t2.keys()) by {
        assert forall|i: int| 0 <= i < e.keys.len() implies t1.keys()[i] == t2.keys()[i] by {
            assert(t1.index_to_lookup_pattern@[i]@ == e.keys[i]);
            assert(t2.index_to_lookup_pattern@[i]@ == e.keys[i]);
        }
    }
    assert(t1.exact_depths@ =~= t2.exact_depths@) by {
        assert forall|i: int| 0 <= i < e.keys.len() implies t1.exact_depths@[i]
            == t2.exact_depths@[i] by {
            assert(t1.exact_depths@[i] as nat == e.depths[i]);
            assert(t2.exact_depths@[i] as nat == e.depths[i]);
        }
    }
    assert forall|i: int| 0 <= i < t1.move_application_table@.len() implies (
    #[trigger] t1.move_application_table@[i])@ == t2.move_application_table@[i]@ by {
        assert(t1.move_application_table@[i]@ =~= t2.move_application_table@[i]@) by {
            assert forall|m: int| 0 <= m < pz.moves_spec().len() implies t1.move_application_table@[i]@[m]
                == t2.move_application_table@[i]@[m] by {
                assert(t1.move_application_table@[i]@[m] == transition_spec::<C>(e, pz.moves_spec(), mask, i, m));
                assert(t2.move_application_table@[i]@[m] == transition_spec::<C>(e, pz.moves_spec(), mask, i, m));
            }
        }
    }
}

/// Each present transition leads to the index whose key is that of the moved
/// representative; each absent one leaves the phase, and the other way round.
pub proof fn lemma_transition_consistency<C: PatternValidityChecker>(
    pz: PermutationPuzzle,
    mask: Seq<u8>,
    cap: nat,
    t: PhaseLookupTable,
    i: int,
    m: int,
)
    requires
        built::<C>(pz, mask, cap, t),
        0 <= i < t.index_to_lookup_pattern@.len(),
        0 <= m < pz.moves@.len(),
    ensures
        ({
            let e = enumeration_of::<C>(pz, mask, cap)->Some_0;
            let q = apply_spec(e.reps[i], pz.moves@[m]@);
            &&& key_spec::<C>(e.reps[i], mask) == Some(t.index_to_lookup_pattern@[i]@)
            &&& t.move_application_table@[i]@[m] is None <==> key_spec::<C>(q, mask) is None
            &&& t.move_application_table@[i]@[m] matches Some(j) ==> j.0
                < t.index_to_lookup_pattern@.len() && key_spec::<C>(q, mask) == Some(
                t.index_to_lookup_pattern@[j.0 as int]@,
            )
        }),
{
    let e = enumeration_of::<C>(pz, mask, cap)->Some_0;
    let moves = pz.moves_spec();
    let q = apply_spec(e.reps[i], moves[m]);
    assert(moves[m] == pz.moves@[m]@);
    assert(t.move_application_table@[i]@[m] == transition_spec::<C>(e, moves, mask, i, m));
    assert(t.index_to_lookup_pattern@[i]@ == e.keys[i]);
    assert(covered::<C>(e, moves, mask, i, m));
    if let Some(k) = key_spec::<C>(q, mask) {
        let a = position(e.keys, k);
        assert(e.keys.contains(k));
        assert(e.keys[a] == k);
        assert(t.index_to_lookup_pattern@[a]@ == e.keys[a]);
        assert(a as usize as int == a);
    }
}

/// Looking up the key of an index gives back that index: keys are distinct.
pub proof fn lemma_reverse_lookup<C: PatternValidityChecker>(
    pz: PermutationPuzzle,
    mask: Seq<u8>,
    cap: nat,
    t: PhaseLookupTable,
    i: int,
    j: int,
)
    requires
        built::<C>(pz, mask, cap, t),
        0 <= i < t.index_to_lookup_pattern@.len(),
        0 <= j < t.index_to_lookup_pattern@.len(),
        t.index_to_lookup_pattern@[j]@ == t.index_to_lookup_pattern@[i]@,
    ensures
        j == i,
{
    let e = enumeration_of::<C>(pz, mask, cap)->Some_0;
    assert(t.index_to_lookup_pattern@[i]@ == e.keys[i]);
    assert(t.index_to_lookup_pattern@[j]@ == e.keys[j]);
}

/// Indices are numbered in order of non-decreasing depth, that is of distance
/// from index 0.
pub proof fn lemma_depth_order<C: PatternValidityChecker>(
    pz: PermutationPuzzle,
    mask: Seq<u8>,
    cap: nat,
    t: PhaseLookupTable,
    i: int,
    j: int,
)
    requires
        built::<C>(pz, mask, cap, t),
        0 <= i <= j < t.exact_depths@.len(),
    ensures
        t.exact_depths@[i] <= t.exact_depths@[j],
{
    let e = enumeration_of::<C>(pz, mask, cap)->Some_0;
    assert(t.exact_depths@[i] as nat == e.depths[i]);
    assert(t.exact_depths@[j] as nat == e.depths[j]);
}

/// The move `m` of `t` leads from index `j` to index `i`.
pub open spec fn edge(t: PhaseLookupTable, j: int, m: int, i: int) -> bool {
    &&& 0 <= j < t.move_application_table@.len()
    &&& 0 <= m < t.move_application_table@[j]@.len()
    &&& t.move_application_table@[j]@[m] == Some(PhasePatternIndex(i as usize))
}

/// Index `i` of `t` is reached from index 0 by at most `len` table moves.
pub open spec fn reaches(t: PhaseLookupTable, i: int, len: nat) -> bool
    decreases len,
{
    if len == 0 {
        i == 0
    } else {
        reaches(t, i, (len - 1) as nat) || exists|j: int, m: int|
            #[trigger] edge(t, j, m, i) && reaches(t, j, (len - 1) as nat)
    }
}

/// A table move goes at most one deeper.
proof fn lemma_edge_depth<C: PatternValidityChecker>(
    pz: PermutationPuzzle,
    mask: Seq<u8>,
    cap: nat,
    t: PhaseLookupTable,
    j: int,
    m: int,
)
    requires
        built::<C>(pz, mask, cap, t),
        0 <= j < t.move_application_table@.len(),
        0 <= m < t.move_application_table@[j]@.len(),
    ensures
        t.move_application_table@[j]@[m] matches Some(x) ==> x.0 < t.exact_depths@.len()
            && t.exact_depths@[x.0 as int] <= t.exact_depths@[j] + 1,
{
    let e = enumeration_of::<C>(pz, mask, cap)->Some_0;
    let moves = pz.moves_spec();
    assert(t.move_application_table@[j]@[m] == transition_spec::<C>(e, moves, mask, j, m));
    assert(near::<C>(e, moves, mask, j, m));
    let q = apply_spec(e.reps[j], moves[m]);
    if let Some(k) = key_spec::<C>(q, mask) {
        let a = choose|a: int|
            0 <= a < e.keys.len() && #[trigger] e.keys[a] == k && e.depths[a] <= e.depths[j] + 1;
        let p = position(e.keys, k);
        assert(e.keys[p] == k);
        assert(p == a);
        assert(p as usize as int == p);
        assert(t.exact_depths@[a] as nat == e.depths[a]);
        assert(t.exact_depths@[j] as nat == e.depths[j]);
    }
}

/// No index is reached in fewer moves than its depth.
proof fn lemma_depth_lower_bound<C: PatternValidityChecker>(
    pz: PermutationPuzzle,
    mask: Seq<u8>,
    cap: nat,
    t: PhaseLookupTable,
    i: int,
    len: nat,
)
    requires
        built::<C>(pz, mask, cap, t),
        0 <= i < t.exact_depths@.len(),
        reaches(t, i, len),
    ensures
        t.exact_depths@[i] <= len,
    decreases len,
{
    let e = enumeration_of::<C>(pz, mask, cap)->Some_0;
    if len == 0 {
        assert(t.exact_depths@[0] as nat == e.depths[0]);
    } else if reaches(t, i, (len - 1) as nat) {
        lemma_depth_lower_bound::<C>(pz, mask, cap, t, i, (len - 1) as nat);
    } else {
        let l1 = (len - 1) as nat;
        let (j, m) = choose|j: int, m: int| #[trigger] edge(t, j, m, i) && reaches(t, j, l1);
        lemma_depth_lower_bound::<C>(pz, mask, cap, t, j, (len - 1) as nat);
        lemma_edge_depth::<C>(pz, mask, cap, t, j, m);
        assert(i as usize as int == i);
    }
}

/// Every index is reached in as many moves as its depth.
proof fn lemma_depth_reached<C: PatternValidityChecker>(
    pz: PermutationPuzzle,
    mask: Seq<u8>,
    cap: nat,
    t: PhaseLookupTable,
    i: int,
)
    requires
        built::<C>(pz, mask, cap, t),
        0 <= i < t.exact_depths@.len(),
    ensures
        reaches(t, i, t.exact_depths@[i] as nat),
    decreases i,
{
    let e = enumeration_of::<C>(pz, mask, cap)->Some_0;
    let moves = pz.moves_spec();
    assert(t.exact_depths@[i] as nat == e.depths[i]);
    if i == 0 {
        assert(e.depths[0] == 0);
    } else {
        assert(has_parent::<C>(e, moves, mask, i));
        let (j, m) = choose|j: int, m: int|
            0 <= j < i && 0 <= m < moves.len() && key_spec::<C>(
                apply_spec(#[trigger] e.reps[j], #[trigger] moves[m]),
                mask,
            ) == Some(e.keys[i]) && e.depths[j] + 1 == e.depths[i];
        lemma_depth_reached::<C>(pz, mask, cap, t, j);
        assert(t.exact_depths@[j] as nat == e.depths[j]);
        assert(t.move_application_table@[j]@[m] == transition_spec::<C>(e, moves, mask, j, m));
        let p = position(e.keys, e.keys[i]);
        assert(e.keys[p] == e.keys[i]);
        assert(p == i);
        assert(t.move_application_table@[j]@[m] == Some(PhasePatternIndex(i as usize)));
        let dl = t.exact_depths@[i] as nat;
        assert(reaches(t, j, (dl - 1) as nat));
        assert(0 <= m < t.move_application_table@[j]@.len());
        assert(edge(t, j, m, i));
        assert(reaches(t, i, dl));
    }
}

/// The depth recorded for each index is its distance from index 0 in the
/// table's move graph: reached in that many moves, and in no fewer.
pub proof fn lemma_exact_depth<C: PatternValidityChecker>(
    pz: PermutationPuzzle,
    mask: Seq<u8>,
    cap: nat,
    t: PhaseLookupTable,
    i: int,
)
    requires
        built::<C>(pz, mask, cap, t),
        0 <= i < t.exact_depths@.len(),
    ensures
        reaches(t, i, t.exact_depths@[i] as nat),
        forall|len: nat| #[trigger] reaches(t, i, len) ==> t.exact_depths@[i] <= len,
{
    lemma_depth_reached::<C>(pz, mask, cap, t, i);
    assert forall|len: nat| #[trigger] reaches(t, i, len) implies t.exact_depths@[i] <= len by {
        lemma_depth_lower_bound::<C>(pz, mask, cap, t, i, len);
    }
}

/// Each index holds the key of a pattern reached from the default pattern by moves.
pub proof fn lemma_indices_reachable<C: PatternValidityChecker>(
    pz: PermutationPuzzle,
    mask: Seq<u8>,
    cap: nat,
    t: PhaseLookupTable,
    i: int,
)
    requires
        built::<C>(pz, mask, cap, t),
        0 <= i < t.index_to_lookup_pattern@.len(),
    ensures
        exists|q: Seq<u8>|
            reachable(pz.default_pattern@, pz.moves_spec(), q) && #[trigger] key_spec::<C>(q, mask)
                == Some(t.index_to_lookup_pattern@[i]@),
{
    let e = enumeration_of::<C>(pz, mask, cap)->Some_0;
    assert(t.index_to_lookup_pattern@[i]@ == e.keys[i]);
    assert(reachable(pz.default_pattern@, pz.moves_spec(), e.reps[i]));
    assert(key_spec::<C>(e.reps[i], mask) == Some(e.keys[i]));
}

/// Patterns reached from a maskable pattern stay maskable and keep its length.
proof fn lemma_path_maskable(pz: PermutationPuzzle, mask: Seq<u8>, path: Seq<int>)
    requires
        pz.wf(),
        maskable(pz.default_pattern@, mask),
        path_fits(pz.moves_spec(), path),
    ensures
        maskable(apply_path(pz.default_pattern@, pz.moves_spec(), path), mask),
        apply_path(pz.default_pattern@, pz.moves_spec(), path).len() == pz.default_pattern@.len(),
    decreases path.len(),
{
    if path.len() > 0 {
        let moves = pz.moves_spec();
        let prev = path.drop_last();
        assert(path_fits(moves, prev)) by {
            assert forall|k: int| 0 <= k < prev.len() implies 0 <= #[trigger] prev[k] < moves.len() by {
                assert(prev[k] == path[k]);
            }
        }
        lemma_path_maskable(pz, mask, prev);
        let m = path.last();
        assert(0 <= path[path.len() - 1] < moves.len());
        assert(move_fits(pz.moves@[m]@, pz.default_pattern@.len()));
        lemma_apply_maskable(apply_path(pz.default_pattern@, moves, prev), moves[m], mask);
    }
}

/// Under a mask that keeps every piece and a phase that accepts every pattern,
/// each pattern reached from the default pattern by moves has an index. With
/// `lemma_indices_reachable` and distinct keys, the indices are then exactly
/// the reachable patterns.
pub proof fn lemma_reachable_indexed(
    pz: PermutationPuzzle,
    mask: Seq<u8>,
    cap: nat,
    t: PhaseLookupTable,
    path: Seq<int>,
)
    requires
        pz.wf(),
        built::<AlwaysValid>(pz, mask, cap, t),
        maskable(pz.default_pattern@, mask),
        forall|v: int| 0 <= v < mask.len() ==> #[trigger] mask[v] == v,
        path_fits(pz.moves_spec(), path),
    ensures
        ({
            let q = apply_path(pz.default_pattern@, pz.moves_spec(), path);
            exists|i: int|
                0 <= i < t.index_to_lookup_pattern@.len() && #[trigger] t.index_to_lookup_pattern@[i]@
                    == (q, parity_spec(q))
        }),
    decreases path.len(),
{
    let moves = pz.moves_spec();
    let e = enumeration_of::<AlwaysValid>(pz, mask, cap)->Some_0;
    let q = apply_path(pz.default_pattern@, moves, path);
    lemma_path_maskable(pz, mask, path);
    assert(mask_spec(q, mask) =~= q);
    if path.len() == 0 {
        lemma_first_index::<AlwaysValid>(pz, mask, cap, t);
        assert(t.index_to_lookup_pattern@[0]@ == (q, parity_spec(q)));
    } else {
        let prev = path.drop_last();
        assert(path_fits(moves, prev)) by {
            assert forall|k: int| 0 <= k < prev.len() implies 0 <= #[trigger] prev[k] < moves.len() by {
                assert(prev[k] == path[k]);
            }
        }
        lemma_reachable_indexed(pz, mask, cap, t, prev);
        let q0 = apply_path(pz.default_pattern@, moves, prev);
        let a = choose|a: int|
            0 <= a < t.index_to_lookup_pattern@.len() && #[trigger] t.index_to_lookup_pattern@[a]@
                == (q0, parity_spec(q0));
        assert(t.index_to_lookup_pattern@[a]@ == e.keys[a]);
        assert(key_spec::<AlwaysValid>(e.reps[a], mask) == Some(e.keys[a]));
        assert(maskable(e.reps[a], mask));
        assert(mask_spec(e.reps[a], mask) =~= e.reps[a]);
        assert(e.reps[a] == q0);
        let m = path.last();
        assert(0 <= path[path.len() - 1] < moves.len());
        assert(covered::<AlwaysValid>(e, moves, mask, a, m));
        assert(key_spec::<AlwaysValid>(q, mask) == Some((q, parity_spec(q))));
        let b = choose|b: int| 0 <= b < e.keys.len() && e.keys[b] == (q, parity_spec(q));
        assert(t.index_to_lookup_pattern@[b]@ == e.keys[b]);
    }
}

} // verus!
