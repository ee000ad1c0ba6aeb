//! The phase lookup table: breadth-first enumeration of the keys reachable from
//! the default pattern, each with a dense index, and the move transitions
//! between them.
use vstd::prelude::*;

use crate::lookup::{key_spec, KeyView, LookupPattern, PatternValidityChecker};
use crate::puzzle::{
    apply_path, apply_spec, apply_transformation, maskable, move_fits, path_fits, reachable,
    PermutationPuzzle,
};

verus! {

/// Dense index of a key within one phase lookup table.
#[derive(Clone, Copy, PartialEq, Eq, Structural, Debug)]
pub struct PhasePatternIndex(pub usize);

/// Dense index of a move within the generator list.
#[derive(Clone, Copy, PartialEq, Eq, Structural, Debug)]
pub struct FlatMoveIndex(pub usize);

/// Why a table could not be built.
#[derive(Clone, Copy, PartialEq, Eq, Structural, Debug)]
pub enum BuildError {
    /// More distinct keys are reachable than the table may hold.
    CapacityExceeded,
}

/// The state of the enumeration: the fringe of (pattern, depth) pairs still to
/// visit, and for each index found so far its key, representative pattern and depth.
pub struct Enumeration {
    pub fringe: Seq<(Seq<u8>, nat)>,
    pub keys: Seq<KeyView>,
    pub reps: Seq<Seq<u8>>,
    pub depths: Seq<nat>,
}

/// The entries pushed to the fringe on visiting `p` at depth `d - 1`, in move order.
pub open spec fn successors(p: Seq<u8>, moves: Seq<Seq<usize>>, d: nat) -> Seq<(Seq<u8>, nat)> {
    Seq::new(moves.len(), |m: int| (apply_spec(p, moves[m]), d))
}

/// The enumeration before its first step.
pub open spec fn initial(default_pattern: Seq<u8>) -> Enumeration {
    Enumeration {
        fringe: seq![(default_pattern, 0nat)],
        keys: Seq::empty(),
        reps: Seq::empty(),
        depths: Seq::empty(),
    }
}

/// How many more keys fit under the capacity `cap`.
pub open spec fn room(s: Enumeration, cap: nat) -> nat {
    if s.keys.len() <= cap {
        (cap - s.keys.len()) as nat
    } else {
        0
    }
}

/// Runs the enumeration from `s` to the end: pop the head of the fringe; skip it
/// where its key is outside the phase or already indexed; otherwise give the key
/// the next index and push the pattern's successors. `None` where more than
/// `cap` keys would be indexed.
pub open spec fn enumerate<C: PatternValidityChecker>(
    s: Enumeration,
    moves: Seq<Seq<usize>>,
    mask: Seq<u8>,
    cap: nat,
) -> Option<Enumeration>
    decreases room(s, cap), s.fringe.len(),
{
    if s.fringe.len() == 0 {
        Some(s)
    } else {
        let p = s.fringe[0].0;
        let d = s.fringe[0].1;
        let rest = Enumeration { fringe: s.fringe.drop_first(), ..s };
        match key_spec::<C>(p, mask) {
            None => enumerate::<C>(rest, moves, mask, cap),
            Some(k) => {
                if s.keys.contains(k) {
                    enumerate::<C>(rest, moves, mask, cap)
                } else if s.keys.len() >= cap {
                    None
                } else {
                    enumerate::<C>(
                        Enumeration {
                            fringe: s.fringe.drop_first() + successors(p, moves, d + 1),
                            keys: s.keys.push(k),
                            reps: s.reps.push(p),
                            depths: s.depths.push(d),
                        },
                        moves,
                        mask,
                        cap,
                    )
                }
            },
        }
    }
}

/// The finished enumeration of a puzzle under a phase.
pub open spec fn enumeration_of<C: PatternValidityChecker>(
    pz: PermutationPuzzle,
    mask: Seq<u8>,
    cap: nat,
) -> Option<Enumeration> {
    enumerate::<C>(initial(pz.default_pattern@), pz.moves_spec(), mask, cap)
}

/// Index `i` and move `m` lead to a pattern outside the phase, to a key already
/// indexed, or to a pattern still waiting in the fringe.
pub open spec fn covered<C: PatternValidityChecker>(
    s: Enumeration,
    moves: Seq<Seq<usize>>,
    mask: Seq<u8>,
    i: int,
    m: int,
) -> bool {
    let q = apply_spec(s.reps[i], moves[m]);
    match key_spec::<C>(q, mask) {
        None => true,
        Some(k) => s.keys.contains(k) || exists|j: int|
            0 <= j < s.fringe.len() && (#[trigger] s.fringe[j]).0 == q,
    }
}

/// The facts that hold of every state of the enumeration of patterns of length `n`.
pub open spec fn consistent<C: PatternValidityChecker>(
    s: Enumeration,
    moves: Seq<Seq<usize>>,
    mask: Seq<u8>,
    n: nat,
) -> bool {
    &&& s.reps.len() == s.keys.len()
    &&& s.depths.len() == s.keys.len()
    &&& forall|i: int|
        0 <= i < s.keys.len() ==> key_spec::<C>(#[trigger] s.reps[i], mask) == Some(s.keys[i])
    &&& forall|i: int|
        0 <= i < s.keys.len() ==> maskable(#[trigger] s.reps[i], mask) && s.reps[i].len() == n
    &&& forall|i: int, j: int|
        0 <= i < s.keys.len() && 0 <= j < s.keys.len() && i != j ==> #[trigger] s.keys[i]
            != #[trigger] s.keys[j]
    &&& forall|j: int|
        0 <= j < s.fringe.len() ==> maskable((#[trigger] s.fringe[j]).0, mask) && s.fringe[j].0.len()
            == n && s.fringe[j].1 <= s.keys.len()
    &&& forall|i: int, m: int|
        0 <= i < s.keys.len() && 0 <= m < moves.len() ==> #[trigger] covered::<C>(
            s,
            moves,
            mask,
            i,
            m,
        )
}

/// Moves keep a pattern maskable and keep its length.
pub proof fn lemma_apply_maskable(p: Seq<u8>, t: Seq<usize>, mask: Seq<u8>)
    requires
        maskable(p, mask),
        move_fits(t, p.len()),
    ensures
        maskable(apply_spec(p, t), mask),
        apply_spec(p, t).len() == p.len(),
{
    assert forall|i: int| 0 <= i < apply_spec(p, t).len() implies (#[trigger] apply_spec(
        p,
        t,
    )[i] as int) < mask.len() by {
        assert(t[i] < p.len());
    }
}

/// The index of a key equal to `k` in `keys`, if any.
pub fn find_key(keys: &Vec<LookupPattern>, k: &LookupPattern) -> (r: Option<usize>)
    ensures
        r matches Some(i) ==> i < keys@.len() && keys@[i as int]@ == k@,
        r is None ==> forall|i: int| 0 <= i < keys@.len() ==> (#[trigger] keys@[i])@ != k@,
{
    let mut i: usize = 0;
    while i < keys.len()
        invariant
            i <= keys@.len(),
            forall|j: int| 0 <= j < i ==> (#[trigger] keys@[j])@ != k@,
        decreases keys.len() - i,
    {
        if keys[i].same_key(k) {
            return Some(i);
        }
        i += 1;
    }
    None
}

/// Index `i` and move `m` lead outside the phase, to an indexed key no deeper
/// than one past `i`, or to a fringe entry no deeper than that.
pub open spec fn near<C: PatternValidityChecker>(
    s: Enumeration,
    moves: Seq<Seq<usize>>,
    mask: Seq<u8>,
    i: int,
    m: int,
) -> bool {
    let q = apply_spec(s.reps[i], moves[m]);
    match key_spec::<C>(q, mask) {
        None => true,
        Some(k) => (exists|a: int|
            0 <= a < s.keys.len() && #[trigger] s.keys[a] == k && s.depths[a] <= s.depths[i] + 1)
            || exists|j: int|
            0 <= j < s.fringe.len() && (#[trigger] s.fringe[j]).0 == q && s.fringe[j].1 <= s.depths[i]
                + 1,
    }
}

/// A fringe entry of positive depth is a move away from an indexed
/// representative one shallower.
pub open spec fn from_parent(s: Enumeration, moves: Seq<Seq<usize>>, f: (Seq<u8>, nat)) -> bool {
    f.1 > 0 ==> exists|j: int, m: int|
        0 <= j < s.keys.len() && 0 <= m < moves.len() && f.0 == apply_spec(
            #[trigger] s.reps[j],
            #[trigger] moves[m],
        ) && s.depths[j] + 1 == f.1
}

/// Index `i` is a move away from an earlier index one shallower.
pub open spec fn has_parent<C: PatternValidityChecker>(
    s: Enumeration,
    moves: Seq<Seq<usize>>,
    mask: Seq<u8>,
    i: int,
) -> bool {
    exists|j: int, m: int|
        0 <= j < i && 0 <= m < moves.len() && key_spec::<C>(
            apply_spec(#[trigger] s.reps[j], #[trigger] moves[m]),
            mask,
        ) == Some(s.keys[i]) && s.depths[j] + 1 == s.depths[i]
}

/// The breadth-first order of the enumeration: the fringe is sorted by depth
/// and spans at most two depths, no index is deeper than the fringe, and each
/// index but the first was reached from a shallower one.
pub open spec fn ordered<C: PatternValidityChecker>(
    s: Enumeration,
    moves: Seq<Seq<usize>>,
    mask: Seq<u8>,
) -> bool {
    &&& forall|j1: int, j2: int|
        0 <= j1 <= j2 < s.fringe.len() ==> (#[trigger] s.fringe[j1]).1 <= (#[trigger] s.fringe[j2]).1
    &&& forall|j: int| 0 <= j < s.fringe.len() ==> (#[trigger] s.fringe[j]).1 <= s.fringe[0].1 + 1
    &&& forall|i: int, j: int|
        0 <= i < s.keys.len() && 0 <= j < s.fringe.len() ==> #[trigger] s.depths[i] <= (
        #[trigger] s.fringe[j]).1
    &&& forall|i: int, m: int|
        0 <= i < s.keys.len() && 0 <= m < moves.len() ==> #[trigger] near::<C>(s, moves, mask, i, m)
    &&& forall|j: int| 0 <= j < s.fringe.len() ==> from_parent(s, moves, #[trigger] s.fringe[j])
    &&& forall|j: int|
        0 <= j < s.fringe.len() && (#[trigger] s.fringe[j]).1 == 0 ==> j == 0 && s.keys.len() == 0
    &&& s.keys.len() == 0 ==> forall|j: int| 0 <= j < s.fringe.len() ==> (#[trigger] s.fringe[j]).1 == 0
    &&& forall|i: int| 0 < i < s.keys.len() ==> #[trigger] has_parent::<C>(s, moves, mask, i)
    &&& s.keys.len() > 0 ==> s.depths[0] == 0
    &&& forall|i: int, j: int|
        0 <= i <= j < s.keys.len() ==> #[trigger] s.depths[i] <= #[trigger] s.depths[j]
}

/// Every fringe entry and every representative is reached from `start` by moves.
pub open spec fn rooted(s: Enumeration, moves: Seq<Seq<usize>>, start: Seq<u8>) -> bool {
    &&& forall|j: int| 0 <= j < s.fringe.len() ==> reachable(start, moves, #[trigger] s.fringe[j].0)
    &&& forall|i: int| 0 <= i < s.reps.len() ==> reachable(start, moves, #[trigger] s.reps[i])
}

/// One more move from a reachable pattern gives a reachable pattern.
pub proof fn lemma_reachable_step(start: Seq<u8>, moves: Seq<Seq<usize>>, q: Seq<u8>, m: int)
    requires
        reachable(start, moves, q),
        0 <= m < moves.len(),
    ensures
        reachable(start, moves, apply_spec(q, moves[m])),
{
    let path = choose|path: Seq<int>| path_fits(moves, path) && #[trigger] apply_path(start, moves, path) == q;
    let p2 = path.push(m);
    assert(p2.drop_last() =~= path);
    assert(path_fits(moves, p2));
    assert(apply_path(start, moves, p2) == apply_spec(q, moves[m]));
}

/// A skipped fringe head keeps the enumeration rooted at `start`.
proof fn lemma_rooted_skip(g0: Enumeration, moves: Seq<Seq<usize>>, start: Seq<u8>)
    requires
        rooted(g0, moves, start),
        g0.fringe.len() > 0,
    ensures
        rooted(Enumeration { fringe: g0.fringe.drop_first(), ..g0 }, moves, start),
{
    let rest = g0.fringe.drop_first();
    assert forall|j: int| 0 <= j < rest.len() implies reachable(start, moves, #[trigger] rest[j].0) by {
        assert(rest[j] == g0.fringe[j + 1]);
    }
}

/// Visiting a fringe head keeps the enumeration rooted at `start`.
proof fn lemma_rooted_visit(g0: Enumeration, moves: Seq<Seq<usize>>, start: Seq<u8>, k: KeyView)
    requires
        rooted(g0, moves, start),
        g0.fringe.len() > 0,
    ensures
        rooted(
            Enumeration {
                fringe: g0.fringe.drop_first() + successors(g0.fringe[0].0, moves, g0.fringe[0].1 + 1),
                keys: g0.keys.push(k),
                reps: g0.reps.push(g0.fringe[0].0),
                depths: g0.depths.push(g0.fringe[0].1),
            },
            moves,
            start,
        ),
{
    let p = g0.fringe[0].0;
    let rest = g0.fringe.drop_first();
    let succ = successors(p, moves, g0.fringe[0].1 + 1);
    let f = rest + succ;
    let reps = g0.reps.push(p);
    assert forall|j: int| 0 <= j < rest.len() implies reachable(start, moves, #[trigger] rest[j].0) by {
        assert(rest[j] == g0.fringe[j + 1]);
    }
    assert forall|j: int| 0 <= j < f.len() implies reachable(start, moves, #[trigger] f[j].0) by {
        if j < rest.len() {
            assert(f[j] == rest[j]);
        } else {
            assert(f[j] == succ[j - rest.len()]);
            lemma_reachable_step(start, moves, p, j - rest.len());
        }
    }
    assert forall|i: int| 0 <= i < reps.len() implies reachable(start, moves, #[trigger] reps[i]) by {
        if i < g0.reps.len() {
            assert(reps[i] == g0.reps[i]);
        }
    }
}

/// A skipped fringe head keeps the enumeration in breadth-first order.
proof fn lemma_skip_ordered<C: PatternValidityChecker>(
    g0: Enumeration,
    moves: Seq<Seq<usize>>,
    mask: Seq<u8>,
    n: nat,
)
    requires
        consistent::<C>(g0, moves, mask, n),
        ordered::<C>(g0, moves, mask),
        g0.fringe.len() > 0,
        key_spec::<C>(g0.fringe[0].0, mask) matches Some(k) ==> g0.keys.contains(k),
    ensures
        ordered::<C>(Enumeration { fringe: g0.fringe.drop_first(), ..g0 }, moves, mask),
{
    let g = Enumeration { fringe: g0.fringe.drop_first(), ..g0 };
    assert forall|j1: int, j2: int| 0 <= j1 <= j2 < g.fringe.len() implies (
    #[trigger] g.fringe[j1]).1 <= (#[trigger] g.fringe[j2]).1 by {
        assert(g.fringe[j1] == g0.fringe[j1 + 1]);
        assert(g.fringe[j2] == g0.fringe[j2 + 1]);
    }
    assert forall|j: int| 0 <= j < g.fringe.len() implies (#[trigger] g.fringe[j]).1
        <= g.fringe[0].1 + 1 by {
        assert(g.fringe[j] == g0.fringe[j + 1]);
        assert(g.fringe[0] == g0.fringe[1]);
        assert(g0.fringe[0].1 <= g0.fringe[1].1);
    }
    assert forall|i: int, j: int| 0 <= i < g.keys.len() && 0 <= j < g.fringe.len() implies #[trigger] g.depths[i]
        <= (#[trigger] g.fringe[j]).1 by {
        assert(g.fringe[j] == g0.fringe[j + 1]);
        assert(g0.depths[i] <= g0.fringe[j + 1].1);
    }
    assert forall|i: int, m: int| 0 <= i < g.keys.len() && 0 <= m < moves.len() implies #[trigger] near::<C>(
        g,
        moves,
        mask,
        i,
        m,
    ) by {
        assert(near::<C>(g0, moves, mask, i, m));
        let q = apply_spec(g.reps[i], moves[m]);
        if let Some(k) = key_spec::<C>(q, mask) {
            if !(exists|a: int|
                0 <= a < g.keys.len() && #[trigger] g.keys[a] == k && g.depths[a] <= g.depths[i] + 1) {
                let j = choose|j: int|
                    0 <= j < g0.fringe.len() && (#[trigger] g0.fringe[j]).0 == q && g0.fringe[j].1
                        <= g0.depths[i] + 1;
                if j == 0 {
                    let a = choose|a: int| 0 <= a < g0.keys.len() && g0.keys[a] == k;
                    assert(g0.depths[a] <= g0.fringe[0].1);
                    assert(g.keys[a] == k);
                } else {
                    assert(g.fringe[j - 1] == g0.fringe[j]);
                }
            }
        }
    }
    assert forall|j: int| 0 <= j < g.fringe.len() implies from_parent(g, moves, #[trigger] g.fringe[j]) by {
        assert(g.fringe[j] == g0.fringe[j + 1]);
        assert(from_parent(g0, moves, g0.fringe[j + 1]));
        if g.fringe[j].1 > 0 {
            let (a, m) = choose|a: int, m: int|
                0 <= a < g0.keys.len() && 0 <= m < moves.len() && g0.fringe[j + 1].0 == apply_spec(
                    #[trigger] g0.reps[a],
                    #[trigger] moves[m],
                ) && g0.depths[a] + 1 == g0.fringe[j + 1].1;
            assert(g.reps[a] == g0.reps[a] && g.depths[a] == g0.depths[a]);
        }
    }
    assert forall|j: int| 0 <= j < g.fringe.len() && (#[trigger] g.fringe[j]).1 == 0 implies j == 0
        && g.keys.len() == 0 by {
        assert(g.fringe[j] == g0.fringe[j + 1]);
    }
    assert forall|i: int| 0 < i < g.keys.len() implies #[trigger] has_parent::<C>(g, moves, mask, i) by {
        assert(has_parent::<C>(g0, moves, mask, i));
    }
}

/// Visiting a fringe head whose key is new keeps the enumeration in
/// breadth-first order.
proof fn lemma_visit_ordered<C: PatternValidityChecker>(
    g0: Enumeration,
    moves: Seq<Seq<usize>>,
    mask: Seq<u8>,
    n: nat,
    k: KeyView,
)
    requires
        consistent::<C>(g0, moves, mask, n),
        ordered::<C>(g0, moves, mask),
        g0.fringe.len() > 0,
        key_spec::<C>(g0.fringe[0].0, mask) == Some(k),
        !g0.keys.contains(k),
    ensures
        ordered::<C>(
            Enumeration {
                fringe: g0.fringe.drop_first() + successors(g0.fringe[0].0, moves, g0.fringe[0].1 + 1),
                keys: g0.keys.push(k),
                reps: g0.reps.push(g0.fringe[0].0),
                depths: g0.depths.push(g0.fringe[0].1),
            },
            moves,
            mask,
        ),
{
    let p = g0.fringe[0].0;
    let d = g0.fringe[0].1;
    let rest = g0.fringe.drop_first();
    let succ = successors(p, moves, d + 1);
    let g = Enumeration {
        fringe: rest + succ,
        keys: g0.keys.push(k),
        reps: g0.reps.push(p),
        depths: g0.depths.push(d),
    };
    let last = g0.keys.len() as int;
    assert forall|j: int| 0 <= j < g.fringe.len() implies d <= (#[trigger] g.fringe[j]).1 && g.fringe[j].1
        <= d + 1 && (j < rest.len() ==> g.fringe[j] == g0.fringe[j + 1]) && (j >= rest.len()
        ==> g.fringe[j] == succ[j - rest.len()]) by {
        if j < rest.len() {
            assert(g.fringe[j] == g0.fringe[j + 1]);
            assert(g0.fringe[0].1 <= g0.fringe[j + 1].1);
        } else {
            assert(g.fringe[j] == succ[j - rest.len()]);
        }
    }
    assert forall|j1: int, j2: int| 0 <= j1 <= j2 < g.fringe.len() implies (
    #[trigger] g.fringe[j1]).1 <= (#[trigger] g.fringe[j2]).1 by {
        if j2 < rest.len() {
            assert(g0.fringe[j1 + 1].1 <= g0.fringe[j2 + 1].1);
        }
    }
    assert forall|j: int| 0 <= j < g.fringe.len() implies (#[trigger] g.fringe[j]).1 <= g.fringe[0].1
        + 1 by {
        assert(d <= g.fringe[0].1);
    }
    assert forall|i: int, j: int| 0 <= i < g.keys.len() && 0 <= j < g.fringe.len() implies #[trigger] g.depths[i]
        <= (#[trigger] g.fringe[j]).1 by {
        assert(d <= g.fringe[j].1);
        if i < last {
            assert(g.depths[i] == g0.depths[i]);
            assert(g0.depths[i] <= g0.fringe[0].1);
        }
    }
    assert forall|i: int, m: int| 0 <= i < g.keys.len() && 0 <= m < moves.len() implies #[trigger] near::<C>(
        g,
        moves,
        mask,
        i,
        m,
    ) by {
        let q = apply_spec(g.reps[i], moves[m]);
        if i < last {
            assert(g.reps[i] == g0.reps[i]);
            assert(g.depths[i] == g0.depths[i]);
            assert(near::<C>(g0, moves, mask, i, m));
            if let Some(kq) = key_spec::<C>(q, mask) {
                if exists|a: int|
                    0 <= a < g0.keys.len() && #[trigger] g0.keys[a] == kq && g0.depths[a] <= g0.depths[i]
                        + 1 {
                    let a = choose|a: int|
                        0 <= a < g0.keys.len() && #[trigger] g0.keys[a] == kq && g0.depths[a]
                            <= g0.depths[i] + 1;
                    assert(g.keys[a] == kq && g.depths[a] == g0.depths[a]);
                } else {
                    let j = choose|j: int|
                        0 <= j < g0.fringe.len() && (#[trigger] g0.fringe[j]).0 == q && g0.fringe[j].1
                            <= g0.depths[i] + 1;
                    if j == 0 {
                        assert(g.keys[last] == kq);
                        assert(g.depths[last] == d);
                    } else {
                        assert(g.fringe[j - 1] == g0.fringe[j]);
                    }
                }
            }
        } else {
            assert(g.reps[i] == p);
            assert(g.depths[i] == d);
            assert(g.fringe[rest.len() + m] == succ[m]);
        }
    }
    assert forall|j: int| 0 <= j < g.fringe.len() implies from_parent(g, moves, #[trigger] g.fringe[j]) by {
        if j < rest.len() {
            assert(from_parent(g0, moves, g0.fringe[j + 1]));
            if g.fringe[j].1 > 0 {
                let (a, m) = choose|a: int, m: int|
                    0 <= a < g0.keys.len() && 0 <= m < moves.len() && g0.fringe[j + 1].0 == apply_spec(
                        #[trigger] g0.reps[a],
                        #[trigger] moves[m],
                    ) && g0.depths[a] + 1 == g0.fringe[j + 1].1;
                assert(g.reps[a] == g0.reps[a] && g.depths[a] == g0.depths[a]);
            }
        } else {
            let m = j - rest.len();
            assert(g.reps[last] == p && g.depths[last] == d);
            assert(g.fringe[j].0 == apply_spec(g.reps[last], moves[m]));
        }
    }
    assert forall|j: int| 0 <= j < g.fringe.len() && (#[trigger] g.fringe[j]).1 == 0 implies j == 0
        && g.keys.len() == 0 by {
        if j < rest.len() {
            assert(g0.fringe[j + 1].1 == 0);
        }
    }
    assert forall|i: int| 0 < i < g.keys.len() implies #[trigger] has_parent::<C>(g, moves, mask, i) by {
        if i < last {
            assert(has_parent::<C>(g0, moves, mask, i));
            let (a, m) = choose|a: int, m: int|
                0 <= a < i && 0 <= m < moves.len() && key_spec::<C>(
                    apply_spec(#[trigger] g0.reps[a], #[trigger] moves[m]),
                    mask,
                ) == Some(g0.keys[i]) && g0.depths[a] + 1 == g0.depths[i];
            assert(g.reps[a] == g0.reps[a] && g.depths[a] == g0.depths[a]);
            assert(g.keys[i] == g0.keys[i] && g.depths[i] == g0.depths[i]);
        } else {
            assert(d != 0);
            assert(from_parent(g0, moves, g0.fringe[0]));
            let (a, m) = choose|a: int, m: int|
                0 <= a < g0.keys.len() && 0 <= m < moves.len() && g0.fringe[0].0 == apply_spec(
                    #[trigger] g0.reps[a],
                    #[trigger] moves[m],
                ) && g0.depths[a] + 1 == g0.fringe[0].1;
            assert(g.reps[a] == g0.reps[a] && g.depths[a] == g0.depths[a]);
            assert(g.keys[i] == k && g.depths[i] == d);
        }
    }
    assert forall|i: int, j: int| 0 <= i <= j < g.keys.len() implies #[trigger] g.depths[i]
        <= #[trigger] g.depths[j] by {
        if j < last {
            assert(g.depths[i] == g0.depths[i] && g.depths[j] == g0.depths[j]);
        } else if i < last {
            assert(g.depths[i] == g0.depths[i]);
            assert(g0.depths[i] <= g0.fringe[0].1);
        }
    }
    if last == 0 {
        assert(g.depths[0] == d);
    } else {
        assert(g.depths[0] == g0.depths[0]);
    }
}

/// A skipped fringe head keeps the enumeration consistent.
proof fn lemma_skip<C: PatternValidityChecker>(
    g0: Enumeration,
    moves: Seq<Seq<usize>>,
    mask: Seq<u8>,
    n: nat,
)
    requires
        consistent::<C>(g0, moves, mask, n),
        g0.fringe.len() > 0,
        key_spec::<C>(g0.fringe[0].0, mask) matches Some(k) ==> g0.keys.contains(k),
    ensures
        consistent::<C>(Enumeration { fringe: g0.fringe.drop_first(), ..g0 }, moves, mask, n),
{
    let g = Enumeration { fringe: g0.fringe.drop_first(), ..g0 };
    assert forall|j: int| 0 <= j < g.fringe.len() implies maskable(
        (#[trigger] g.fringe[j]).0,
        mask,
    ) && g.fringe[j].0.len() == n && g.fringe[j].1 <= g.keys.len() by {
        assert(g.fringe[j] == g0.fringe[j + 1]);
    }
    assert forall|i: int, m: int|
        0 <= i < g.keys.len() && 0 <= m < moves.len() implies #[trigger] covered::<C>(
        g,
        moves,
        mask,
        i,
        m,
    ) by {
        assert(covered::<C>(g0, moves, mask, i, m));
        let q = apply_spec(g.reps[i], moves[m]);
        if let Some(k) = key_spec::<C>(q, mask) {
            if !g.keys.contains(k) {
                let j = choose|j: int| 0 <= j < g0.fringe.len() && (#[trigger] g0.fringe[j]).0 == q;
                assert(j != 0);
                assert(g.fringe[j - 1] == g0.fringe[j]);
            }
        }
    }
}

/// Visiting a fringe head whose key is new keeps the enumeration consistent.
proof fn lemma_visit<C: PatternValidityChecker>(
    g0: Enumeration,
    moves: Seq<Seq<usize>>,
    mask: Seq<u8>,
    n: nat,
    k: KeyView,
)
    requires
        consistent::<C>(g0, moves, mask, n),
        g0.fringe.len() > 0,
        key_spec::<C>(g0.fringe[0].0, mask) == Some(k),
        !g0.keys.contains(k),
        forall|m: int| 0 <= m < moves.len() ==> move_fits(#[trigger] moves[m], n),
    ensures
        consistent::<C>(
            Enumeration {
                fringe: g0.fringe.drop_first() + successors(g0.fringe[0].0, moves, g0.fringe[0].1 + 1),
                keys: g0.keys.push(k),
                reps: g0.reps.push(g0.fringe[0].0),
                depths: g0.depths.push(g0.fringe[0].1),
            },
            moves,
            mask,
            n,
        ),
{
    let p = g0.fringe[0].0;
    let d = g0.fringe[0].1;
    let rest = g0.fringe.drop_first();
    let succ = successors(p, moves, d + 1);
    let g = Enumeration {
        fringe: rest + succ,
        keys: g0.keys.push(k),
        reps: g0.reps.push(p),
        depths: g0.depths.push(d),
    };
    let last = g0.keys.len() as int;
    assert forall|i: int| 0 <= i < g.keys.len() implies key_spec::<C>(#[trigger] g.reps[i], mask)
        == Some(g.keys[i]) && maskable(g.reps[i], mask) && g.reps[i].len() == n by {
        if i < last {
            assert(g.reps[i] == g0.reps[i]);
        }
    }
    assert forall|i: int, j: int|
        0 <= i < g.keys.len() && 0 <= j < g.keys.len() && i != j implies #[trigger] g.keys[i]
        != #[trigger] g.keys[j] by {
        if i == last {
            assert(g.keys[j] == g0.keys[j]);
        } else if j == last {
            assert(g.keys[i] == g0.keys[i]);
        }
    }
    assert forall|j: int| 0 <= j < g.fringe.len() implies maskable((#[trigger] g.fringe[j]).0, mask)
        && g.fringe[j].0.len() == n && g.fringe[j].1 <= g.keys.len() by {
        if j < rest.len() {
            assert(g.fringe[j] == g0.fringe[j + 1]);
        } else {
            let m = j - rest.len();
            assert(g.fringe[j] == succ[m]);
            lemma_apply_maskable(p, moves[m], mask);
        }
    }
    assert forall|i: int, m: int|
        0 <= i < g.keys.len() && 0 <= m < moves.len() implies #[trigger] covered::<C>(
        g,
        moves,
        mask,
        i,
        m,
    ) by {
        let q = apply_spec(g.reps[i], moves[m]);
        if i < last {
            assert(g.reps[i] == g0.reps[i]);
            assert(covered::<C>(g0, moves, mask, i, m));
            if let Some(kq) = key_spec::<C>(q, mask) {
                if g0.keys.contains(kq) {
                    let a = choose|a: int| 0 <= a < g0.keys.len() && g0.keys[a] == kq;
                    assert(g.keys[a] == kq);
                } else {
                    let j = choose|j: int|
                        0 <= j < g0.fringe.len() && (#[trigger] g0.fringe[j]).0 == q;
                    if j == 0 {
                        assert(g.keys[last] == kq);
                    } else {
                        assert(g.fringe[j - 1] == g0.fringe[j]);
                    }
                }
            }
        } else {
            assert(g.reps[i] == p);
            assert(g.fringe[rest.len() + m] == succ[m]);
        }
    }
}

/// The exec state of the enumeration stands for the ghost state `g`.
pub open spec fn mirrors(
    g: Enumeration,
    fringe: Seq<(Vec<u8>, usize)>,
    head: int,
    keys: Seq<LookupPattern>,
    reps: Seq<Vec<u8>>,
    depths: Seq<usize>,
) -> bool {
    &&& 0 <= head <= fringe.len()
    &&& g.fringe.len() == fringe.len() - head
    &&& forall|j: int|
        head <= j < fringe.len() ==> (#[trigger] fringe[j]).0@ == g.fringe[j - head].0
            && fringe[j].1 as nat == g.fringe[j - head].1
    &&& keys.len() == g.keys.len()
    &&& forall|i: int| 0 <= i < keys.len() ==> (#[trigger] keys[i])@ == g.keys[i]
    &&& reps.len() == g.reps.len()
    &&& forall|i: int| 0 <= i < reps.len() ==> (#[trigger] reps[i])@ == g.reps[i]
    &&& depths.len() == g.depths.len()
    &&& forall|i: int| 0 <= i < depths.len() ==> (#[trigger] depths[i]) as nat == g.depths[i]
}

/// Pass one: enumerates the keys, their representatives and depths.
fn run_enumeration<C: PatternValidityChecker>(
    pz: &PermutationPuzzle,
    phase_mask: &Vec<u8>,
    capacity: usize,
) -> (r: Option<(Vec<LookupPattern>, Vec<Vec<u8>>, Vec<usize>)>)
    requires
        pz.wf(),
        maskable(pz.default_pattern@, phase_mask@),
    ensures
        r is None <==> enumeration_of::<C>(*pz, phase_mask@, capacity as nat) is None,
        r matches Some(t) ==> {
            let e = enumeration_of::<C>(*pz, phase_mask@, capacity as nat)->Some_0;
            &&& e.fringe.len() == 0
            &&& consistent::<C>(e, pz.moves_spec(), phase_mask@, pz.default_pattern@.len())
            &&& ordered::<C>(e, pz.moves_spec(), phase_mask@)
            &&& rooted(e, pz.moves_spec(), pz.default_pattern@)
            &&& e.keys.len() <= capacity
            &&& mirrors(e, Seq::empty(), 0, t.0@, t.1@, t.2@)
        },
{
    let ghost moves = pz.moves_spec();
    let ghost mask = phase_mask@;
    let ghost cap = capacity as nat;
    let ghost n = pz.default_pattern@.len();
    let mut fringe: Vec<(Vec<u8>, usize)> = Vec::new();
    fringe.push((pz.default_pattern.clone(), 0));
    let mut head: usize = 0;
    let mut keys: Vec<LookupPattern> = Vec::new();
    let mut reps: Vec<Vec<u8>> = Vec::new();
    let mut depths: Vec<usize> = Vec::new();
    let ghost mut g = initial(pz.default_pattern@);
    assert(g.fringe[0].0 == pz.default_pattern@);
    assert(apply_path(pz.default_pattern@, moves, Seq::empty()) == pz.default_pattern@);
    assert(path_fits(moves, Seq::<int>::empty()));
    while head < fringe.len()
        invariant
            pz.wf(),
            moves == pz.moves_spec(),
            mask == phase_mask@,
            cap == capacity as nat,
            n == pz.default_pattern@.len(),
            mirrors(g, fringe@, head as int, keys@, reps@, depths@),
            consistent::<C>(g, moves, mask, n),
            ordered::<C>(g, moves, mask),
            rooted(g, moves, pz.default_pattern@),
            g.keys.len() <= cap,
            enumerate::<C>(g, moves, mask, cap) == enumeration_of::<C>(*pz, mask, cap),
        decreases room(g, cap), fringe.len() - head,
    {
        let ghost g0 = g;
        let p = fringe[head].0.clone();
        let d = fringe[head].1;
        assert(p@ == g0.fringe[0].0);
        head += 1;
        proof {
            g = Enumeration { fringe: g0.fringe.drop_first(), ..g0 };
        }
        let found = LookupPattern::try_new::<C>(&p, phase_mask);
        if let Some(k) = found {
            let at = find_key(&keys, &k);
            if at.is_some() {
                assert(g0.keys[at.unwrap() as int] == k@);
                proof {
                    lemma_skip::<C>(g0, moves, mask, n);
                    lemma_skip_ordered::<C>(g0, moves, mask, n);
                    lemma_rooted_skip(g0, moves, pz.default_pattern@);
                }
            } else {
                assert forall|i: int| 0 <= i < g0.keys.len() implies g0.keys[i] != k@ by {
                    assert(keys@[i]@ == g0.keys[i]);
                }
                assert(!g0.keys.contains(k@));
                if keys.len() >= capacity {
                    assert(enumerate::<C>(g0, moves, mask, cap) is None);
                    return None;
                }
                let ghost before = fringe@.len();
                let ghost f0 = fringe@;
                let mut m: usize = 0;
                while m < pz.moves.len()
                    invariant
                        pz.wf(),
                        moves == pz.moves_spec(),
                        p@.len() == n,
                        n == pz.default_pattern@.len(),
                        head <= before <= fringe@.len(),
                        fringe@.len() == before + m,
                        m <= pz.moves@.len(),
                        d < capacity,
                        fringe@.subrange(0, before as int) == f0,
                        forall|j: int|
                            before <= j < fringe@.len() ==> (#[trigger] fringe@[j]).0@
                                == apply_spec(p@, moves[j - before]) && fringe@[j].1 == d + 1,
                    decreases pz.moves.len() - m,
                {
                    assert(move_fits(pz.moves@[m as int]@, n));
                    let q = apply_transformation(&p, &pz.moves[m]);
                    fringe.push((q, d + 1));
                    m += 1;
                    assert(fringe@.subrange(0, before as int) =~= f0);
                }
                let ghost kv = k@;
                let ghost pv = p@;
                keys.push(k);
                reps.push(p);
                depths.push(d);
                proof {
                    g = Enumeration {
                        fringe: g0.fringe.drop_first() + successors(pv, moves, d as nat + 1),
                        keys: g0.keys.push(kv),
                        reps: g0.reps.push(pv),
                        depths: g0.depths.push(d as nat),
                    };
                    lemma_visit::<C>(g0, moves, mask, n, kv);
                    lemma_visit_ordered::<C>(g0, moves, mask, n, kv);
                    lemma_rooted_visit(g0, moves, pz.default_pattern@, kv);
                    assert forall|j: int| head <= j < fringe@.len() implies (#[trigger] fringe@[j]).0@
                        == g.fringe[j - head].0 && fringe@[j].1 as nat == g.fringe[j - head].1 by {
                        if j < before {
                            assert(fringe@[j] == f0[j]);
                            assert(g.fringe[j - head] == g0.fringe[j - head + 1]);
                        } else {
                            assert(g.fringe[j - head] == successors(pv, moves, d as nat + 1)[j - before]);
                        }
                    }
                    assert(mirrors(g, fringe@, head as int, keys@, reps@, depths@));
                }
            }
        } else {
            proof {
                lemma_skip::<C>(g0, moves, mask, n);
                lemma_skip_ordered::<C>(g0, moves, mask, n);
                lemma_rooted_skip(g0, moves, pz.default_pattern@);
            }
        }
    }
    Some((keys, reps, depths))
}

/// The position of `k` in `keys`, where it occurs.
pub open spec fn position(keys: Seq<KeyView>, k: KeyView) -> int {
    choose|j: int| 0 <= j < keys.len() && keys[j] == k
}

/// The entry for index `i` and move `m` of the table built from the enumeration `e`.
pub open spec fn transition_spec<C: PatternValidityChecker>(
    e: Enumeration,
    moves: Seq<Seq<usize>>,
    mask: Seq<u8>,
    i: int,
    m: int,
) -> Option<PhasePatternIndex> {
    match key_spec::<C>(apply_spec(e.reps[i], moves[m]), mask) {
        None => None,
        Some(k) => Some(PhasePatternIndex(position(e.keys, k) as usize)),
    }
}

/// A finished phase lookup table: for each index its key and its exact depth,
/// and for each index and move the index reached, or `None` where the move
/// leaves the phase.
pub struct PhaseLookupTable {
    pub index_to_lookup_pattern: Vec<LookupPattern>,
    pub move_application_table: Vec<Vec<Option<PhasePatternIndex>>>,
    pub exact_depths: Vec<usize>,
}

/// `t` holds exactly what the enumeration `e` found, and the transitions of its
/// representatives under `moves`.
pub open spec fn table_of<C: PatternValidityChecker>(
    t: PhaseLookupTable,
    e: Enumeration,
    moves: Seq<Seq<usize>>,
    mask: Seq<u8>,
) -> bool {
    &&& t.index_to_lookup_pattern@.len() == e.keys.len()
    &&& e.keys.len() <= usize::MAX
    &&& forall|i: int|
        0 <= i < e.keys.len() ==> (#[trigger] t.index_to_lookup_pattern@[i])@ == e.keys[i]
    &&& t.exact_depths@.len() == e.keys.len()
    &&& forall|i: int| 0 <= i < e.keys.len() ==> (#[trigger] t.exact_depths@[i]) as nat == e.depths[i]
    &&& t.move_application_table@.len() == e.keys.len()
    &&& forall|i: int|
        0 <= i < e.keys.len() ==> (#[trigger] t.move_application_table@[i])@.len() == moves.len()
    &&& forall|i: int, m: int|
        0 <= i < e.keys.len() && 0 <= m < moves.len() ==> #[trigger] t.move_application_table@[i]@[m]
            == transition_spec::<C>(e, moves, mask, i, m)
}

/// What `build_phase_lookup_table` returns for a puzzle, a phase and a capacity.
pub open spec fn built<C: PatternValidityChecker>(
    pz: PermutationPuzzle,
    mask: Seq<u8>,
    cap: nat,
    t: PhaseLookupTable,
) -> bool {
    &&& enumeration_of::<C>(pz, mask, cap) is Some
    &&& table_of::<C>(t, enumeration_of::<C>(pz, mask, cap)->Some_0, pz.moves_spec(), mask)
    &&& enumeration_of::<C>(pz, mask, cap)->Some_0.fringe.len() == 0
    &&& consistent::<C>(
        enumeration_of::<C>(pz, mask, cap)->Some_0,
        pz.moves_spec(),
        mask,
        pz.default_pattern@.len(),
    )
    &&& ordered::<C>(enumeration_of::<C>(pz, mask, cap)->Some_0, pz.moves_spec(), mask)
    &&& rooted(enumeration_of::<C>(pz, mask, cap)->Some_0, pz.moves_spec(), pz.default_pattern@)
}

impl PhaseLookupTable {
    /// The keys, by index.
    pub open spec fn keys(&self) -> Seq<KeyView> {
        self.index_to_lookup_pattern@.map_values(|k: LookupPattern| k@)
    }

    /// Every index and move of the table has an entry.
    pub open spec fn covers(&self, i: int, m: int) -> bool {
        0 <= i < self.move_application_table@.len() && 0 <= m
            < self.move_application_table@[i]@.len()
    }

    /// The number of indices.
    pub fn len(&self) -> (r: usize)
        ensures
            r == self.index_to_lookup_pattern@.len(),
    {
        self.index_to_lookup_pattern.len()
    }

    /// The index reached from `phase_pattern_index` by the move `flat_move_index`,
    /// or `None` where that move leaves the phase.
    pub fn apply_move(
        &self,
        phase_pattern_index: PhasePatternIndex,
        flat_move_index: FlatMoveIndex,
    ) -> (r: Option<PhasePatternIndex>)
        requires
            self.covers(phase_pattern_index.0 as int, flat_move_index.0 as int),
        ensures
            r == self.move_application_table@[phase_pattern_index.0 as int]@[flat_move_index.0 as int],
    {
        self.move_application_table[phase_pattern_index.0][flat_move_index.0]
    }

    /// The key of an index.
    pub fn lookup_pattern(&self, phase_pattern_index: PhasePatternIndex) -> (r: &LookupPattern)
        requires
            phase_pattern_index.0 < self.index_to_lookup_pattern@.len(),
        ensures
            r@ == self.index_to_lookup_pattern@[phase_pattern_index.0 as int]@,
    {
        &self.index_to_lookup_pattern[phase_pattern_index.0]
    }

    /// The index of a key, or `None` where the table does not hold it.
    pub fn index_of(&self, lookup_pattern: &LookupPattern) -> (r: Option<PhasePatternIndex>)
        ensures
            r matches Some(i) ==> i.0 < self.index_to_lookup_pattern@.len()
                && self.index_to_lookup_pattern@[i.0 as int]@ == lookup_pattern@,
            r is None ==> forall|i: int|
                0 <= i < self.index_to_lookup_pattern@.len()
                    ==> (#[trigger] self.index_to_lookup_pattern@[i])@ != lookup_pattern@,
    {
        match find_key(&self.index_to_lookup_pattern, lookup_pattern) {
            Some(i) => Some(PhasePatternIndex(i)),
            None => None,
        }
    }
}

/// Pass two: the transitions of each representative under each move.
fn build_transitions<C: PatternValidityChecker>(
    pz: &PermutationPuzzle,
    phase_mask: &Vec<u8>,
    keys: &Vec<LookupPattern>,
    reps: &Vec<Vec<u8>>,
    depths: &Vec<usize>,
    e: Ghost<Enumeration>,
) -> (r: Vec<Vec<Option<PhasePatternIndex>>>)
    requires
        pz.wf(),
        e@.fringe.len() == 0,
        consistent::<C>(e@, pz.moves_spec(), phase_mask@, pz.default_pattern@.len()),
        mirrors(e@, Seq::empty(), 0, keys@, reps@, depths@),
    ensures
        r@.len() == e@.keys.len(),
        forall|i: int| 0 <= i < e@.keys.len() ==> (#[trigger] r@[i])@.len() == pz.moves@.len(),
        forall|i: int, m: int|
            0 <= i < e@.keys.len() && 0 <= m < pz.moves@.len() ==> #[trigger] r@[i]@[m]
                == transition_spec::<C>(e@, pz.moves_spec(), phase_mask@, i, m),
{
    let ghost moves = pz.moves_spec();
    let ghost n = pz.default_pattern@.len();
    let mut table: Vec<Vec<Option<PhasePatternIndex>>> = Vec::new();
    let mut i: usize = 0;
    while i < reps.len()
        invariant
            pz.wf(),
            moves == pz.moves_spec(),
            n == pz.default_pattern@.len(),
            e@.fringe.len() == 0,
            consistent::<C>(e@, moves, phase_mask@, n),
            mirrors(e@, Seq::empty(), 0, keys@, reps@, depths@),
            i <= reps@.len(),
            table@.len() == i,
            forall|a: int| 0 <= a < i ==> (#[trigger] table@[a])@.len() == pz.moves@.len(),
            forall|a: int, m: int|
                0 <= a < i && 0 <= m < pz.moves@.len() ==> #[trigger] table@[a]@[m]
                    == transition_spec::<C>(e@, moves, phase_mask@, a, m),
        decreases reps.len() - i,
    {
        let mut row: Vec<Option<PhasePatternIndex>> = Vec::new();
        let mut m: usize = 0;
        assert(reps@[i as int]@ == e@.reps[i as int]);
        while m < pz.moves.len()
            invariant
                pz.wf(),
                moves == pz.moves_spec(),
                n == pz.default_pattern@.len(),
                e@.fringe.len() == 0,
                consistent::<C>(e@, moves, phase_mask@, n),
                mirrors(e@, Seq::empty(), 0, keys@, reps@, depths@),
                i < reps@.len(),
                reps@[i as int]@ == e@.reps[i as int],
                m <= pz.moves@.len(),
                row@.len() == m,
                forall|b: int| 0 <= b < m ==> row@[b] == transition_spec::<C>(e@, moves, phase_mask@, i as int, b),
            decreases pz.moves.len() - m,
        {
            assert(move_fits(pz.moves@[m as int]@, n));
            let q = apply_transformation(&reps[i], &pz.moves[m]);
            proof {
                lemma_apply_maskable(e@.reps[i as int], moves[m as int], phase_mask@);
                assert(covered::<C>(e@, moves, phase_mask@, i as int, m as int));
            }
            match LookupPattern::try_new::<C>(&q, phase_mask) {
                None => row.push(None),
                Some(k) => {
                    let found = find_key(keys, &k);
                    proof {
                        let a = choose|a: int| 0 <= a < e@.keys.len() && e@.keys[a] == k@;
                        assert(keys@[a]@ == e@.keys[a]);
                    }
                    let j = found.unwrap();
                    proof {
                        let a = position(e@.keys, k@);
                        assert(keys@[j as int]@ == e@.keys[j as int]);
                        assert(e@.keys[a] == k@);
                        assert(a == j);
                    }
                    row.push(Some(PhasePatternIndex(j)));
                },
            }
            m += 1;
        }
        table.push(row);
        i += 1;
    }
    table
}

/// Checks that every piece of `p` has an entry in `mask`.
pub fn check_maskable(p: &Vec<u8>, mask: &Vec<u8>) -> (r: bool)
    ensures
        r == maskable(p@, mask@),
{
    let mut i: usize = 0;
    while i < p.len()
        invariant
            i <= p@.len(),
            forall|j: int| 0 <= j < i ==> (#[trigger] p@[j] as int) < mask@.len(),
        decreases p.len() - i,
    {
        if p[i] as usize >= mask.len() {
            assert(!((p@[i as int] as int) < mask@.len()));
            return false;
        }
        i += 1;
    }
    true
}

/// Builds the phase lookup table of `pz` for the phase given by `phase_mask` and
/// `C`, holding at most `capacity` indices.
pub fn build_phase_lookup_table<C: PatternValidityChecker>(
    pz: &PermutationPuzzle,
    phase_mask: &Vec<u8>,
    capacity: usize,
) -> (r: Result<PhaseLookupTable, BuildError>)
    requires
        pz.wf(),
        maskable(pz.default_pattern@, phase_mask@),
    ensures
        r == Err::<PhaseLookupTable, BuildError>(BuildError::CapacityExceeded) <==> enumeration_of::<
            C,
        >(*pz, phase_mask@, capacity as nat) is None,
        r matches Ok(t) ==> built::<C>(*pz, phase_mask@, capacity as nat, t),
{
    match run_enumeration::<C>(pz, phase_mask, capacity) {
        None => Err(BuildError::CapacityExceeded),
        Some((keys, reps, depths)) => {
            let ghost e = enumeration_of::<C>(*pz, phase_mask@, capacity as nat)->Some_0;
            let move_application_table = build_transitions::<C>(
                pz,
                phase_mask,
                &keys,
                &reps,
                &depths,
                Ghost(e),
            );
            Ok(
                PhaseLookupTable {
                    index_to_lookup_pattern: keys,
                    move_application_table,
                    exact_depths: depths,
                },
            )
        },
    }
}

} // verus!
