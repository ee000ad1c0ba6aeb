//! Puzzles whose patterns are byte sequences and whose moves permute positions.
use vstd::prelude::*;

verus! {

/// The pattern reached by applying the move `t` to `p`: position `i` receives
/// what stood at position `t[i]`.
pub open spec fn apply_spec(p: Seq<u8>, t: Seq<usize>) -> Seq<u8> {
    Seq::new(t.len(), |i: int| p[t[i] as int])
}

/// `t` rearranges the positions of a pattern of length `n`.
pub open spec fn move_fits(t: Seq<usize>, n: nat) -> bool {
    t.len() == n && forall|i: int| 0 <= i < t.len() ==> #[trigger] t[i] < n
}

/// Every piece of `p` has an entry in the mask `mask`.
pub open spec fn maskable(p: Seq<u8>, mask: Seq<u8>) -> bool {
    forall|i: int| 0 <= i < p.len() ==> (#[trigger] p[i] as int) < mask.len()
}

/// The projection of `p` through `mask`: each piece is replaced by its mask entry.
pub open spec fn mask_spec(p: Seq<u8>, mask: Seq<u8>) -> Seq<u8> {
    Seq::new(p.len(), |i: int| mask[p[i] as int])
}

/// How many entries of `s` exceed `v`.
pub open spec fn count_greater(s: Seq<u8>, v: u8) -> nat
    decreases s.len(),
{
    if s.len() == 0 {
        0
    } else {
        count_greater(s.drop_last(), v) + if s.last() > v {
            1nat
        } else {
            0nat
        }
    }
}

/// The number of pairs of positions whose entries stand in decreasing order.
pub open spec fn inversions(p: Seq<u8>) -> nat
    decreases p.len(),
{
    if p.len() == 0 {
        0
    } else {
        inversions(p.drop_last()) + count_greater(p.drop_last(), p.last())
    }
}

/// The parity of a full pattern: its number of inversions, modulo 2.
pub open spec fn parity_spec(p: Seq<u8>) -> u8 {
    (inversions(p) % 2) as u8
}

/// Computes the parity of a full pattern.
pub fn parity(p: &Vec<u8>) -> (r: u8)
    ensures
        r == parity_spec(p@),
{
    let mut odd: bool = false;
    let mut i: usize = 0;
    while i < p.len()
        invariant
            i <= p@.len(),
            odd == (inversions(p@.take(i as int)) % 2 == 1),
        decreases p.len() - i,
    {
        let mut c: bool = odd;
        let mut j: usize = 0;
        while j < i
            invariant
                j <= i < p@.len(),
                c == ((inversions(p@.take(i as int)) + count_greater(p@.take(j as int), p@[i as int]))
                    % 2 == 1),
            decreases i - j,
        {
            if p[j] > p[i] {
                c = !c;
            }
            assert(p@.take(j + 1).drop_last() =~= p@.take(j as int));
            j += 1;
        }
        assert(p@.take(i + 1).drop_last() =~= p@.take(i as int));
        odd = c;
        i += 1;
    }
    assert(p@.take(p@.len() as int) =~= p@);
    if odd {
        1
    } else {
        0
    }
}

/// The pattern reached from `p` by the moves `moves[path[0]]`, `moves[path[1]]`, ...
pub open spec fn apply_path(p: Seq<u8>, moves: Seq<Seq<usize>>, path: Seq<int>) -> Seq<u8>
    decreases path.len(),
{
    if path.len() == 0 {
        p
    } else {
        apply_spec(apply_path(p, moves, path.drop_last()), moves[path.last()])
    }
}

/// Every step of `path` names one of `moves`.
pub open spec fn path_fits(moves: Seq<Seq<usize>>, path: Seq<int>) -> bool {
    forall|k: int| 0 <= k < path.len() ==> 0 <= #[trigger] path[k] < moves.len()
}

/// `q` is reached from `p` by a sequence of moves.
pub open spec fn reachable(p: Seq<u8>, moves: Seq<Seq<usize>>, q: Seq<u8>) -> bool {
    exists|path: Seq<int>| path_fits(moves, path) && #[trigger] apply_path(p, moves, path) == q
}

/// Applies the move `t` to the pattern `p`.
pub fn apply_transformation(p: &Vec<u8>, t: &Vec<usize>) -> (r: Vec<u8>)
    requires
        move_fits(t@, p@.len()),
    ensures
        r@ == apply_spec(p@, t@),
{
    let mut r: Vec<u8> = Vec::with_capacity(t.len());
    let mut i: usize = 0;
    while i < t.len()
        invariant
            move_fits(t@, p@.len()),
            i <= t.len(),
            r@ == apply_spec(p@, t@.take(i as int)),
        decreases t.len() - i,
    {
        r.push(p[t[i]]);
        i += 1;
        assert(r@ =~= apply_spec(p@, t@.take(i as int)));
    }
    assert(t@.take(t.len() as int) =~= t@);
    r
}

/// Projects `p` through `mask`.
pub fn mask(p: &Vec<u8>, m: &Vec<u8>) -> (r: Vec<u8>)
    requires
        maskable(p@, m@),
    ensures
        r@ == mask_spec(p@, m@),
{
    let mut r: Vec<u8> = Vec::with_capacity(p.len());
    let mut i: usize = 0;
    while i < p.len()
        invariant
            maskable(p@, m@),
            i <= p.len(),
            r@ == mask_spec(p@.take(i as int), m@),
        decreases p.len() - i,
    {
        r.push(m[p[i] as usize]);
        i += 1;
        assert(r@ =~= mask_spec(p@.take(i as int), m@));
    }
    assert(p@.take(p.len() as int) =~= p@);
    r
}

/// A puzzle: its default pattern and its generator moves, in flat move order.
pub struct PermutationPuzzle {
    pub default_pattern: Vec<u8>,
    pub moves: Vec<Vec<usize>>,
}

impl PermutationPuzzle {
    /// Every generator move fits the default pattern.
    pub open spec fn wf(&self) -> bool {
        forall|m: int| 0 <= m < self.moves@.len()
            ==> move_fits(#[trigger] self.moves@[m]@, self.default_pattern@.len())
    }

    /// The generator moves as sequences.
    pub open spec fn moves_spec(&self) -> Seq<Seq<usize>> {
        self.moves@.map_values(|t: Vec<usize>| t@)
    }

    /// Builds a puzzle, or `None` where a move does not fit the default pattern.
    pub fn try_new(default_pattern: Vec<u8>, moves: Vec<Vec<usize>>) -> (r: Option<Self>)
        ensures
            r matches Some(pz) ==> pz.default_pattern@ == default_pattern@ && pz.moves@
                == moves@ && pz.wf(),
            r is None ==> exists|m: int| 0 <= m < moves@.len() && !move_fits(
                #[trigger] moves@[m]@,
                default_pattern@.len(),
            ),
    {
        let n = default_pattern.len();
        let mut m: usize = 0;
        while m < moves.len()
            invariant
                m <= moves.len(),
                n == default_pattern@.len(),
                forall|k: int| 0 <= k < m ==> move_fits(#[trigger] moves@[k]@, n as nat),
            decreases moves.len() - m,
        {
            let t = &moves[m];
            if t.len() != n {
                assert(!move_fits(moves@[m as int]@, n as nat));
                return None;
            }
            let mut i: usize = 0;
            while i < n
                invariant
                    i <= n,
                    m < moves@.len(),
                    t@ == moves@[m as int]@,
                    t@.len() == n,
                    forall|j: int| 0 <= j < i ==> #[trigger] t@[j] < n,
                decreases n - i,
            {
                if t[i] >= n {
                    assert(t@[i as int] >= n);
                    assert(!move_fits(moves@[m as int]@, n as nat));
                    return None;
                }
                i += 1;
            }
            m += 1;
        }
        Some(PermutationPuzzle { default_pattern, moves })
    }
}

} // verus!
