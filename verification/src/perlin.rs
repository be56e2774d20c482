//! The lattice of Perlin noise: its permutation tables and the gradient of
//! each lattice point.

use vstd::prelude::*;
use crate::random::random_int;
use crate::vec3::Vec3;

verus! {

/// The number of gradients, and the length of each permutation table.
pub const POINT_COUNT: usize = 256;

/// The tables of Perlin noise.
pub struct Perlin {
    pub ranvec: Vec<Vec3>,
    pub perm_x: Vec<usize>,
    pub perm_y: Vec<usize>,
    pub perm_z: Vec<usize>,
}

/// `p` holds every number below its length exactly once.
pub open spec fn is_permutation(p: Seq<usize>) -> bool {
    &&& forall|i: int| 0 <= i < p.len() ==> (#[trigger] p[i]) < p.len()
    &&& p.no_duplicates()
}

/// The place of the lattice coordinate `i` in a table: its lowest eight bits.
pub open spec fn wrapped(i: i32) -> int {
    (i & 255) as int
}

impl Perlin {
    /// The tables are whole: there are `POINT_COUNT` gradients, and each
    /// table is a permutation of the numbers below `POINT_COUNT`.
    pub open spec fn wf(&self) -> bool {
        &&& self.ranvec@.len() == POINT_COUNT
        &&& self.perm_x@.len() == POINT_COUNT
        &&& self.perm_y@.len() == POINT_COUNT
        &&& self.perm_z@.len() == POINT_COUNT
        &&& is_permutation(self.perm_x@)
        &&& is_permutation(self.perm_y@)
        &&& is_permutation(self.perm_z@)
    }

    /// The number of the gradient at the lattice point `(i, j, k)`: the three
    /// table entries of its coordinates, combined bit by bit.
    pub open spec fn lattice_index(&self, i: i32, j: i32, k: i32) -> usize {
        self.perm_x@[wrapped(i)] ^ self.perm_y@[wrapped(j)] ^ self.perm_z@[wrapped(k)]
    }

    /// Noise with the gradients `ranvec`, of which there must be
    /// `POINT_COUNT`, and three freshly shuffled tables; none if there are
    /// more or fewer gradients.
    pub fn new(ranvec: Vec<Vec3>) -> (noise: Option<Perlin>)
        ensures
            noise.is_some() <==> ranvec@.len() == POINT_COUNT,
            noise.is_some() ==> noise.unwrap().wf() && noise.unwrap().ranvec@ == ranvec@,
    {
        if ranvec.len() != POINT_COUNT {
            return None;
        }
        let perm_x = Perlin::perlin_generate_perm();
        let perm_y = Perlin::perlin_generate_perm();
        let perm_z = Perlin::perlin_generate_perm();
        Some(Perlin { ranvec, perm_x, perm_y, perm_z })
    }

    /// The gradient at the lattice point `(i, j, k)`.
    pub fn gradient(&self, i: i32, j: i32, k: i32) -> (g: Vec3)
        requires
            self.wf(),
        ensures
            self.lattice_index(i, j, k) < POINT_COUNT,
            g == self.ranvec@[self.lattice_index(i, j, k) as int],
    {
        let a = self.perm_x[Perlin::table_place(i)];
        let b = self.perm_y[Perlin::table_place(j)];
        let c = self.perm_z[Perlin::table_place(k)];
        proof {
            assert((a ^ b ^ c) < 256) by (bit_vector)
                requires
                    a < 256,
                    b < 256,
                    c < 256,
            ;
        }
        self.ranvec[a ^ b ^ c]
    }

    /// The place of the lattice coordinate `i` in a table.
    pub fn table_place(i: i32) -> (place: usize)
        ensures
            place == wrapped(i),
            place < POINT_COUNT,
    {
        let low: i32 = i & 255;
        proof {
            assert(0 <= (i & 255) < 256) by (bit_vector);
        }
        low as usize
    }

    /// A table: the numbers below `POINT_COUNT`, shuffled.
    pub fn perlin_generate_perm() -> (p: Vec<usize>)
        ensures
            p@.len() == POINT_COUNT,
            is_permutation(p@),
    {
        let mut p: Vec<usize> = Vec::new();
        let mut i: usize = 0;
        while i < POINT_COUNT
            invariant
                i <= POINT_COUNT,
                p@.len() == i,
                forall|k: int| 0 <= k < i ==> (#[trigger] p@[k]) == k,
            decreases POINT_COUNT - i,
        {
            p.push(i);
            i += 1;
        }
        Perlin::permute(&mut p);
        p
    }

    /// Shuffles `p`: from the last place down to the second, the entry of
    /// each place changes places with one drawn at random from those up to
    /// it. What `p` holds stays the same.
    pub fn permute(p: &mut Vec<usize>)
        requires
            old(p)@.len() <= i32::MAX,
        ensures
            final(p)@.len() == old(p)@.len(),
            final(p)@.to_multiset() == old(p)@.to_multiset(),
            is_permutation(old(p)@) ==> is_permutation(final(p)@),
            exists|draws: Seq<usize>|
                #[trigger] shuffle_draws(draws, old(p)@.len() as int) && final(p)@ == shuffled(
                    old(p)@,
                    draws,
                ),
    {
        let draws = Perlin::draw_places(p.len());
        let done = Perlin::shuffle_with(p, &draws);
        proof {
            lemma_shuffled_rearranges(old(p)@, draws@);
            assert(shuffle_draws(draws@, old(p)@.len() as int));
        }
    }

    /// The draws of one shuffle of `n` entries: for each place from the last
    /// down to the second, a place up to it, drawn at random.
    fn draw_places(n: usize) -> (draws: Vec<usize>)
        requires
            n <= i32::MAX,
        ensures
            shuffle_draws(draws@, n as int),
    {
        let mut draws: Vec<usize> = Vec::new();
        if n < 2 {
            return draws;
        }
        let mut k: usize = 0;
        while k < n - 1
            invariant
                2 <= n <= i32::MAX,
                k <= n - 1,
                draws@.len() == k,
                forall|j: int| 0 <= j < k ==> (#[trigger] draws@[j]) <= n - 1 - j,
            decreases n - 1 - k,
        {
            let place: usize = n - 1 - k;
            let drawn: i32 = random_int(0, place as i32);
            draws.push(drawn as usize);
            k += 1;
        }
        draws
    }

    /// Whether `draws` can be the draws of a shuffle of `n` entries.
    fn fits(draws: &Vec<usize>, n: usize) -> (ok: bool)
        ensures
            ok == draws_fit(draws@, n as int),
    {
        let m = draws.len();
        if m == 0 {
            return true;
        }
        if m >= n {
            return false;
        }
        let mut k: usize = 0;
        while k < m
            invariant
                0 < m < n,
                m == draws@.len(),
                k <= m,
                forall|j: int| 0 <= j < k ==> (#[trigger] draws@[j]) <= n - 1 - j,
            decreases m - k,
        {
            if draws[k] > n - 1 - k {
                return false;
            }
            k += 1;
        }
        true
    }

    /// Shuffles `p` with the draws `draws`: the entry of the last place
    /// changes places with the entry of the place that the first draw names,
    /// the entry of the place before it with that of the second draw, and so
    /// on. Each draw must name a place up to the one it is drawn for; where
    /// one does not, nothing is done and the answer is `false`.
    pub fn shuffle_with(p: &mut Vec<usize>, draws: &Vec<usize>) -> (done: bool)
        ensures
            done == draws_fit(draws@, old(p)@.len() as int),
            done ==> final(p)@ == shuffled(old(p)@, draws@),
            !done ==> final(p)@ == old(p)@,
    {
        let n = p.len();
        if !Perlin::fits(draws, n) {
            return false;
        }
        let m = draws.len();
        let mut k: usize = 0;
        while k < m
            invariant
                n == p@.len(),
                n == old(p)@.len(),
                m == draws@.len(),
                k <= m,
                draws_fit(draws@, n as int),
                p@ == shuffled(old(p)@, draws@.take(k as int)),
            decreases m - k,
        {
            let place: usize = n - 1 - k;
            let target: usize = draws[k];
            let a = p[place];
            let b = p[target];
            p.set(place, b);
            p.set(target, a);
            proof {
                let now = draws@.take(k + 1);
                assert(now.drop_last() =~= draws@.take(k as int));
                assert(now.last() == target);
            }
            k += 1;
        }
        proof {
            assert(draws@.take(m as int) =~= draws@);
        }
        true
    }
}

/// `p` with the entries of the places `i` and `j` exchanged.
pub open spec fn swapped(p: Seq<usize>, i: int, j: int) -> Seq<usize> {
    p.update(i, p[j]).update(j, p[i])
}

/// `draws` can be the first draws of a shuffle of `n` entries: the draw with
/// the number `k`, counted from zero, is for the place `n - 1 - k`, which is
/// not the first place, and names a place up to that one.
pub open spec fn draws_fit(draws: Seq<usize>, n: int) -> bool {
    &&& draws.len() == 0 || draws.len() < n
    &&& forall|k: int| 0 <= k < draws.len() ==> (#[trigger] draws[k]) <= n - 1 - k
}

/// `draws` are all the draws of one shuffle of `n` entries: one for each
/// place from the last down to the second.
pub open spec fn shuffle_draws(draws: Seq<usize>, n: int) -> bool {
    &&& draws_fit(draws, n)
    &&& draws.len() == if n < 2 {
        0
    } else {
        n - 1
    }
}

/// What a shuffle with the draws `draws` makes of `p`: draw by draw, the
/// entry of the place that the draw is for changes places with the entry of
/// the place that the draw names.
pub open spec fn shuffled(p: Seq<usize>, draws: Seq<usize>) -> Seq<usize>
    decreases draws.len(),
{
    if draws.len() == 0 {
        p
    } else {
        swapped(shuffled(p, draws.drop_last()), p.len() - draws.len(), draws.last() as int)
    }
}

/// A shuffle rearranges: it keeps the length and what is held, each entry as
/// often as before, and it makes a permutation of a permutation.
pub proof fn lemma_shuffled_rearranges(p: Seq<usize>, draws: Seq<usize>)
    requires
        draws_fit(draws, p.len() as int),
    ensures
        shuffled(p, draws).len() == p.len(),
        shuffled(p, draws).to_multiset() == p.to_multiset(),
        is_permutation(p) ==> is_permutation(shuffled(p, draws)),
    decreases draws.len(),
{
    if draws.len() > 0 {
        broadcast use vstd::seq_lib::group_to_multiset_ensures;

        let before = shuffled(p, draws.drop_last());
        lemma_shuffled_rearranges(p, draws.drop_last());
        let place = p.len() - draws.len();
        let target = draws.last() as int;
        assert(draws[draws.len() - 1] <= p.len() - 1 - (draws.len() - 1));
        let mid = before.update(place, before[target]);
        let after = swapped(before, place, target);
        assert(after == mid.update(target, before[place]));
        assert(mid.to_multiset() == before.to_multiset().insert(before[target]).remove(
            before[place],
        ));
        assert(after.to_multiset() == mid.to_multiset().insert(before[place]).remove(mid[target]));
        assert(after.to_multiset() =~= before.to_multiset());
    }
}

} // verus!
