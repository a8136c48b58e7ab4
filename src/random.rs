use spacetimedb::rand::rngs::StdRng;
use vstd::prelude::*;

verus! {

/// rand's standard generator, the source of every random choice of the game.
#[verifier::external_type_specification]
#[verifier::external_body]
pub struct ExStdRng(StdRng);

/// Relies on `RngCore::next_u32` of rand's `StdRng`: any `u32` may come back.
#[verifier::external_body]
pub(crate) fn next_u32(rng: &mut StdRng) -> (r: u32) {
    spacetimedb::rand::RngCore::next_u32(rng)
}

/// The index that a draw selects among `n` candidates.
pub open spec fn index_of_draw(draw: u32, n: nat) -> nat
    recommends
        n > 0,
{
    (draw as nat) % n
}

/// Reduces one draw modulo `n`: the way every random choice picks an index.
pub fn pick_index(draw: u32, n: usize) -> (r: usize)
    requires
        n > 0,
    ensures
        r as nat == index_of_draw(draw, n as nat),
        r < n,
{
    (draw as usize) % n
}

/// `v` lists each index below `n` exactly once.
pub open spec fn is_index_permutation(v: Seq<usize>, n: nat) -> bool {
    &&& v.len() == n
    &&& forall|i: int| 0 <= i < v.len() ==> v[i] < n
    &&& v.no_duplicates()
}

/// Exchanges the entries at `i` and `j`.
pub fn swap_entries<T>(v: &mut Vec<T>, i: usize, j: usize)
    requires
        i < old(v)@.len(),
        j < old(v)@.len(),
    ensures
        final(v)@ == old(v)@.update(i as int, old(v)@[j as int]).update(j as int, old(v)@[i as int]),
{
    if i == j {
        return;
    }
    let (lo, hi) = if i < j {
        (i, j)
    } else {
        (j, i)
    };
    let x = v.remove(hi);
    let y = v.remove(lo);
    v.insert(lo, x);
    v.insert(hi, y);
    assert(v@ =~= old(v)@.update(i as int, old(v)@[j as int]).update(j as int, old(v)@[i as int]));
}

/// `b` holds the entries of `a` in the order `order`.
pub open spec fn permuted<T>(a: Seq<T>, b: Seq<T>, order: Seq<usize>) -> bool {
    &&& is_index_permutation(order, a.len())
    &&& b.len() == a.len()
    &&& forall|k: int| 0 <= k < b.len() ==> b[k] == a[order[k] as int]
}

/// `s` with the entries at `i` and `j` exchanged.
pub open spec fn swapped<T>(s: Seq<T>, i: int, j: int) -> Seq<T> {
    s.update(i, s[j]).update(j, s[i])
}

/// The steps of a Fisher-Yates shuffle of `s` for the positions below `i`, from
/// `i - 1` down to 1: position `k` is exchanged with the one that `draws[k]`
/// selects among `0..=k`.
pub open spec fn fisher_yates_below<T>(s: Seq<T>, draws: Seq<u32>, i: int) -> Seq<T>
    decreases i,
{
    if i <= 1 {
        s
    } else {
        let k = i - 1;
        fisher_yates_below(swapped(s, k, index_of_draw(draws[k], (k + 1) as nat) as int), draws, k)
    }
}

/// The Fisher-Yates shuffle of `s` with `draws[k]` drawn for position `k`, the
/// positions taken from the last down to the second (`draws[0]` is not used).
pub open spec fn fisher_yates<T>(s: Seq<T>, draws: Seq<u32>) -> Seq<T> {
    fisher_yates_below(s, draws, s.len() as int)
}

/// Shuffles `v` by Fisher-Yates with the given draws, one per position.
pub fn shuffle_by_draws<T>(v: &mut Vec<T>, draws: &Vec<u32>)
    requires
        draws@.len() == old(v)@.len(),
    ensures
        final(v)@ == fisher_yates(old(v)@, draws@),
        exists|order: Seq<usize>| #[trigger] permuted(old(v)@, final(v)@, order),
{
    let ghost orig = v@;
    let n = v.len();
    let ghost mut order: Seq<usize> = Seq::new(n as nat, |k: int| k as usize);
    let mut i: usize = n;
    while i > 1
        invariant
            n == orig.len(),
            draws@.len() == n,
            i <= n,
            v@.len() == n,
            permuted(orig, v@, order),
            fisher_yates(orig, draws@) == fisher_yates_below(v@, draws@, i as int),
        decreases i,
    {
        i = i - 1;
        let j = pick_index(draws[i], i + 1);
        let ghost before = order;
        swap_entries(v, i, j);
        proof {
            order = before.update(i as int, before[j as int]).update(j as int, before[i as int]);
            assert forall|x: int, y: int| 0 <= x < y < order.len() implies order[x] != order[y] by {
                let sx = if x == i as int { j as int } else if x == j as int { i as int } else { x };
                let sy = if y == i as int { j as int } else if y == j as int { i as int } else { y };
                assert(order[x] == before[sx]);
                assert(order[y] == before[sy]);
            }
        }
    }
}

/// One draw for each of the positions `n - 1` down to 1, made in that order;
/// position 0 gets none and holds 0.
pub fn draws_for_positions(rng: &mut StdRng, n: usize) -> (r: Vec<u32>)
    ensures
        r@.len() == n,
{
    let mut d: Vec<u32> = Vec::new();
    let mut k: usize = 0;
    while k < n
        invariant
            k <= n,
            d@.len() == k,
        decreases n - k,
    {
        d.push(0);
        k = k + 1;
    }
    let mut i: usize = n;
    while i > 1
        invariant
            i <= n,
            d@.len() == n,
        decreases i,
    {
        i = i - 1;
        d[i] = next_u32(rng);
    }
    d
}

/// Shuffles `v` in place by Fisher-Yates, drawing one number per position from
/// the last down to the second.
pub fn shuffle_vec<T>(v: &mut Vec<T>, rng: &mut StdRng)
    ensures
        exists|draws: Seq<u32>|
            draws.len() == old(v)@.len() && #[trigger] fisher_yates(old(v)@, draws) == final(v)@,
        exists|order: Seq<usize>| #[trigger] permuted(old(v)@, final(v)@, order),
{
    let draws = draws_for_positions(rng, v.len());
    shuffle_by_draws(v, &draws);
}

/// The indices `0..n`, in order.
pub open spec fn identity_order(n: nat) -> Seq<usize> {
    Seq::new(n, |k: int| k as usize)
}

/// The indices `0..n` in an order drawn by a Fisher-Yates shuffle, from the last
/// position down to the second.
pub fn shuffled_indices(rng: &mut StdRng, n: usize) -> (r: Vec<usize>)
    ensures
        is_index_permutation(r@, n as nat),
        exists|draws: Seq<u32>|
            draws.len() == n && #[trigger] fisher_yates(identity_order(n as nat), draws) == r@,
{
    let mut v: Vec<usize> = Vec::new();
    let mut k: usize = 0;
    while k < n
        invariant
            k <= n,
            v@.len() == k,
            forall|i: int| 0 <= i < k ==> v@[i] == i,
        decreases n - k,
    {
        v.push(k);
        k = k + 1;
    }
    assert(v@ =~= identity_order(n as nat));
    let ghost start = v@;
    let draws = draws_for_positions(rng, n);
    shuffle_by_draws(&mut v, &draws);
    proof {
        let order = choose|order: Seq<usize>| #[trigger] permuted(start, v@, order);
        assert(v@ =~= order);
    }
    v
}

} // verus!
