//! Random data: test vectors and the vector ids that the simulated search
//! probes.
use vstd::prelude::*;

verus! {

/// Calls `rand::random::<u8>()`, which draws from the thread-local generator:
/// any byte can come back.
#[verifier::external_body]
fn random_u8() -> u8 {
    rand::random::<u8>()
}

/// Calls `rand::random::<usize>()`, which draws from the thread-local
/// generator: any `usize` can come back.
#[verifier::external_body]
fn random_usize() -> usize {
    rand::random::<usize>()
}

/// Cuts `draws` into `num_vectors` vectors of `dimension` bytes, in order:
/// vector `i` holds the draws from `i * dimension` on.
pub fn vectors_from_draws(draws: &[u8], num_vectors: usize, dimension: usize) -> (vectors: Vec<Vec<u8>>)
    requires
        draws@.len() == num_vectors * dimension,
    ensures
        vectors@.len() == num_vectors,
        forall|i: int| 0 <= i < num_vectors ==> #[trigger] vectors@[i]@.len() == dimension,
        forall|i: int, j: int|
            0 <= i < num_vectors && 0 <= j < dimension ==> #[trigger] vectors@[i]@[j] == draws@[i * dimension + j],
{
    let len = draws.len();
    let mut vectors: Vec<Vec<u8>> = Vec::new();
    let mut i: usize = 0;
    let mut base: usize = 0;
    while i < num_vectors
        invariant
            i <= num_vectors,
            len == draws@.len(),
            draws@.len() == num_vectors * dimension,
            base == i * dimension,
            vectors@.len() == i,
            forall|k: int| 0 <= k < i ==> #[trigger] vectors@[k]@.len() == dimension,
            forall|k: int, j: int|
                0 <= k < i && 0 <= j < dimension ==> #[trigger] vectors@[k]@[j] == draws@[k * dimension + j],
        decreases num_vectors - i,
    {
        assert(base + dimension <= num_vectors * dimension) by (nonlinear_arith)
            requires
                base == i * dimension,
                i < num_vectors,
        ;
        let mut v: Vec<u8> = Vec::new();
        let mut j: usize = 0;
        while j < dimension
            invariant
                j <= dimension,
                base + dimension <= draws@.len(),
                len == draws@.len(),
                v@.len() == j,
                forall|t: int| 0 <= t < j ==> #[trigger] v@[t] == draws@[base + t],
            decreases dimension - j,
        {
            v.push(draws[base + j]);
            j = j + 1;
        }
        let ghost prev = vectors@;
        vectors.push(v);
        proof {
            assert forall|k: int, t: int|
                0 <= k < i + 1 && 0 <= t < dimension implies #[trigger] vectors@[k]@[t] == draws@[k * dimension + t] by {
                if k < i {
                    assert(vectors@[k] == prev[k]);
                } else {
                    assert(k * dimension == base);
                }
            }
            assert((i + 1) * dimension == base + dimension) by (nonlinear_arith)
                requires
                    base == i * dimension,
            ;
        }
        base = base + dimension;
        i = i + 1;
    }
    vectors
}

/// `num_vectors` vectors of `dimension` random bytes each: the bytes are
/// drawn one after another and laid out vector by vector.
pub fn get_random_vectors(num_vectors: usize, dimension: usize) -> (vectors: Vec<Vec<u8>>)
    requires
        num_vectors * dimension <= usize::MAX,
    ensures
        vectors@.len() == num_vectors,
        forall|i: int| 0 <= i < num_vectors ==> #[trigger] vectors@[i]@.len() == dimension,
{
    let total = num_vectors * dimension;
    let mut draws: Vec<u8> = Vec::new();
    let mut k: usize = 0;
    while k < total
        invariant
            k <= total,
            draws@.len() == k,
        decreases total - k,
    {
        draws.push(random_u8());
        k = k + 1;
    }
    vectors_from_draws(draws.as_slice(), num_vectors, dimension)
}

/// Turns random draws into vector ids below `num_vectors`, one per draw.
pub fn ids_from_draws(draws: &[usize], num_vectors: usize) -> (ids: Vec<usize>)
    requires
        draws@.len() > 0 ==> num_vectors > 0,
    ensures
        ids@.len() == draws@.len(),
        forall|i: int| 0 <= i < draws@.len() ==> #[trigger] ids@[i] == draws@[i] % num_vectors,
{
    let mut ids: Vec<usize> = Vec::new();
    let mut i: usize = 0;
    while i < draws.len()
        invariant
            i <= draws@.len(),
            draws@.len() > 0 ==> num_vectors > 0,
            ids@.len() == i,
            forall|k: int| 0 <= k < i ==> #[trigger] ids@[k] == draws@[k] % num_vectors,
        decreases draws@.len() - i,
    {
        ids.push(draws[i] % num_vectors);
        i = i + 1;
    }
    ids
}

/// `beamwidth` random vector ids, each below `num_vectors`.
pub fn sample_ids(beamwidth: usize, num_vectors: usize) -> (ids: Vec<usize>)
    requires
        beamwidth > 0 ==> num_vectors > 0,
    ensures
        ids@.len() == beamwidth,
        forall|i: int| 0 <= i < beamwidth ==> #[trigger] ids@[i] < num_vectors,
{
    let mut draws: Vec<usize> = Vec::new();
    let mut i: usize = 0;
    while i < beamwidth
        invariant
            i <= beamwidth,
            draws@.len() == i,
        decreases beamwidth - i,
    {
        draws.push(random_usize());
        i = i + 1;
    }
    let ids = ids_from_draws(draws.as_slice(), num_vectors);
    assert forall|i: int| 0 <= i < beamwidth implies #[trigger] ids@[i] < num_vectors by {
        assert(ids@[i] == draws@[i] % num_vectors);
    }
    ids
}

} // verus!
