//! Genotype encodings, populations, and the stochastic generators that
//! build a population for a given encoding, dimension and size.

use vstd::prelude::*;
use crate::rng::{coin_flip, new_rng, sample_u64_inclusive, shuffle_in_place};

verus! {

/// Marker for the closed set of genotype representations.
pub trait Encoding: Clone {

}

/// A candidate solution whose genes are booleans.
#[derive(Clone)]
pub struct BinaryEncoding(pub Vec<bool>);

impl Encoding for BinaryEncoding {

}

impl BinaryEncoding {
    pub fn to_bool_slice(&self) -> (r: &[bool])
        ensures
            r@ == self.0@,
    {
        self.0.as_slice()
    }
}

/// A candidate solution whose genes are a permutation of `0..dim`.
#[derive(Clone)]
pub struct IntPermEncoding(pub Vec<usize>);

impl Encoding for IntPermEncoding {

}

/// A candidate solution whose genes are bounded unsigned integers.
#[derive(Clone)]
pub struct IntegerEncoding(pub Vec<u64>);

impl Encoding for IntegerEncoding {

}

/// An ordered, fixed-size collection of individuals of one encoding; the
/// order carries no meaning beyond insertion.
pub struct Population<E: Encoding>(pub Vec<E>);

impl<E: Encoding> Population<E> {
    pub fn get_individuals(&self) -> (r: &[E])
        ensures
            r@ == self.0@,
    {
        self.0.as_slice()
    }
}

/// Builds one population per call for its fixed encoding.
pub trait PopGenerator {
    type E: Encoding;

    fn gen_pop(&self) -> Population<Self::E>;
}

/// A construction-time configuration fault.
#[derive(Debug, Clone, Copy, PartialEq, Eq, Structural)]
pub enum GeneratorConfigError {
    /// The sampling bounds are inverted (`lower > upper`).
    InvalidBounds,
}

/// The sequence `0, 1, ..., n - 1`.
pub open spec fn identity_perm(n: nat) -> Seq<usize> {
    Seq::new(n, |j: int| j as usize)
}

/// Whether `s` is a rearrangement of `0..n`: a bijection onto that range.
pub open spec fn is_permutation_of_range(s: Seq<usize>, n: nat) -> bool {
    s.to_multiset() == identity_perm(n).to_multiset()
}

/// A permutation of `0..n` has length `n`, repeats no gene, and holds
/// exactly the values below `n`.
pub proof fn lemma_permutation_properties(s: Seq<usize>, n: nat)
    requires
        n <= usize::MAX,
        is_permutation_of_range(s, n),
    ensures
        s.len() == n,
        s.no_duplicates(),
        forall|k: usize| (k as nat) < n <==> #[trigger] s.contains(k),
{
    let ident = identity_perm(n);
    ident.to_multiset_ensures();
    s.to_multiset_ensures();
    assert(ident.no_duplicates());
    ident.lemma_multiset_has_no_duplicates();
    s.lemma_multiset_has_no_duplicates_conv();
    assert forall|k: usize| (k as nat) < n implies #[trigger] s.contains(k) by {
        assert(ident[k as int] == k);
        assert(ident.contains(k));
        assert(ident.to_multiset().count(k) > 0);
        assert(s.to_multiset().count(k) > 0);
    }
    assert forall|k: usize| s.contains(k) implies (k as nat) < n by {
        assert(ident.to_multiset().count(k) > 0);
        assert(ident.contains(k));
        let j = choose|j: int| 0 <= j < ident.len() && ident[j] == k;
    }
}

/// Generates binary individuals: each gene an independent fair coin flip.
pub struct BinaryPopGenerator {
    dim: usize,
    pop_size: usize,
}

impl BinaryPopGenerator {
    pub closed spec fn spec_dim(self) -> usize {
        self.dim
    }

    pub closed spec fn spec_pop_size(self) -> usize {
        self.pop_size
    }

    pub fn new(dim: usize, pop_size: usize) -> (g: BinaryPopGenerator)
        ensures
            g.spec_dim() == dim,
            g.spec_pop_size() == pop_size,
    {
        BinaryPopGenerator { dim, pop_size }
    }

    /// Builds `pop_size` individuals of `dim` coin-flip genes each.
    pub fn gen_pop(&self) -> (p: Population<BinaryEncoding>)
        ensures
            p.0@.len() == self.spec_pop_size(),
            forall|i: int|
                0 <= i < p.0@.len() ==> (#[trigger] p.0@[i]).0@.len() == self.spec_dim(),
    {
        let mut rng = new_rng();
        let mut individuals: Vec<BinaryEncoding> = Vec::new();
        let mut i: usize = 0;
        while i < self.pop_size
            invariant
                0 <= i <= self.pop_size,
                individuals@.len() == i,
                forall|k: int|
                    0 <= k < i ==> (#[trigger] individuals@[k]).0@.len() == self.spec_dim(),
            decreases self.pop_size - i,
        {
            let mut genes: Vec<bool> = Vec::new();
            let mut j: usize = 0;
            while j < self.dim
                invariant
                    0 <= j <= self.dim,
                    genes@.len() == j,
                decreases self.dim - j,
            {
                let b = coin_flip(&mut rng);
                genes.push(b);
                j = j + 1;
            }
            individuals.push(BinaryEncoding(genes));
            i = i + 1;
        }
        Population(individuals)
    }
}

impl PopGenerator for BinaryPopGenerator {
    type E = BinaryEncoding;

    fn gen_pop(&self) -> Population<BinaryEncoding> {
        BinaryPopGenerator::gen_pop(self)
    }
}

/// Generates integer individuals: each gene drawn uniformly from the
/// inclusive bounds.
pub struct IntegerPopGenerator {
    dim: usize,
    bounds: (u64, u64),
    pop_size: usize,
}

impl IntegerPopGenerator {
    pub closed spec fn spec_dim(self) -> usize {
        self.dim
    }

    pub closed spec fn spec_bounds(self) -> (u64, u64) {
        self.bounds
    }

    pub closed spec fn spec_pop_size(self) -> usize {
        self.pop_size
    }

    #[verifier::type_invariant]
    spec fn bounds_ordered(self) -> bool {
        self.bounds.0 <= self.bounds.1
    }

    /// Validates the bounds at construction: inverted bounds are a
    /// configuration error, not a sampling range.
    pub fn new(dim: usize, bounds: (u64, u64), pop_size: usize) -> (r: Result<
        IntegerPopGenerator,
        GeneratorConfigError,
    >)
        ensures
            r is Ok <==> bounds.0 <= bounds.1,
            r matches Ok(g) ==> g.spec_dim() == dim && g.spec_bounds() == bounds
                && g.spec_pop_size() == pop_size,
            r is Err ==> r == Err::<IntegerPopGenerator, _>(GeneratorConfigError::InvalidBounds),
    {
        if bounds.0 > bounds.1 {
            Err(GeneratorConfigError::InvalidBounds)
        } else {
            Ok(IntegerPopGenerator { dim, bounds, pop_size })
        }
    }

    /// Builds `pop_size` individuals of `dim` genes, each within the bounds.
    pub fn gen_pop(&self) -> (p: Population<IntegerEncoding>)
        ensures
            p.0@.len() == self.spec_pop_size(),
            forall|i: int|
                0 <= i < p.0@.len() ==> (#[trigger] p.0@[i]).0@.len() == self.spec_dim(),
            forall|i: int, j: int|
                0 <= i < p.0@.len() && 0 <= j < p.0@[i].0@.len() ==> self.spec_bounds().0 <= (
                #[trigger] p.0@[i].0@[j]) <= self.spec_bounds().1,
    {
        proof {
            use_type_invariant(self);
        }
        let (lower, upper) = self.bounds;
        let mut rng = new_rng();
        let mut individuals: Vec<IntegerEncoding> = Vec::new();
        let mut i: usize = 0;
        while i < self.pop_size
            invariant
                lower == self.spec_bounds().0,
                upper == self.spec_bounds().1,
                lower <= upper,
                0 <= i <= self.pop_size,
                individuals@.len() == i,
                forall|k: int|
                    0 <= k < i ==> (#[trigger] individuals@[k]).0@.len() == self.spec_dim(),
                forall|k: int, j: int|
                    0 <= k < i && 0 <= j < individuals@[k].0@.len() ==> lower <= (
                    #[trigger] individuals@[k].0@[j]) <= upper,
            decreases self.pop_size - i,
        {
            let mut genes: Vec<u64> = Vec::new();
            let mut j: usize = 0;
            while j < self.dim
                invariant
                    lower <= upper,
                    0 <= j <= self.dim,
                    genes@.len() == j,
                    forall|k: int| 0 <= k < j ==> lower <= (#[trigger] genes@[k]) <= upper,
                decreases self.dim - j,
            {
                let sample = sample_u64_inclusive(&mut rng, lower, upper);
                genes.push(sample);
                j = j + 1;
            }
            individuals.push(IntegerEncoding(genes));
            i = i + 1;
        }
        Population(individuals)
    }
}

impl PopGenerator for IntegerPopGenerator {
    type E = IntegerEncoding;

    fn gen_pop(&self) -> Population<IntegerEncoding> {
        IntegerPopGenerator::gen_pop(self)
    }
}

/// Generates permutation individuals: each one an unbiased shuffle of
/// `0..dim`.
pub struct IntPermPopGenerator {
    dim: usize,
    pop_size: usize,
}

impl IntPermPopGenerator {
    pub closed spec fn spec_dim(self) -> usize {
        self.dim
    }

    pub closed spec fn spec_pop_size(self) -> usize {
        self.pop_size
    }

    pub fn new(dim: usize, pop_size: usize) -> (g: IntPermPopGenerator)
        ensures
            g.spec_dim() == dim,
            g.spec_pop_size() == pop_size,
    {
        IntPermPopGenerator { dim, pop_size }
    }

    /// Builds `pop_size` individuals, each a permutation of `0..dim`.
    pub fn gen_pop(&self) -> (p: Population<IntPermEncoding>)
        ensures
            p.0@.len() == self.spec_pop_size(),
            forall|i: int|
                0 <= i < p.0@.len() ==> (#[trigger] p.0@[i]).0@.len() == self.spec_dim(),
            forall|i: int|
                0 <= i < p.0@.len() ==> is_permutation_of_range(
                    (#[trigger] p.0@[i]).0@,
                    self.spec_dim() as nat,
                ),
    {
        let mut rng = new_rng();
        let mut individuals: Vec<IntPermEncoding> = Vec::new();
        let mut i: usize = 0;
        while i < self.pop_size
            invariant
                0 <= i <= self.pop_size,
                individuals@.len() == i,
                forall|k: int|
                    0 <= k < i ==> (#[trigger] individuals@[k]).0@.len() == self.spec_dim(),
                forall|k: int|
                    0 <= k < i ==> is_permutation_of_range(
                        (#[trigger] individuals@[k]).0@,
                        self.spec_dim() as nat,
                    ),
            decreases self.pop_size - i,
        {
            let mut range: Vec<usize> = Vec::new();
            let mut j: usize = 0;
            while j < self.dim
                invariant
                    0 <= j <= self.dim,
                    range@ == identity_perm(j as nat),
                decreases self.dim - j,
            {
                range.push(j);
                proof {
                    assert(identity_perm((j + 1) as nat) =~= identity_perm(j as nat).push(
                        j as usize,
                    ));
                }
                j = j + 1;
            }
            shuffle_in_place(&mut rng, &mut range);
            individuals.push(IntPermEncoding(range));
            i = i + 1;
        }
        Population(individuals)
    }
}

impl PopGenerator for IntPermPopGenerator {
    type E = IntPermEncoding;

    fn gen_pop(&self) -> Population<IntPermEncoding> {
        IntPermPopGenerator::gen_pop(self)
    }
}

} // verus!
