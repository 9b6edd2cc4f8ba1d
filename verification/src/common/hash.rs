use vstd::prelude::*;
use rand::rngs::StdRng;

verus! {

broadcast use vstd::array::group_array_axioms;

#[verifier::external_type_specification]
#[verifier::external_body]
pub struct ExStdRng(StdRng);

/// The seed of the generator that fills the hash tables.
pub const HASH_SEED: u64 = 9291248438346573197;

/// The `i`-th number (from 0) that `rand`'s `StdRng` seeded by `SeedableRng::seed_from_u64`
/// with `seed` gives through `Rng::gen::<u64>`. The generator is a fixed algorithm (ChaCha
/// with twelve rounds in the `rand` version this crate is built with), so the number
/// depends on the seed and its place alone; `rand` does not promise the same sequence
/// across its versions, so the version the crate is built with is held fixed by its lock
/// file.
pub uninterp spec fn std_rng_draw(seed: u64, i: nat) -> u64;

/// A `StdRng` with the seed it was made from and the count of numbers drawn so far.
pub struct SeededRng {
    rng: StdRng,
    seed: Ghost<u64>,
    drawn: Ghost<nat>,
}

impl SeededRng {
    /// The seed the generator was made from.
    pub closed spec fn seed(&self) -> u64 {
        self.seed@
    }

    /// How many numbers have been drawn.
    pub closed spec fn drawn(&self) -> nat {
        self.drawn@
    }

    /// `rand`'s `SeedableRng::seed_from_u64` for `StdRng`: a generator in the state that
    /// the seed determines, nothing drawn yet.
    #[verifier::external_body]
    fn new(seed: u64) -> (r: SeededRng)
        ensures
            r.seed() == seed,
            r.drawn() == 0,
    {
        SeededRng { rng: <StdRng as rand::SeedableRng>::seed_from_u64(seed), seed: Ghost(seed), drawn: Ghost(0) }
    }

    /// `rand`'s `Rng::gen::<u64>` on the generator: the next number of the seed's sequence.
    #[verifier::external_body]
    fn next(&mut self) -> (r: u64)
        ensures
            r == std_rng_draw(old(self).seed(), old(self).drawn()),
            final(self).seed() == old(self).seed(),
            final(self).drawn() == old(self).drawn() + 1,
    {
        rand::Rng::gen::<u64>(&mut self.rng)
    }
}

/// The numbers the hash tables are filled from: the first 795 of the sequence of the fixed
/// seed.
pub open spec fn hash_draws() -> Seq<u64> {
    Seq::new(795, |i: int| std_rng_draw(HASH_SEED, i as nat))
}

/// Random keys that make up the hash of a position: one per piece and square, per
/// castling state, per en passant state, one for the side to move and one to start from.
#[derive(Clone, Copy, PartialEq, Eq, Debug)]
pub struct HashTables {
    pub piece_keys: [[u64; 64]; 12],
    pub castle_keys: [u64; 16],
    pub en_passant_keys: [u64; 9],
    pub turn_key: u64,
    pub initial_key: u64,
}

/// Whether the tables hold the draws `d` in the order in which they are filled: the keys
/// of each piece square by square, piece after piece, then the castling keys, the en
/// passant keys, the key of the side to move and the initial key.
pub open spec fn placed(d: Seq<u64>, r: HashTables) -> bool {
    &&& d.len() == 795
    &&& forall|p: int, s: int| 0 <= p < 12 && 0 <= s < 64 ==> #[trigger] r.piece_keys@[p]@[s] == d[64 * p + s]
    &&& forall|i: int| 0 <= i < 16 ==> #[trigger] r.castle_keys@[i] == d[768 + i]
    &&& forall|i: int| 0 <= i < 9 ==> #[trigger] r.en_passant_keys@[i] == d[784 + i]
    &&& r.turn_key == d[793]
    &&& r.initial_key == d[794]
}

/// Tables that hold the same draws are the same tables: in particular every call of
/// `HashTables::new` gives the same keys, so the hashes of boards built apart compare.
pub proof fn lemma_placed_unique(d: Seq<u64>, a: HashTables, b: HashTables)
    requires
        placed(d, a),
        placed(d, b),
    ensures
        a == b,
{
    assert forall|p: int| 0 <= p < 12 implies a.piece_keys[p] =~= b.piece_keys[p] by {
        assert forall|s: int| 0 <= s < 64 implies a.piece_keys[p][s] == b.piece_keys[p][s] by {
            assert(a.piece_keys@[p]@[s] == d[64 * p + s]);
            assert(b.piece_keys@[p]@[s] == d[64 * p + s]);
        }
    }
    assert(a.piece_keys =~= b.piece_keys);
    assert forall|i: int| 0 <= i < 16 implies a.castle_keys[i] == b.castle_keys[i] by {
        assert(a.castle_keys@[i] == d[768 + i]);
        assert(b.castle_keys@[i] == d[768 + i]);
    }
    assert(a.castle_keys =~= b.castle_keys);
    assert forall|i: int| 0 <= i < 9 implies a.en_passant_keys[i] == b.en_passant_keys[i] by {
        assert(a.en_passant_keys@[i] == d[784 + i]);
        assert(b.en_passant_keys@[i] == d[784 + i]);
    }
    assert(a.en_passant_keys =~= b.en_passant_keys);
}

impl HashTables {
    /// The tables filled from a generator seeded with a fixed number: its first 795 numbers,
    /// placed by `from_draws`. Every call gives the same tables.
    pub fn new() -> (r: Self)
        ensures
            r.piece_keys@.len() == 12,
            forall|p: int| 0 <= p < 12 ==> (#[trigger] r.piece_keys@[p])@.len() == 64,
            placed(hash_draws(), r),
    {
        let mut rng = SeededRng::new(HASH_SEED);
        let mut d: Vec<u64> = Vec::new();
        while d.len() < 795
            invariant
                d.len() <= 795,
                rng.seed() == HASH_SEED,
                rng.drawn() == d.len(),
                forall|i: int| 0 <= i < d.len() ==> #[trigger] d@[i] == std_rng_draw(HASH_SEED, i as nat),
            decreases 795 - d.len(),
        {
            let x = rng.next();
            d.push(x);
        }
        let r = HashTables::from_draws(&d);
        assert(d@ =~= hash_draws());
        r
    }

    /// The tables holding the numbers `d` in the order in which they are drawn; see
    /// `placed`.
    pub fn from_draws(d: &Vec<u64>) -> (r: Self)
        requires
            d.len() == 795,
        ensures
            r.piece_keys@.len() == 12,
            forall|p: int| 0 <= p < 12 ==> (#[trigger] r.piece_keys@[p])@.len() == 64,
            placed(d@, r),
    {
        let mut pieces: [[u64; 64]; 12] = [[0u64; 64]; 12];
        let mut p: usize = 0;
        while p < 12
            invariant
                p <= 12,
                d.len() == 795,
                forall|q: int, s: int| 0 <= q < p && 0 <= s < 64 ==> #[trigger] pieces@[q]@[s] == d@[64 * q + s],
            decreases 12 - p,
        {
            let mut row: [u64; 64] = [0u64; 64];
            let mut s: usize = 0;
            while s < 64
                invariant
                    s <= 64,
                    p < 12,
                    d.len() == 795,
                    forall|t: int| 0 <= t < s ==> #[trigger] row@[t] == d@[64 * p + t],
                decreases 64 - s,
            {
                row[s] = d[64 * p + s];
                s = s + 1;
            }
            pieces[p] = row;
            p = p + 1;
        }
        let mut castle: [u64; 16] = [0u64; 16];
        let mut i: usize = 0;
        while i < 16
            invariant
                i <= 16,
                d.len() == 795,
                forall|t: int| 0 <= t < i ==> #[trigger] castle@[t] == d@[768 + t],
            decreases 16 - i,
        {
            castle[i] = d[768 + i];
            i = i + 1;
        }
        let mut en_passant: [u64; 9] = [0u64; 9];
        let mut i: usize = 0;
        while i < 9
            invariant
                i <= 9,
                d.len() == 795,
                forall|t: int| 0 <= t < i ==> #[trigger] en_passant@[t] == d@[784 + t],
            decreases 9 - i,
        {
            en_passant[i] = d[784 + i];
            i = i + 1;
        }
        HashTables {
            piece_keys: pieces,
            castle_keys: castle,
            en_passant_keys: en_passant,
            turn_key: d[793],
            initial_key: d[794],
        }
    }

    /// The key of piece number `p` on square `s`.
    pub fn piece(&self, p: u8, s: u8) -> (r: u64)
        requires
            p < 12,
            s < 64,
        ensures
            r == self.piece_keys@[p as int]@[s as int],
    {
        self.piece_keys[p as usize][s as usize]
    }

    /// The key of a castling state.
    pub fn castle_state(&self, c: u8) -> (r: u64)
        requires
            c < 16,
        ensures
            r == self.castle_keys@[c as int],
    {
        self.castle_keys[c as usize]
    }

    /// The key of an en passant state.
    pub fn en_passant_state(&self, e: u8) -> (r: u64)
        requires
            e < 9,
        ensures
            r == self.en_passant_keys@[e as int],
    {
        self.en_passant_keys[e as usize]
    }

    /// The key of black to move.
    pub fn turn(&self) -> (r: u64)
        ensures
            r == self.turn_key,
    {
        self.turn_key
    }

    /// The hash of the empty position with white to move.
    pub fn initial(&self) -> (r: u64)
        ensures
            r == self.initial_key,
    {
        self.initial_key
    }
}

} // verus!
