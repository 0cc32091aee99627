//! The deterministic, seekable random stream and the codec for its position.

use core::convert::Infallible;
use vstd::prelude::*;

verus! {

/// The distance between the counters of two neighbouring positions.
pub const GAMMA: u64 = 0x9E37_79B9_7F4A_7C15;

/// The factor of the first mixing step.
pub const FIRST_FACTOR: u64 = 0xBF58_476D_1CE4_E5B9;

/// The factor of the second mixing step.
pub const SECOND_FACTOR: u64 = 0x94D0_49BB_1331_11EB;

/// A deterministic, seekable random stream used for reproducible runs.
///
/// The value of a draw depends on the seed and on the position alone, so that rewinding the
/// position replays the stream exactly.
#[derive(Debug, Clone, Copy)]
pub struct DeterministicRng {
    pub seed: u64,
    pub draws: u128,
}

/// The mixing function that turns a counter into a word of the stream.
pub open spec fn mixed(value: u64) -> u64 {
    let first = (value ^ (value >> 30)).wrapping_mul(FIRST_FACTOR);
    let second = (first ^ (first >> 27)).wrapping_mul(SECOND_FACTOR);
    second ^ (second >> 31)
}

/// The word of the stream of `seed` at `position`.
pub open spec fn stream_word(seed: u64, position: u128) -> u64 {
    let low = (position % 0x1_0000_0000_0000_0000) as u64;
    let high = (position / 0x1_0000_0000_0000_0000) as u64;
    let counter = seed.wrapping_add(GAMMA.wrapping_mul(low.wrapping_add(1)));
    if high == 0 {
        mixed(counter)
    } else {
        mixed(counter ^ mixed(high))
    }
}

/// The position after `count` draws, which wraps around after the last one.
pub open spec fn position_after(position: u128, count: nat) -> u128 {
    ((position + count) % 0x1_0000_0000_0000_0000_0000_0000_0000_0000int) as u128
}

/// Byte `index` of a word in little-endian order.
pub open spec fn word_byte(word: u64, index: int) -> u8 {
    (word >> (8 * index) as u64) as u8
}

impl DeterministicRng {
    /// A stream for a seed, at its first position.
    pub fn seed_from_u64(seed: u64) -> (rng: Self)
        ensures
            rng == (DeterministicRng { seed, draws: 0 }),
    {
        DeterministicRng { seed, draws: 0 }
    }

    /// A stream for a seed given as eight little-endian bytes, at its first position.
    pub fn from_seed(s: [u8; 8]) -> (rng: Self)
        ensures
            rng.draws == 0,
            forall|i: int| 0 <= i < 8 ==> #[trigger] word_byte(rng.seed, i) == s@[i],
    {
        let (a, b, c, d) = (s[0] as u64, s[1] as u64, s[2] as u64, s[3] as u64);
        let (e, f, g, h) = (s[4] as u64, s[5] as u64, s[6] as u64, s[7] as u64);
        let seed: u64 = a | (b << 8) | (c << 16) | (d << 24) | (e << 32) | (f << 40) | (g << 48) | (
        h << 56);
        assert((seed >> 0) as u8 == a && (seed >> 8) as u8 == b && (seed >> 16) as u8 == c && (seed
            >> 24) as u8 == d && (seed >> 32) as u8 == e && (seed >> 40) as u8 == f && (seed
            >> 48) as u8 == g && (seed >> 56) as u8 == h) by (bit_vector)
            requires
                seed == a | (b << 8) | (c << 16) | (d << 24) | (e << 32) | (f << 40) | (g << 48) | (
                h << 56),
                a < 256,
                b < 256,
                c < 256,
                d < 256,
                e < 256,
                f < 256,
                g < 256,
                h < 256,
        ;
        assert forall|i: int| 0 <= i < 8 implies #[trigger] word_byte(seed, i) == s@[i] by {
            assert(i == 0 || i == 1 || i == 2 || i == 3 || i == 4 || i == 5 || i == 6 || i == 7);
        }
        Self::seed_from_u64(seed)
    }

    /// Returns the number of words drawn so far.
    pub fn position(&self) -> (draws: u128)
        ensures
            draws == self.draws,
    {
        self.draws
    }

    /// Rewinds or fast-forwards the stream to an exact position.
    pub fn set_position(&mut self, position: u128)
        ensures
            *final(self) == (DeterministicRng { draws: position, ..*old(self) }),
    {
        self.draws = position;
    }

    /// Mixes the bits of a word.
    fn mix(value: u64) -> (word: u64)
        ensures
            word == mixed(value),
    {
        let first: u64 = (value ^ (value >> 30)).wrapping_mul(FIRST_FACTOR);
        let second: u64 = (first ^ (first >> 27)).wrapping_mul(SECOND_FACTOR);
        second ^ (second >> 31)
    }

    /// The word at a position of the stream.
    fn at(&self, position: u128) -> (word: u64)
        ensures
            word == stream_word(self.seed, position),
    {
        let low: u64 = (position % 0x1_0000_0000_0000_0000) as u64;
        let high: u64 = (position / 0x1_0000_0000_0000_0000) as u64;
        let counter: u64 = self.seed.wrapping_add(GAMMA.wrapping_mul(low.wrapping_add(1)));
        if high == 0 {
            Self::mix(counter)
        } else {
            Self::mix(counter ^ Self::mix(high))
        }
    }

    /// Draws the next word. There is no failure.
    pub fn try_next_u64(&mut self) -> (word: Result<u64, Infallible>)
        ensures
            word == Ok::<u64, Infallible>(stream_word(old(self).seed, old(self).draws)),
            *final(self) == (DeterministicRng {
                draws: position_after(old(self).draws, 1),
                ..*old(self)
            }),
    {
        let word: u64 = self.at(self.draws);
        self.draws = self.draws.wrapping_add(1);
        Ok(word)
    }

    /// Draws the next word and keeps its lower half. There is no failure.
    pub fn try_next_u32(&mut self) -> (half: Result<u32, Infallible>)
        ensures
            half == Ok::<u32, Infallible>((stream_word(old(self).seed, old(self).draws)
                % 0x1_0000_0000) as u32),
            *final(self) == (DeterministicRng {
                draws: position_after(old(self).draws, 1),
                ..*old(self)
            }),
    {
        let word: u64 = self.at(self.draws);
        self.draws = self.draws.wrapping_add(1);
        Ok((word % 0x1_0000_0000) as u32)
    }

    /// Fills a buffer with the bytes of the following words, each in little-endian order. The
    /// last word gives as many bytes as there is room for. There is no failure.
    #[verifier::spinoff_prover]
    #[verifier::rlimit(40)]
    pub fn try_fill_bytes(&mut self, d: &mut [u8]) -> (done: Result<(), Infallible>)
        ensures
            done is Ok,
            final(d)@ == stream_bytes(old(self).seed, old(self).draws, old(d)@.len()),
            *final(self) == (DeterministicRng {
                draws: position_after(old(self).draws, words_for(old(d)@.len())),
                ..*old(self)
            }),
    {
        let length: usize = d.len();
        let ghost table = stream_bytes(old(self).seed, old(self).draws, length as nat);
        let mut filled: usize = 0;
        let mut word: u64 = 0;
        while filled < length
            invariant
                filled <= length,
                d@.len() == length,
                length == old(d)@.len(),
                table == stream_bytes(old(self).seed, old(self).draws, length as nat),
                self.seed == old(self).seed,
                self.draws == position_after(old(self).draws, words_for(filled as nat)),
                filled % 8 != 0 ==> word == stream_word(
                    old(self).seed,
                    position_after(old(self).draws, (filled / 8) as nat),
                ),
                forall|i: int| 0 <= i < filled ==> #[trigger] d@[i] == table[i],
            decreases length - filled,
        {
            let ghost done: nat = words_for(filled as nat);
            if filled % 8 == 0 {
                word = self.at(self.draws);
                proof {
                    assert(done == filled / 8);
                    lemma_next_position(old(self).draws, done);
                }
                self.draws = self.draws.wrapping_add(1);
            }
            assert(words_for((filled + 1) as nat) == filled / 8 + 1);
            let shift: u64 = 8 * (filled % 8) as u64;
            d[filled] = (word >> shift) as u8;
            assert(table[filled as int] == word_byte(word, (filled % 8) as int));
            filled = filled + 1;
        }
        assert(d@ =~= stream_bytes(old(self).seed, old(self).draws, length as nat));
        Ok(())
    }
}

/// How many words give a number of bytes.
pub open spec fn words_for(length: nat) -> nat {
    (length + 7) / 8
}

/// The first bytes of the stream of `seed` from `position` on.
pub open spec fn stream_bytes(seed: u64, position: u128, length: nat) -> Seq<u8> {
    Seq::new(
        length,
        |i: int| word_byte(stream_word(seed, position_after(position, (i / 8) as nat)), i % 8),
    )
}

proof fn lemma_next_position(position: u128, count: nat)
    ensures
        position_after(position_after(position, count), 1) == position_after(position, count + 1),
{
    law_resumed_stream(0, position, count, 1);
}

/// The position of the stream as two words, the lower one first.
pub fn encode_rng_position(position: u128) -> (words: [u64; 2])
    ensures
        words@ == position_words(position),
{
    let low: u64 = (position % 0x1_0000_0000_0000_0000) as u64;
    let high: u64 = (position / 0x1_0000_0000_0000_0000) as u64;
    let words: [u64; 2] = [low, high];
    assert(words@ =~= position_words(position));
    words
}

/// The position that two words stand for, the lower one first.
pub fn decode_rng_position(words: [u64; 2]) -> (position: u128)
    ensures
        position == position_of(words@),
{
    let high: u128 = words[1] as u128;
    assert(high * 0x1_0000_0000_0000_0000 + 0xFFFF_FFFF_FFFF_FFFF <= u128::MAX);
    words[0] as u128 + high * 0x1_0000_0000_0000_0000
}

/// The two words of a position, the lower one first.
pub open spec fn position_words(position: u128) -> Seq<u64> {
    seq![
        (position % 0x1_0000_0000_0000_0000) as u64,
        (position / 0x1_0000_0000_0000_0000) as u64,
    ]
}

/// The position that two words stand for.
pub open spec fn position_of(words: Seq<u64>) -> int {
    words[0] + words[1] * 0x1_0000_0000_0000_0000
}

/// Encoding a position and decoding it again gives the position back.
pub proof fn law_position_round_trip(position: u128)
    ensures
        position_words(position).len() == 2,
        position_of(position_words(position)) == position,
{
}

/// Every pair of words is the encoding of the position it decodes to.
pub proof fn law_position_words_round_trip(words: Seq<u64>)
    requires
        words.len() == 2,
    ensures
        0 <= position_of(words) <= u128::MAX,
        position_words(position_of(words) as u128) == words,
{
    assert(position_words(position_of(words) as u128) =~= words);
}

/// Drawing in two portions visits the positions that drawing at once visits, so a stream put
/// back at a saved position continues exactly as if it had never stopped.
pub proof fn law_resumed_stream(seed: u64, position: u128, done: nat, more: nat)
    ensures
        position_after(position_after(position, done), more) == position_after(
            position,
            done + more,
        ),
        stream_word(seed, position_after(position_after(position, done), more)) == stream_word(
            seed,
            position_after(position, done + more),
        ),
{
    let m: int = 0x1_0000_0000_0000_0000_0000_0000_0000_0000int;
    vstd::arithmetic::div_mod::lemma_add_mod_noop((position + done) as int, more as int, m);
    vstd::arithmetic::div_mod::lemma_add_mod_noop(
        ((position + done) % m) as int,
        more as int,
        m,
    );
}

/// A factor with an inverse keeps different words different.
proof fn lemma_factor_injective(a: u64, b: u64, factor: u64, inverse: u64)
    requires
        factor * inverse % 0x1_0000_0000_0000_0000 == 1,
        factor.wrapping_mul(a) == factor.wrapping_mul(b),
    ensures
        a == b,
{
    let m: int = 0x1_0000_0000_0000_0000;
    let f = factor as int;
    let g = inverse as int;
    assert(f * a % m == f * b % m);
    assert forall|x: u64| #[trigger] (f * x % m) * g % m == x by {
        let y = x as int;
        vstd::arithmetic::div_mod::lemma_mul_mod_noop_left(f * y, g, m);
        assert((f * y) * g == (f * g) * y) by (nonlinear_arith);
        vstd::arithmetic::div_mod::lemma_mul_mod_noop_left(f * g, y, m);
        assert(1 * y == y);
        vstd::arithmetic::div_mod::lemma_small_mod(y as nat, m as nat);
    }
    assert((f * a % m) * g % m == a);
    assert((f * b % m) * g % m == b);
}

/// The mixing function keeps different words different.
pub proof fn lemma_mixed_injective(a: u64, b: u64)
    requires
        mixed(a) == mixed(b),
    ensures
        a == b,
{
    let first_a = (a ^ (a >> 30)).wrapping_mul(FIRST_FACTOR);
    let first_b = (b ^ (b >> 30)).wrapping_mul(FIRST_FACTOR);
    let second_a = (first_a ^ (first_a >> 27)).wrapping_mul(SECOND_FACTOR);
    let second_b = (first_b ^ (first_b >> 27)).wrapping_mul(SECOND_FACTOR);
    assert(second_a == second_b) by (bit_vector)
        requires
            second_a ^ (second_a >> 31) == second_b ^ (second_b >> 31),
    ;
    let shifted_a = first_a ^ (first_a >> 27);
    let shifted_b = first_b ^ (first_b >> 27);
    vstd::arithmetic::mul::lemma_mul_is_commutative(shifted_a as int, SECOND_FACTOR as int);
    vstd::arithmetic::mul::lemma_mul_is_commutative(shifted_b as int, SECOND_FACTOR as int);
    lemma_factor_injective(shifted_a, shifted_b, SECOND_FACTOR, 0x3196_42B2_D24D_8EC3);
    assert(first_a == first_b) by (bit_vector)
        requires
            first_a ^ (first_a >> 27) == first_b ^ (first_b >> 27),
    ;
    let start_a = a ^ (a >> 30);
    let start_b = b ^ (b >> 30);
    vstd::arithmetic::mul::lemma_mul_is_commutative(start_a as int, FIRST_FACTOR as int);
    vstd::arithmetic::mul::lemma_mul_is_commutative(start_b as int, FIRST_FACTOR as int);
    lemma_factor_injective(start_a, start_b, FIRST_FACTOR, 0x96DE_1B17_3F11_9089);
    assert(a == b) by (bit_vector)
        requires
            a ^ (a >> 30) == b ^ (b >> 30),
    ;
}

/// No word is drawn twice within one block of 2^64 positions, those with the same upper word.
pub proof fn law_block_without_repetition(seed: u64, p: u128, q: u128)
    requires
        p != q,
        p / 0x1_0000_0000_0000_0000 == q / 0x1_0000_0000_0000_0000,
    ensures
        stream_word(seed, p) != stream_word(seed, q),
{
    if stream_word(seed, p) == stream_word(seed, q) {
        let low_p = (p % 0x1_0000_0000_0000_0000) as u64;
        let low_q = (q % 0x1_0000_0000_0000_0000) as u64;
        let high = (p / 0x1_0000_0000_0000_0000) as u64;
        let step_p = GAMMA.wrapping_mul(low_p.wrapping_add(1));
        let step_q = GAMMA.wrapping_mul(low_q.wrapping_add(1));
        let counter_p = seed.wrapping_add(step_p);
        let counter_q = seed.wrapping_add(step_q);
        if high == 0 {
            lemma_mixed_injective(counter_p, counter_q);
        } else {
            let mask = mixed(high);
            lemma_mixed_injective(counter_p ^ mask, counter_q ^ mask);
            assert(counter_p == counter_q) by (bit_vector)
                requires
                    counter_p ^ mask == counter_q ^ mask,
            ;
        }
        assert(step_p == step_q);
        lemma_factor_injective(
            low_p.wrapping_add(1),
            low_q.wrapping_add(1),
            GAMMA,
            0xF1DE_83E1_9937_733D,
        );
        assert(low_p == low_q);
    }
}

/// A stream starts at its first position with the seed that it is given.
pub proof fn law_streams_start(seed: u64, rng: DeterministicRng)
    requires
        call_ensures(DeterministicRng::seed_from_u64, (seed,), rng),
    ensures
        rng.seed == seed,
        rng.draws == 0,
{
}

/// A seed in bytes is the number that the bytes write with the lowest one first.
pub proof fn law_seeds_in_bytes(s: [u8; 8], rng: DeterministicRng)
    requires
        call_ensures(DeterministicRng::from_seed, (s,), rng),
    ensures
        rng.draws == 0,
        rng.seed == s@[0] + 0x100 * s@[1] + 0x1_0000 * s@[2] + 0x100_0000 * s@[3] + 0x1_0000_0000
            * s@[4] + 0x100_0000_0000 * s@[5] + 0x1_0000_0000_0000 * s@[6] + 0x100_0000_0000_0000
            * s@[7],
{
    let w = rng.seed;
    assert(word_byte(w, 0) == s@[0]);
    assert(word_byte(w, 1) == s@[1]);
    assert(word_byte(w, 2) == s@[2]);
    assert(word_byte(w, 3) == s@[3]);
    assert(word_byte(w, 4) == s@[4]);
    assert(word_byte(w, 5) == s@[5]);
    assert(word_byte(w, 6) == s@[6]);
    assert(word_byte(w, 7) == s@[7]);
    lemma_word_from_bytes(w);
}

/// A word is its lowest byte and the rest.
proof fn lemma_low_byte(w: u64)
    ensures
        w == (w as u8) + 0x100 * (w >> 8u64),
{
    assert(w == (w as u8) + 0x100 * (w >> 8u64)) by (bit_vector);
}

/// A word is the sum of its bytes, each at its own place.
proof fn lemma_word_from_bytes(w: u64)
    ensures
        w == word_byte(w, 0) + 0x100 * word_byte(w, 1) + 0x1_0000 * word_byte(w, 2) + 0x100_0000
            * word_byte(w, 3) + 0x1_0000_0000 * word_byte(w, 4) + 0x100_0000_0000 * word_byte(w, 5)
            + 0x1_0000_0000_0000 * word_byte(w, 6) + 0x100_0000_0000_0000 * word_byte(w, 7),
{
    let q1 = w >> 8u64;
    let q2 = w >> 16u64;
    let q3 = w >> 24u64;
    let q4 = w >> 32u64;
    let q5 = w >> 40u64;
    let q6 = w >> 48u64;
    let q7 = w >> 56u64;
    assert(w >> 0u64 == w && q1 >> 8u64 == q2 && q2 >> 8u64 == q3 && q3 >> 8u64 == q4 && q4 >> 8u64
        == q5 && q5 >> 8u64 == q6 && q6 >> 8u64 == q7 && q7 >> 8u64 == 0u64) by (bit_vector)
        requires
            q1 == w >> 8u64,
            q2 == w >> 16u64,
            q3 == w >> 24u64,
            q4 == w >> 32u64,
            q5 == w >> 40u64,
            q6 == w >> 48u64,
            q7 == w >> 56u64,
    ;
    lemma_low_byte(w);
    lemma_low_byte(q1);
    lemma_low_byte(q2);
    lemma_low_byte(q3);
    lemma_low_byte(q4);
    lemma_low_byte(q5);
    lemma_low_byte(q6);
    lemma_low_byte(q7);
}

/// A draw depends on the seed and the position alone: streams of one seed at one position draw the
/// same word and stand at the next position after it. The seed stays.
pub proof fn law_draws_are_deterministic(
    a: &mut DeterministicRng,
    b: &mut DeterministicRng,
    x: Result<u64, Infallible>,
    y: Result<u64, Infallible>,
)
    requires
        old(a).seed == old(b).seed,
        old(a).draws == old(b).draws,
        call_ensures(DeterministicRng::try_next_u64, (a,), x),
        call_ensures(DeterministicRng::try_next_u64, (b,), y),
    ensures
        x is Ok,
        x == y,
        final(a).seed == old(a).seed,
        old(a).draws < u128::MAX ==> final(a).draws == old(a).draws + 1,
        old(a).draws == u128::MAX ==> final(a).draws == 0,
        *final(a) == *final(b),
{
}

/// A half word is the lower half of the word that would be drawn in its place, and moves the stream
/// on by one word as well.
pub proof fn law_half_words(
    a: &mut DeterministicRng,
    b: &mut DeterministicRng,
    word: Result<u64, Infallible>,
    half: Result<u32, Infallible>,
)
    requires
        old(a).seed == old(b).seed,
        old(a).draws == old(b).draws,
        call_ensures(DeterministicRng::try_next_u64, (a,), word),
        call_ensures(DeterministicRng::try_next_u32, (b,), half),
    ensures
        word is Ok && half is Ok,
        half->Ok_0 as int == word->Ok_0 as int % 0x1_0000_0000,
        *final(a) == *final(b),
{
}

/// A stream that is put at a position draws what any stream of its seed draws there, and says that
/// it stands there.
pub proof fn law_rewound_streams(
    rng: &mut DeterministicRng,
    position: u128,
    other: DeterministicRng,
    told: u128,
)
    requires
        call_ensures(DeterministicRng::set_position, (rng, position), ()),
        other.seed == old(rng).seed,
        other.draws == position,
        call_ensures(DeterministicRng::position, (&*final(rng),), told),
    ensures
        *final(rng) == other,
        told == position,
{
}

/// Filling a buffer draws one word for every eight bytes and one for the rest, each with its lowest
/// byte first: eight bytes of the buffer are the word that stands at their place of the stream.
pub proof fn law_filled_bytes_are_words(
    rng: &mut DeterministicRng,
    buffer: &mut [u8],
    done: Result<(), Infallible>,
    k: int,
)
    requires
        call_ensures(DeterministicRng::try_fill_bytes, (rng, buffer), done),
        0 <= k,
        8 * k + 8 <= old(buffer)@.len(),
        old(buffer)@.len() <= usize::MAX,
    ensures
        done is Ok,
        final(buffer)@.len() == old(buffer)@.len(),
        ({
            let d = final(buffer)@;
            let at = (old(rng).draws + k) % 0x1_0000_0000_0000_0000_0000_0000_0000_0000int;
            stream_word(old(rng).seed, at as u128) == d[8 * k] + 0x100 * d[8 * k + 1] + 0x1_0000
                * d[8 * k + 2] + 0x100_0000 * d[8 * k + 3] + 0x1_0000_0000 * d[8 * k + 4]
                + 0x100_0000_0000 * d[8 * k + 5] + 0x1_0000_0000_0000 * d[8 * k + 6]
                + 0x100_0000_0000_0000 * d[8 * k + 7]
        }),
        final(rng).seed == old(rng).seed,
        final(rng).draws as int == (old(rng).draws + (old(buffer)@.len() + 7) / 8)
            % 0x1_0000_0000_0000_0000_0000_0000_0000_0000int,
{
    let d = final(buffer)@;
    let w = stream_word(old(rng).seed, position_after(old(rng).draws, k as nat));
    assert forall|j: int| 0 <= j < 8 implies #[trigger] d[8 * k + j] == word_byte(w, j) by {
        assert((8 * k + j) / 8 == k);
        assert((8 * k + j) % 8 == j);
    }
    assert(d[8 * k + 0] == word_byte(w, 0));
    lemma_word_from_bytes(w);
}

/// A shorter buffer is filled with the first bytes of a longer one.
pub proof fn law_shorter_buffers_are_prefixes(
    a: &mut DeterministicRng,
    b: &mut DeterministicRng,
    short: &mut [u8],
    long: &mut [u8],
    done: (Result<(), Infallible>, Result<(), Infallible>),
)
    requires
        old(a).seed == old(b).seed,
        old(a).draws == old(b).draws,
        old(short)@.len() <= old(long)@.len(),
        call_ensures(DeterministicRng::try_fill_bytes, (a, short), done.0),
        call_ensures(DeterministicRng::try_fill_bytes, (b, long), done.1),
    ensures
        final(short)@ == final(long)@.take(old(short)@.len() as int),
{
    assert(final(short)@ =~= final(long)@.take(old(short)@.len() as int));
}

/// A position is stored as its lower and its upper word, in this order, and read back as the number
/// that they write.
pub proof fn law_stored_positions(
    position: u128,
    words: [u64; 2],
    other: [u64; 2],
    decoded: u128,
)
    requires
        call_ensures(encode_rng_position, (position,), words),
        call_ensures(decode_rng_position, (other,), decoded),
    ensures
        words@[0] + words@[1] * 0x1_0000_0000_0000_0000 == position,
        decoded == other@[0] + other@[1] * 0x1_0000_0000_0000_0000,
        other == words ==> decoded == position,
{
    assert(words@[0] == position_words(position)[0]);
    assert(words@[1] == position_words(position)[1]);
}

/// Stepping on by one is the same as starting one distance further.
proof fn lemma_counter_steps(seed: int, distance: int, step: int, m: int)
    requires
        m > 0,
    ensures
        (seed + (distance * ((step + 1) % m)) % m) % m == ((seed + distance) % m + (distance * step)
            % m) % m,
{
    vstd::arithmetic::div_mod::lemma_mul_mod_noop_right(distance, step + 1, m);
    vstd::arithmetic::div_mod::lemma_add_mod_noop_right(seed, distance * (step + 1), m);
    vstd::arithmetic::div_mod::lemma_add_mod_noop(seed + distance, distance * step, m);
    vstd::arithmetic::mul::lemma_mul_is_distributive_add(distance, step, 1);
}

/// The streams of two seeds are one stream at a distance: within a block, the next word of a seed is
/// the word that the seed further by the fixed distance has now.
pub proof fn law_neighbouring_seeds(seed: u64, position: u128)
    requires
        position % 0x1_0000_0000_0000_0000 < 0xFFFF_FFFF_FFFF_FFFF,
    ensures
        stream_word(seed, (position + 1) as u128) == stream_word(
            seed.wrapping_add(0x9E37_79B9_7F4A_7C15),
            position,
        ),
{
    let m: int = 0x1_0000_0000_0000_0000;
    let next = (position + 1) as u128;
    let low0: u64 = (position % 0x1_0000_0000_0000_0000) as u64;
    let low1: u64 = (next % 0x1_0000_0000_0000_0000) as u64;
    assert(low1 == low0 + 1);
    assert(position / 0x1_0000_0000_0000_0000 == next / 0x1_0000_0000_0000_0000);
    let step0 = low0.wrapping_add(1);
    let step1 = low1.wrapping_add(1);
    assert(step1 as int == (step0 + 1) % m);
    let left = seed.wrapping_add(GAMMA.wrapping_mul(step1));
    let right = seed.wrapping_add(GAMMA).wrapping_add(GAMMA.wrapping_mul(step0));
    assert(left == right) by {
        lemma_counter_steps(seed as int, GAMMA as int, step0 as int, m);
        lemma_wrapping(seed, GAMMA.wrapping_mul(step1));
        lemma_wrapping(seed, GAMMA);
        lemma_wrapping(seed.wrapping_add(GAMMA), GAMMA.wrapping_mul(step0));
        lemma_wrapping_mul(GAMMA, step0);
        lemma_wrapping_mul(GAMMA, step1);
    }
}

/// A wrapping sum is the sum to the size of a word.
proof fn lemma_wrapping(a: u64, b: u64)
    ensures
        a.wrapping_add(b) as int == (a + b) % 0x1_0000_0000_0000_0000,
{
}

/// A wrapping product is the product to the size of a word.
proof fn lemma_wrapping_mul(a: u64, b: u64)
    ensures
        a.wrapping_mul(b) as int == (a * b) % 0x1_0000_0000_0000_0000,
{
}

/// Two blocks of a stream never have the same word at the same place.
pub proof fn law_blocks_differ(seed: u64, p: u128, q: u128)
    requires
        p % 0x1_0000_0000_0000_0000 == q % 0x1_0000_0000_0000_0000,
        p != q,
    ensures
        stream_word(seed, p) != stream_word(seed, q),
{
    if stream_word(seed, p) == stream_word(seed, q) {
        let low = (p % 0x1_0000_0000_0000_0000) as u64;
        let high_p = (p / 0x1_0000_0000_0000_0000) as u64;
        let high_q = (q / 0x1_0000_0000_0000_0000) as u64;
        let counter = seed.wrapping_add(GAMMA.wrapping_mul(low.wrapping_add(1)));
        assert(high_p != high_q);
        let zero: u64 = 0;
        assert(0u64 ^ (0u64 >> 30) == 0u64 && 0u64 ^ (0u64 >> 27) == 0u64 && 0u64 ^ (0u64 >> 31)
            == 0u64) by (bit_vector);
        assert(mixed(zero) == 0);
        let mask_p = mixed(high_p);
        let mask_q = mixed(high_q);
        assert(counter ^ 0u64 == counter) by (bit_vector);
        assert(high_p == 0 ==> mask_p == 0);
        assert(high_q == 0 ==> mask_q == 0);
        lemma_mixed_injective(counter ^ mask_p, counter ^ mask_q);
        assert(mask_p == mask_q) by (bit_vector)
            requires
                counter ^ mask_p == counter ^ mask_q,
        ;
        lemma_mixed_injective(high_p, high_q);
    }
}

} // verus!
