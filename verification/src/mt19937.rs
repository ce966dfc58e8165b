//! The MT19937 core: seeding, the twist transform, tempering, sequential
//! generation, and the lookahead buffer that backs the peek operations.

use vstd::arithmetic::div_mod::lemma_add_mod_noop;
use vstd::arithmetic::div_mod::lemma_basic_div;
use vstd::arithmetic::div_mod::lemma_div_by_self;
use vstd::arithmetic::div_mod::lemma_fundamental_div_mod;
use vstd::arithmetic::div_mod::lemma_mod_self_0;
use vstd::arithmetic::div_mod::lemma_mod_division_less_than_divisor;
use vstd::arithmetic::div_mod::lemma_mod_sub_multiples_vanish;
use vstd::arithmetic::div_mod::lemma_small_mod;
use vstd::prelude::*;

verus! {

/// Seed used by `MT19937::new` and `MT19937::default`.
pub const DEFAULT_SEED: u32 = 5489;

/// Alternate recognized default seed, kept for test-vector compatibility with
/// a platform variant of the generator.
pub const DEFAULT_SEED_PS2: u32 = 4537;

/// Number of 32-bit words in one generation of state.
pub const N: usize = 624;

/// Gap used by the twist recurrence.
pub const M: usize = 397;

/// The matrix-A twist constant.
pub const MATRIX_A: u32 = 0x9908b0df;

/// Mask selecting the high bit of a state word.
pub const UPPER_MASK: u32 = 0x80000000;

/// Mask selecting the low 31 bits of a state word.
pub const LOWER_MASK: u32 = 0x7fffffff;

/// Number of generations held in the lookahead buffer, generation 0 included.
pub const LOOKAHEAD_SIZE: usize = 10;

/// Total number of buffered words across all lookahead generations.
pub const MAX_LOOKAHEAD_SIZE: usize = N * LOOKAHEAD_SIZE;

/// The output-whitening (tempering) transform: a pure, total function from a
/// raw state word to the public output word.
pub open spec fn temper_spec(y: u32) -> u32 {
    let y1 = y ^ (y >> 11u32);
    let y2 = y1 ^ ((y1 << 7u32) & 0x9d2c5680u32);
    let y3 = y2 ^ ((y2 << 15u32) & 0xefc60000u32);
    y3 ^ (y3 >> 18u32)
}

fn temper(y: u32) -> (r: u32)
    ensures
        r == temper_spec(y),
{
    let y1 = y ^ (y >> 11u32);
    let y2 = y1 ^ ((y1 << 7u32) & 0x9d2c5680u32);
    let y3 = y2 ^ ((y2 << 15u32) & 0xefc60000u32);
    y3 ^ (y3 >> 18u32)
}

/// Word `i` of the state filled by the seeding recurrence:
/// word 0 is the seed itself, and each later word is
/// `(1812433253 * (prev XOR (prev >> 30)) + i) mod 2^32`.
pub open spec fn seed_word(seed: u32, i: nat) -> u32
    decreases i,
{
    if i == 0 {
        seed
    } else {
        let prev = seed_word(seed, (i - 1) as nat);
        ((1812433253 * ((prev ^ (prev >> 30u32)) as nat) + i) % 0x1_0000_0000) as u32
    }
}

/// The full 624-word state that seeding with `seed` produces.
pub open spec fn seed_seq(seed: u32) -> Seq<u32> {
    Seq::new(624, |i: int| seed_word(seed, i as nat))
}

/// The new value of word `i` in one step of the twist pass, read from `s`,
/// the state as it stands when the pass reaches `i` (words below `i` already
/// updated). The high bit of word `i` and the low 31 bits of word `i + 1` are
/// concatenated, shifted down, conditionally folded with the twist matrix
/// constant, and combined with the word `M` places ahead.
pub open spec fn twisted_word(s: Seq<u32>, i: int) -> u32
    recommends
        s.len() == 624,
        0 <= i < 624,
{
    let x = (s[i] & UPPER_MASK) | (s[(i + 1) % 624] & LOWER_MASK);
    let xa = if x % 2 == 1 {
        (x >> 1u32) ^ MATRIX_A
    } else {
        x >> 1u32
    };
    s[(i + 397) % 624] ^ xa
}

/// The state after the first `k` words of the in-place twist pass have been
/// rewritten. The pass walks the array forward, so the word written at step
/// `k - 1` reads the already-updated values of earlier positions exactly as
/// the reference algorithm does.
pub open spec fn twist_upto(s: Seq<u32>, k: nat) -> Seq<u32>
    decreases k,
{
    if k == 0 {
        s
    } else {
        let t = twist_upto(s, (k - 1) as nat);
        t.update(k - 1, twisted_word(t, k - 1))
    }
}

/// The complete twist transform: the next generation derived from `s`.
pub open spec fn twist_spec(s: Seq<u32>) -> Seq<u32> {
    twist_upto(s, 624)
}

/// Every prefix of the twist pass preserves the length of the state.
pub proof fn lemma_twist_upto_len(s: Seq<u32>, k: nat)
    requires
        k <= s.len(),
    ensures
        twist_upto(s, k).len() == s.len(),
    decreases k,
{
    if k > 0 {
        lemma_twist_upto_len(s, (k - 1) as nat);
    }
}

/// `k` successive twists of `s`.
pub open spec fn twist_iter(s: Seq<u32>, k: nat) -> Seq<u32>
    decreases k,
{
    if k == 0 {
        s
    } else {
        twist_spec(twist_iter(s, (k - 1) as nat))
    }
}

/// Twisting any number of times preserves the length of the state.
pub proof fn lemma_twist_iter_len(s: Seq<u32>, k: nat)
    requires
        s.len() == 624,
    ensures
        twist_iter(s, k).len() == 624,
    decreases k,
{
    if k > 0 {
        lemma_twist_iter_len(s, (k - 1) as nat);
        lemma_twist_upto_len(twist_iter(s, (k - 1) as nat), 624);
    }
}

/// The next-generation transform, in place: each word is rewritten in order,
/// so the recurrence reads already-updated words exactly where the reference
/// algorithm does.
fn twist(state: &mut [u32; 624])
    ensures
        final(state)@ == twist_spec(old(state)@),
{
    let ghost s0 = state@;
    let mut i: usize = 0;
    while i < N
        invariant
            i <= 624,
            state@ == twist_upto(s0, i as nat),
        decreases 624 - i,
    {
        let x = (state[i] & UPPER_MASK) | (state[(i + 1) % N] & LOWER_MASK);
        let x_a = if x % 2 != 0 {
            (x >> 1u32) ^ MATRIX_A
        } else {
            x >> 1u32
        };
        state[i] = state[(i + M) % N] ^ x_a;
        i += 1;
    }
}

/// The lookahead buffer rebuilt from canonical state `s`: generation `g` of
/// the buffer is `s` twisted `g` times.
pub open spec fn chain_from(s: Seq<u32>) -> Seq<Seq<u32>> {
    Seq::new(10, |g: int| twist_iter(s, g as nat))
}

/// A rebuilt lookahead buffer is well formed and fresh: it starts at `s`, and
/// each buffered generation is the twist of its predecessor.
pub proof fn lemma_chain_from(s: Seq<u32>)
    requires
        s.len() == 624,
    ensures
        chain_from(s).len() == 10,
        forall|g: int| 0 <= g < 10 ==> (#[trigger] chain_from(s)[g]).len() == 624,
        chain_from(s)[0] == s,
        forall|g: int| 0 <= g < 9 ==> chain_from(s)[g + 1] == twist_spec(#[trigger] chain_from(s)[g]),
{
    assert forall|g: int| 0 <= g < 10 implies (#[trigger] chain_from(s)[g]).len() == 624 by {
        lemma_twist_iter_len(s, g as nat);
    }
    assert forall|g: int| 0 <= g < 9 implies chain_from(s)[g + 1] == twist_spec(
        #[trigger] chain_from(s)[g],
    ) by {
        assert(twist_iter(s, (g + 1) as nat) == twist_spec(twist_iter(s, g as nat)));
    }
}

/// The `n`-th output word of the generator seeded with `seed` (counting from
/// `n == 0`): seeding expands the seed into a state, the first consumed
/// generation is its first twist, and each word is tempered on the way out.
pub open spec fn mt_output(seed: u32, n: nat) -> u32 {
    temper_spec(twist_iter(seed_seq(seed), n / 624 + 1)[(n % 624) as int])
}

/// Mathematical model of a generator: the buffered generations and the
/// consumption cursor into generation 0.
#[verifier::ext_equal]
pub struct MTView {
    /// The buffered generations; `states[0]` is the canonical one.
    pub states: Seq<Seq<u32>>,
    /// Cursor into `states[0]`; `index == 624` means generation 0 is
    /// exhausted and the next draw must twist first.
    pub index: nat,
}

impl MTView {
    /// Well-formedness: ten generations of 624 words each, cursor in range.
    pub open spec fn wf(self) -> bool {
        &&& self.states.len() == 10
        &&& (forall|g: int| 0 <= g < 10 ==> (#[trigger] self.states[g]).len() == 624)
        &&& self.index <= 624
    }

    /// The lookahead buffer is fresh: every buffered generation is the twist
    /// of its predecessor. Constructors, rebuilds and state injection
    /// establish this; only a bare reseed leaves it unestablished until the
    /// next rebuild.
    pub open spec fn buffered(self) -> bool {
        forall|g: int| 0 <= g < 9 ==> self.states[g + 1] == twist_spec(#[trigger] self.states[g])
    }

    /// The value the `k`-th `genrand` call from this state returns (counting
    /// from `k == 0`), read off the canonical generation alone: whenever the
    /// cursor runs past a generation boundary the canonical state is twisted
    /// once more.
    pub open spec fn future(self, k: nat) -> u32 {
        let a = self.index + k;
        temper_spec(twist_iter(self.states[0], (a / 624) as nat)[(a % 624) as int])
    }

    /// The value the next `genrand` call returns.
    pub open spec fn out(self) -> u32 {
        self.future(0)
    }

    /// The state after one `genrand` call: below the boundary only the cursor
    /// moves; at the boundary the canonical state is twisted, the whole
    /// lookahead buffer is rebuilt from it, and the cursor restarts behind
    /// the word just consumed.
    pub open spec fn step(self) -> MTView {
        if self.index < 624 {
            MTView { states: self.states, index: self.index + 1 }
        } else {
            MTView { states: chain_from(twist_spec(self.states[0])), index: 1 }
        }
    }

    /// The state after `n` `genrand` calls.
    pub open spec fn steps(self, n: nat) -> MTView
        decreases n,
    {
        if n == 0 {
            self
        } else {
            self.steps((n - 1) as nat).step()
        }
    }
}

/// The view of a freshly seeded generator: the seed expansion twisted once is
/// the canonical generation, the lookahead buffer is built from it, and the
/// cursor sits at the first word.
pub open spec fn fresh_view(seed: u32) -> MTView {
    MTView { states: chain_from(twist_spec(seed_seq(seed))), index: 0 }
}

/// What a coordinate peek reports: the tempered word at `(g, w)` when both
/// coordinates lie within the buffered range, absence otherwise.
pub open spec fn spec_peek_specific(v: MTView, g: nat, w: nat) -> Option<u32> {
    if g < 10 && w < 624 {
        Some(temper_spec(v.states[g as int][w as int]))
    } else {
        None
    }
}

/// What an offset peek reports: the tempered word `offset` places ahead of
/// the cursor when that slot is buffered, absence beyond the buffered
/// horizon of `10 * 624 - index - 1` words.
pub open spec fn spec_peek(v: MTView, offset: nat) -> Option<u32> {
    let a = v.index + offset;
    if a < 6240 {
        Some(temper_spec(v.states[(a / 624) as int][(a % 624) as int]))
    } else {
        None
    }
}

/// Result of a `_state` peek: the word index within its generation, the raw
/// state word, and its tempered public value.
pub struct MTState {
    pub mti: usize,
    pub mt: u32,
    pub value: u32,
}

impl MTState {
    pub fn new(mti: usize, mt: u32, value: u32) -> (r: Self)
        ensures
            r.mti == mti,
            r.mt == mt,
            r.value == value,
    {
        MTState { mti, mt, value }
    }
}

/// An MT19937 generator with a bounded lookahead buffer: ten pre-twisted
/// generations of state and a consumption cursor into the first.
#[derive(Debug, Clone, Copy, PartialEq, Eq)]
pub struct MT19937 {
    states: [[u32; 624]; 10],
    index: usize,
}

impl View for MT19937 {
    type V = MTView;

    closed spec fn view(&self) -> MTView {
        MTView {
            states: Seq::new(10, |g: int| self.states@[g]@),
            index: self.index as nat,
        }
    }
}

/// A truncating multiply followed by a truncating add of a small term
/// computes the seeding recurrence's single mod-2^32 reduction.
proof fn lemma_wrap_mul_add(x: u32, y: u32, c: u32)
    ensures
        vstd::wrapping::u32_specs::wrapping_add(
            vstd::wrapping::u32_specs::wrapping_mul(x, y),
            c,
        ) == ((x * y + c) % 0x1_0000_0000) as u32,
{
    let r = 0x1_0000_0000int;
    let p = (x * y) as int;
    lemma_mod_division_less_than_divisor(p, r);
    let m = p % r;
    lemma_small_mod(c as nat, r as nat);
    lemma_add_mod_noop(p, c as int, r);
    if m + c < r {
        lemma_small_mod((m + c) as nat, r as nat);
    } else {
        lemma_mod_sub_multiples_vanish(m + c, r);
        lemma_small_mod((m + c - r) as nat, r as nat);
    }
}

impl MT19937 {
    /// Constructs a generator seeded with `DEFAULT_SEED`.
    pub fn new() -> (r: MT19937)
        ensures
            r@.wf(),
            r@.buffered(),
            r@ == fresh_view(DEFAULT_SEED),
    {
        MT19937::new_with_seed(DEFAULT_SEED)
    }

    /// Constructs a generator from an explicit 32-bit seed: the seed is
    /// expanded into generation 0, the whole lookahead buffer is built, and
    /// the cursor starts at the first word of the first twisted generation.
    pub fn new_with_seed(seed: u32) -> (r: MT19937)
        ensures
            r@.wf(),
            r@.buffered(),
            r@ == fresh_view(seed),
    {
        let mut mt = MT19937 { states: [[0u32; 624]; 10], index: 0 };
        mt.sgenrand(seed);
        mt.init_states();
        proof {
            assert(mt@ =~~= fresh_view(seed));
        }
        mt
    }

    /// Reseeds in place: generation 0 is overwritten word by word with the
    /// seeding recurrence and the cursor is left at the end of the
    /// generation, so the next draw twists first. The later buffered
    /// generations are untouched, and stale until that rebuild.
    pub fn sgenrand(&mut self, seed: u32)
        ensures
            final(self)@.wf(),
            final(self)@.states[0] == seed_seq(seed),
            final(self)@.index == 624,
            forall|g: int| 1 <= g < 10 ==> final(self)@.states[g] == old(self)@.states[g],
    {
        let mut st: [u32; 624] = [0u32; 624];
        st[0] = seed;
        let mut i: usize = 1;
        while i < N
            invariant
                1 <= i <= 624,
                forall|j: int| 0 <= j < i ==> st@[j] == seed_word(seed, j as nat),
            decreases 624 - i,
        {
            let prev = st[i - 1];
            let mixed = prev ^ (prev >> 30u32);
            let w = 1812433253u32.wrapping_mul(mixed).wrapping_add(i as u32);
            proof {
                lemma_wrap_mul_add(1812433253u32, mixed, i as u32);
            }
            st[i] = w;
            i += 1;
        }
        self.states[0] = st;
        self.index = N;
        proof {
            assert(st@ =~= seed_seq(seed));
        }
    }

    /// Consumes and returns the next tempered output word, twisting and
    /// rebuilding the lookahead buffer first when generation 0 is exhausted.
    pub fn genrand(&mut self) -> (r: u32)
        requires
            old(self)@.wf(),
        ensures
            final(self)@.wf(),
            final(self)@ == old(self)@.step(),
            r == old(self)@.out(),
    {
        if self.index >= N {
            self.init_states();
            proof {
                let s0 = old(self)@.states[0];
                let ts = twist_spec(s0);
                lemma_div_by_self(624);
                lemma_mod_self_0(624);
                assert(twist_iter(s0, 0) == s0);
                assert(twist_iter(s0, 1) == twist_spec(twist_iter(s0, 0)));
                assert(twist_iter(ts, 0) == ts);
                assert(self@.states[0] == ts);
            }
        } else {
            proof {
                lemma_basic_div(old(self)@.index as int, 624);
                lemma_small_mod(old(self)@.index, 624);
                assert(twist_iter(old(self)@.states[0], 0) == old(self)@.states[0]);
            }
        }
        let y = self.states[0][self.index];
        self.index = self.index + 1;
        proof {
            assert(self@ =~~= old(self)@.step());
        }
        temper(y)
    }

    /// Injects an external canonical state and cursor, then rebuilds every
    /// lookahead generation from the injected state. The cursor is trusted
    /// to lie within generation 0: callers must pass `index <= 624`.
    pub fn load_state(&mut self, state: &[u32; 624], index: usize)
        requires
            index <= 624,
        ensures
            final(self)@.wf(),
            final(self)@.buffered(),
            final(self)@.states == chain_from(state@),
            final(self)@.states[0] == state@,
            final(self)@.index == index,
    {
        self.states[0] = *state;
        self.build_lookahead_states();
        self.index = index;
        proof {
            lemma_chain_from(state@);
        }
    }

    /// Rebuilds generations 1 through 9 by twisting each predecessor in
    /// turn, leaving generation 0 and the cursor as they are.
    fn build_lookahead_states(&mut self)
        ensures
            final(self)@.index == old(self)@.index,
            final(self)@.states[0] == old(self)@.states[0],
            final(self)@.states == chain_from(old(self)@.states[0]),
    {
        let mut i: usize = 1;
        while i < LOOKAHEAD_SIZE
            invariant
                1 <= i <= 10,
                self.index == old(self).index,
                self.states@[0] == old(self).states@[0],
                forall|g: int|
                    0 <= g < i ==> #[trigger] self.states@[g]@ == twist_iter(
                        old(self)@.states[0],
                        g as nat,
                    ),
            decreases 10 - i,
        {
            let mut s = self.states[i - 1];
            twist(&mut s);
            self.states[i] = s;
            proof {
                assert(twist_iter(old(self)@.states[0], i as nat) == twist_spec(
                    twist_iter(old(self)@.states[0], (i - 1) as nat),
                ));
            }
            i += 1;
        }
        proof {
            assert(self@.states =~~= chain_from(old(self)@.states[0]));
        }
    }

    /// Twists generation 0 in place, rebuilds the whole lookahead buffer
    /// from it, and resets the cursor: one block of 624 draws begins.
    fn init_states(&mut self)
        ensures
            final(self)@.wf(),
            final(self)@.buffered(),
            final(self)@.states == chain_from(twist_spec(old(self)@.states[0])),
            final(self)@.index == 0,
    {
        let mut s0 = self.states[0];
        twist(&mut s0);
        self.states[0] = s0;
        self.build_lookahead_states();
        self.index = 0;
        proof {
            lemma_chain_from(twist_spec(old(self)@.states[0]));
        }
    }

    /// The largest forward offset from the cursor for which a buffered word
    /// could exist.
    fn get_max_lookahead_index(&self) -> (r: usize)
        requires
            self@.index <= 624,
        ensures
            r == 6240 - self@.index - 1,
    {
        MAX_LOOKAHEAD_SIZE - self.index - 1
    }

    /// The tempered word at the literal coordinate `(state_index, index)`,
    /// or absence when either coordinate lies outside the buffered range.
    pub fn peek_specific(&self, state_index: usize, index: usize) -> (r: Option<u32>)
        requires
            self@.wf(),
        ensures
            r == spec_peek_specific(self@, state_index as nat, index as nat),
    {
        match self.peek_specific_state(state_index, index) {
            Some(state) => Some(state.value),
            None => None,
        }
    }

    /// The tempered word `offset` places ahead of the cursor, or absence
    /// beyond the buffered horizon. Peeking never moves the cursor and never
    /// touches the buffer.
    pub fn peek(&self, offset: usize) -> (r: Option<u32>)
        requires
            self@.wf(),
        ensures
            r == spec_peek(self@, offset as nat),
    {
        match self.peek_state(offset) {
            Some(state) => Some(state.value),
            None => None,
        }
    }

    /// Like `peek_specific`, but also reports the word index and the raw
    /// pre-temper state word.
    pub fn peek_specific_state(&self, state_index: usize, index: usize) -> (r: Option<MTState>)
        requires
            self@.wf(),
        ensures
            match r {
                Some(st) => {
                    &&& state_index < 10
                    &&& index < 624
                    &&& st.mti == index
                    &&& st.mt == self@.states[state_index as int][index as int]
                    &&& st.value == temper_spec(st.mt)
                },
                None => state_index >= 10 || index >= 624,
            },
    {
        if state_index > self.get_max_lookahead_index() {
            return None;
        }
        if index >= N {
            return None;
        }
        if state_index >= LOOKAHEAD_SIZE {
            // The coordinate is below the horizon but past the last whole
            // buffered generation: report absence rather than fabricate.
            return None;
        }
        let mt = self.states[state_index][index];
        let value = temper(mt);
        Some(MTState::new(index, mt, value))
    }

    /// Like `peek`, but also reports the word index within its generation
    /// and the raw pre-temper state word.
    pub fn peek_state(&self, offset: usize) -> (r: Option<MTState>)
        requires
            self@.wf(),
        ensures
            match r {
                Some(st) => {
                    &&& self@.index + offset < 6240
                    &&& st.mti == (self@.index + offset) % 624
                    &&& st.mt == self@.states[(self@.index + offset) / 624][(self@.index + offset)
                        % 624]
                    &&& st.value == temper_spec(st.mt)
                },
                None => self@.index + offset >= 6240,
            },
    {
        if offset >= MAX_LOOKAHEAD_SIZE {
            return None;
        }
        let offset_index = self.index + offset;
        let state_index = offset_index / N;
        let index = offset_index % N;
        proof {
            lemma_fundamental_div_mod(offset_index as int, 624);
            lemma_mod_division_less_than_divisor(offset_index as int, 624);
        }
        self.peek_specific_state(state_index, index)
    }
}

impl Default for MT19937 {
    /// Equivalent to `MT19937::new`: a generator seeded with `DEFAULT_SEED`.
    fn default() -> (r: Self)
        ensures
            r@.wf(),
            r@.buffered(),
            r@ == fresh_view(DEFAULT_SEED),
    {
        MT19937::new()
    }
}

} // verus!
