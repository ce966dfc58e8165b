//! Proofs of the global laws of the generator: determinism of the output
//! stream, peek/consume equivalence, agreement of the two peek addressing
//! schemes, state-injection round trips, and twist periodicity.

use crate::mt19937::chain_from;
use crate::mt19937::fresh_view;
use crate::mt19937::lemma_chain_from;
use crate::mt19937::lemma_twist_upto_len;
use crate::mt19937::mt_output;
use crate::mt19937::seed_seq;
use crate::mt19937::spec_peek;
use crate::mt19937::spec_peek_specific;
use crate::mt19937::twist_iter;
use crate::mt19937::twist_spec;
use crate::mt19937::MTView;
use vstd::arithmetic::div_mod::lemma_fundamental_div_mod;
use vstd::arithmetic::div_mod::lemma_hoist_over_denominator;
use vstd::arithmetic::div_mod::lemma_mod_add_multiples_vanish;
use vstd::arithmetic::div_mod::lemma_mod_division_less_than_divisor;
use vstd::prelude::*;

verus! {

/// Twisting `g` times after a single twist is twisting `g + 1` times.
pub proof fn lemma_twist_iter_shift(s: Seq<u32>, g: nat)
    ensures
        twist_iter(twist_spec(s), g) == twist_iter(s, g + 1),
    decreases g,
{
    assert(twist_iter(s, 0) == s);
    if g == 0 {
        assert(twist_iter(twist_spec(s), 0) == twist_spec(s));
        assert(twist_iter(s, 1) == twist_spec(twist_iter(s, 0)));
    } else {
        lemma_twist_iter_shift(s, (g - 1) as nat);
        assert(twist_iter(twist_spec(s), g) == twist_spec(
            twist_iter(twist_spec(s), (g - 1) as nat),
        ));
        assert(twist_iter(s, g + 1) == twist_spec(twist_iter(s, g)));
    }
}

/// In a fresh lookahead buffer, generation `g` is the canonical generation
/// twisted `g` times.
pub proof fn lemma_buffered_chain(v: MTView, g: nat)
    requires
        v.wf(),
        v.buffered(),
        g < 10,
    ensures
        v.states[g as int] == twist_iter(v.states[0], g),
    decreases g,
{
    assert(twist_iter(v.states[0], 0) == v.states[0]);
    if g > 0 {
        lemma_buffered_chain(v, (g - 1) as nat);
        let h = (g - 1) as int;
        assert(v.states[h + 1] == twist_spec(v.states[h]));
        assert(twist_iter(v.states[0], g) == twist_spec(twist_iter(v.states[0], (g - 1) as nat)));
    }
}

/// Round-trip state injection: the future output stream depends on the
/// canonical generation and the cursor alone, so a generator loaded with a
/// captured `(states[0], index)` pair reproduces the donor's stream exactly.
pub proof fn lemma_state_roundtrip(a: MTView, b: MTView, k: nat)
    requires
        a.states[0] == b.states[0],
        a.index == b.index,
    ensures
        a.future(k) == b.future(k),
{
}

/// One draw shifts the stream by one slot: the drawn value is `future(0)`,
/// and the value that was `k + 1` ahead is `k` ahead afterwards.
pub proof fn lemma_step_shift(v: MTView, k: nat)
    requires
        v.wf(),
    ensures
        v.step().wf(),
        v.out() == v.future(0),
        v.step().future(k) == v.future(k + 1),
{
    if v.index < 624 {
        assert(v.step().future(k) == v.future(k + 1));
    } else {
        let s0 = v.states[0];
        let ts = twist_spec(s0);
        lemma_twist_upto_len(s0, 624);
        lemma_chain_from(ts);
        let t = k + 1;
        assert(chain_from(ts)[0] == twist_iter(ts, 0));
        assert(twist_iter(ts, 0) == ts);
        lemma_hoist_over_denominator(t as int, 1, 624);
        lemma_mod_add_multiples_vanish(t as int, 624);
        assert((624 + t) / 624 == t / 624 + 1);
        assert((624 + t) % 624 == t % 624);
        lemma_twist_iter_shift(s0, (t / 624) as nat);
        assert(v.step().future(k) == v.future(k + 1));
    }
}

/// After `n` draws, the value `k` ahead is the value that was `n + k` ahead.
pub proof fn lemma_steps_future(v: MTView, n: nat, k: nat)
    requires
        v.wf(),
    ensures
        v.steps(n).wf(),
        v.steps(n).future(k) == v.future(n + k),
    decreases n,
{
    if n > 0 {
        lemma_steps_future(v, (n - 1) as nat, (k + 1) as nat);
        lemma_step_shift(v.steps((n - 1) as nat), k);
    }
}

/// The `k`-th upcoming value of a freshly seeded generator is
/// `mt_output(seed, k)`.
pub proof fn lemma_fresh_future(seed: u32, k: nat)
    ensures
        fresh_view(seed).wf(),
        fresh_view(seed).future(k) == mt_output(seed, k),
{
    let s = seed_seq(seed);
    let ts = twist_spec(s);
    lemma_twist_upto_len(s, 624);
    lemma_chain_from(ts);
    assert(chain_from(ts)[0] == twist_iter(ts, 0));
    assert(twist_iter(ts, 0) == ts);
    lemma_twist_iter_shift(s, (k / 624) as nat);
}

/// Determinism: the `n`-th value drawn from a generator freshly seeded with
/// `seed` is `mt_output(seed, n)` — a pure function of the seed and the call
/// count, identical across runs and across conforming implementations.
pub proof fn lemma_seed_determines_stream(seed: u32, n: nat)
    ensures
        fresh_view(seed).wf(),
        fresh_view(seed).steps(n).out() == mt_output(seed, n),
{
    lemma_fresh_future(seed, n);
    lemma_steps_future(fresh_view(seed), n, 0);
}

/// A peek within the buffered horizon reports the stream value at its
/// offset, without touching the generator.
pub proof fn lemma_peek_future(v: MTView, k: nat)
    requires
        v.wf(),
        v.buffered(),
        v.index + k < 6240,
    ensures
        spec_peek(v, k) == Some(v.future(k)),
{
    let a = v.index + k;
    lemma_fundamental_div_mod(a as int, 624);
    lemma_mod_division_less_than_divisor(a as int, 624);
    lemma_buffered_chain(v, (a / 624) as nat);
}

/// Peek/consume equivalence: the value `peek` reports at offset `k` is
/// exactly the value the `(k + 1)`-th subsequent draw returns. Peeking takes
/// the generator by shared reference, so the intervening draws are unaffected
/// by it.
pub proof fn lemma_peek_consume_equivalence(v: MTView, k: nat)
    requires
        v.wf(),
        v.buffered(),
        v.index + k < 6240,
    ensures
        spec_peek(v, k) == Some(v.steps(k).out()),
{
    lemma_peek_future(v, k);
    lemma_steps_future(v, k, 0);
}

/// Cross-generation consistency: the offset peek and the coordinate peek
/// that address the same buffered slot agree exactly, presence and value
/// both.
pub proof fn lemma_peek_addressing_agrees(v: MTView, offset: nat)
    requires
        v.wf(),
    ensures
        spec_peek(v, offset) == spec_peek_specific(
            v,
            ((v.index + offset) / 624) as nat,
            ((v.index + offset) % 624) as nat,
        ),
{
    let a = v.index + offset;
    lemma_fundamental_div_mod(a as int, 624);
    lemma_mod_division_less_than_divisor(a as int, 624);
}

/// While a generation lasts, draws only advance the cursor: the buffer is
/// untouched after up to 624 draws from a fresh cursor.
pub proof fn lemma_cursor_within_generation(v: MTView, n: nat)
    requires
        v.wf(),
        v.index == 0,
        n <= 624,
    ensures
        v.steps(n).states == v.states,
        v.steps(n).index == n,
    decreases n,
{
    if n > 0 {
        lemma_cursor_within_generation(v, (n - 1) as nat);
    }
}

/// Twist periodicity: drawing exactly one full generation from a fresh
/// cursor leaves every buffered generation as it was, with the cursor at the
/// generation's end; the very next draw performs exactly one further twist of
/// the canonical generation and the cursor restarts inside the new one.
pub proof fn lemma_twist_periodicity(v: MTView)
    requires
        v.wf(),
        v.index == 0,
    ensures
        v.steps(624).states == v.states,
        v.steps(624).index == 624,
        v.steps(625).states == chain_from(twist_spec(v.states[0])),
        v.steps(625).index == 1,
{
    lemma_cursor_within_generation(v, 624);
    assert(v.steps(625) == v.steps(624).step());
}

} // verus!
