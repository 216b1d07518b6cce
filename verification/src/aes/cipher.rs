//! Encryption and decryption of one block under a key schedule.

use vstd::prelude::*;
use vstd::slice::slice_subrange;
use crate::aes::block::{
    add_round_key_spec, inv_mix_columns_spec, inv_shift_rows_spec, inv_sub_bytes_spec,
    lemma_add_round_key_twice, lemma_inv_mix_columns, lemma_inv_shift_rows, lemma_inv_sub_bytes,
    mix_columns_spec, shift_rows_spec, sub_bytes_spec, Block,
};

verus! {

/// The number of rounds that a schedule serves: one less than its number of
/// round keys.
pub open spec fn schedule_rounds(w: Seq<u32>) -> int {
    w.len() / 4 - 1
}

/// A schedule that holds at least two whole round keys.
pub open spec fn usable_schedule(w: Seq<u32>) -> bool {
    w.len() >= 8
}

/// The four words of round key `round`.
pub open spec fn round_key(w: Seq<u32>, round: int) -> Seq<u32> {
    w.subrange(4 * round, 4 * round + 4)
}

/// One full round: substitute, shift the rows, mix the columns, add the key.
pub open spec fn round_spec(s: Seq<u8>, w: Seq<u32>, round: int) -> Seq<u8> {
    add_round_key_spec(mix_columns_spec(shift_rows_spec(sub_bytes_spec(s))), round_key(w, round))
}

/// The state after the first key addition and the full rounds 1 to `n`.
pub open spec fn after_rounds(s: Seq<u8>, w: Seq<u32>, n: int) -> Seq<u8>
    decreases n,
{
    if n <= 0 {
        add_round_key_spec(s, round_key(w, 0))
    } else {
        round_spec(after_rounds(s, w, n - 1), w, n)
    }
}

/// The encryption of one block: the first key addition, all full rounds but
/// the last, and a last round without the column mix.
#[verifier::opaque]
pub open spec fn cipher_spec(s: Seq<u8>, w: Seq<u32>) -> Seq<u8> {
    let nr = schedule_rounds(w);
    add_round_key_spec(
        shift_rows_spec(sub_bytes_spec(after_rounds(s, w, nr - 1))),
        round_key(w, nr),
    )
}

/// One full inverse round: shift the rows back, substitute back, add the key,
/// mix the columns back.
pub open spec fn inv_round_spec(s: Seq<u8>, w: Seq<u32>, round: int) -> Seq<u8> {
    inv_mix_columns_spec(
        add_round_key_spec(inv_sub_bytes_spec(inv_shift_rows_spec(s)), round_key(w, round)),
    )
}

/// The state after the first key addition of the decryption and the inverse
/// rounds from the last but one down to `k`.
pub open spec fn after_inv_rounds(s: Seq<u8>, w: Seq<u32>, k: int) -> Seq<u8>
    decreases schedule_rounds(w) - k,
{
    if k >= schedule_rounds(w) {
        add_round_key_spec(s, round_key(w, schedule_rounds(w)))
    } else {
        inv_round_spec(after_inv_rounds(s, w, k + 1), w, k)
    }
}

/// The decryption of one block.
#[verifier::opaque]
pub open spec fn inv_cipher_spec(s: Seq<u8>, w: Seq<u32>) -> Seq<u8> {
    add_round_key_spec(
        inv_sub_bytes_spec(inv_shift_rows_spec(after_inv_rounds(s, w, 1))),
        round_key(w, 0),
    )
}

/// Encrypts one block.
pub fn cipher(input: Block, key_schedule: &[u32]) -> (out: Block)
    requires
        usable_schedule(key_schedule@),
    ensures
        out@ == cipher_spec(input@, key_schedule@),
{
    proof {
        reveal(cipher_spec);
        reveal(inv_cipher_spec);
    }
    let mut state = input;
    let n: usize = key_schedule.len();
    let rounds: usize = n / 4 - 1;
    state.add_round_key(slice_subrange(key_schedule, 0, 4));
    let mut round: usize = 1;
    while round < rounds
        invariant
            usable_schedule(key_schedule@),
            rounds == schedule_rounds(key_schedule@),
            n == key_schedule@.len(),
            4 * rounds + 4 <= n,
            1 <= round <= rounds,
            state@ == after_rounds(input@, key_schedule@, round - 1),
        decreases rounds - round,
    {
        state.sub_bytes();
        state.shift_rows();
        state.mix_columns();
        state.add_round_key(slice_subrange(key_schedule, 4 * round, 4 * round + 4));
        round += 1;
    }
    state.sub_bytes();
    state.shift_rows();
    state.add_round_key(slice_subrange(key_schedule, 4 * rounds, 4 * rounds + 4));
    state
}

/// Decrypts one block.
pub fn inv_cipher(input: Block, key_schedule: &[u32]) -> (out: Block)
    requires
        usable_schedule(key_schedule@),
    ensures
        out@ == inv_cipher_spec(input@, key_schedule@),
{
    proof {
        reveal(cipher_spec);
        reveal(inv_cipher_spec);
    }
    let mut state = input;
    let n: usize = key_schedule.len();
    let rounds: usize = n / 4 - 1;
    state.add_round_key(slice_subrange(key_schedule, 4 * rounds, 4 * rounds + 4));
    let mut round: usize = rounds;
    while round > 1
        invariant
            usable_schedule(key_schedule@),
            rounds == schedule_rounds(key_schedule@),
            n == key_schedule@.len(),
            4 * rounds + 4 <= n,
            1 <= round <= rounds,
            state@ == after_inv_rounds(input@, key_schedule@, round as int),
        decreases round,
    {
        round -= 1;
        state.inv_shift_rows();
        state.inv_sub_bytes();
        state.add_round_key(slice_subrange(key_schedule, 4 * round, 4 * round + 4));
        state.inv_mix_columns();
    }
    state.inv_shift_rows();
    state.inv_sub_bytes();
    state.add_round_key(slice_subrange(key_schedule, 0, 4));
    state
}

/// The state of the encryption always holds sixteen bytes.
pub proof fn lemma_after_rounds_len(s: Seq<u8>, w: Seq<u32>, n: int)
    ensures
        after_rounds(s, w, n).len() == 16,
    decreases n,
{
    if n > 0 {
        lemma_after_rounds_len(s, w, n - 1);
    }
}

/// Decrypting the ciphertext down to round `k` gives the state that the
/// encryption held after round `k - 1`, substituted and with its rows shifted.
proof fn lemma_inv_rounds_unwind(s: Seq<u8>, w: Seq<u32>, k: int)
    requires
        s.len() == 16,
        usable_schedule(w),
        1 <= k <= schedule_rounds(w),
    ensures
        after_inv_rounds(cipher_spec(s, w), w, k) == shift_rows_spec(
            sub_bytes_spec(after_rounds(s, w, k - 1)),
        ),
    decreases schedule_rounds(w) - k,
{
    reveal(cipher_spec);
    let nr = schedule_rounds(w);
    let c = cipher_spec(s, w);
    if k == nr {
        lemma_add_round_key_twice(
            shift_rows_spec(sub_bytes_spec(after_rounds(s, w, nr - 1))),
            round_key(w, nr),
        );
    } else {
        lemma_inv_rounds_unwind(s, w, k + 1);
        let prev = after_rounds(s, w, k - 1);
        let x = after_rounds(s, w, k);
        let mixed = mix_columns_spec(shift_rows_spec(sub_bytes_spec(prev)));
        lemma_after_rounds_len(s, w, k);
        lemma_after_rounds_len(s, w, k - 1);
        assert(x == add_round_key_spec(mixed, round_key(w, k)));
        lemma_inv_shift_rows(sub_bytes_spec(x));
        lemma_inv_sub_bytes(x);
        lemma_add_round_key_twice(mixed, round_key(w, k));
        lemma_inv_mix_columns(shift_rows_spec(sub_bytes_spec(prev)));
    }
}

/// Decryption undoes encryption: under any schedule of at least two round
/// keys, every block comes back.
pub proof fn lemma_inv_cipher_of_cipher(s: Seq<u8>, w: Seq<u32>)
    requires
        s.len() == 16,
        usable_schedule(w),
    ensures
        inv_cipher_spec(cipher_spec(s, w), w) == s,
{
    reveal(inv_cipher_spec);
    lemma_inv_rounds_unwind(s, w, 1);
    let x0 = after_rounds(s, w, 0);
    lemma_inv_shift_rows(sub_bytes_spec(x0));
    lemma_inv_sub_bytes(x0);
    lemma_add_round_key_twice(s, round_key(w, 0));
}

/// Both directions of the cipher give blocks of sixteen bytes.
pub proof fn lemma_cipher_len(s: Seq<u8>, w: Seq<u32>)
    ensures
        cipher_spec(s, w).len() == 16,
        inv_cipher_spec(s, w).len() == 16,
{
    reveal(cipher_spec);
    reveal(inv_cipher_spec);
}

/// Encryption under one schedule never maps two blocks to the same block.
pub proof fn lemma_cipher_injective(a: Seq<u8>, b: Seq<u8>, w: Seq<u32>)
    requires
        a.len() == 16,
        b.len() == 16,
        usable_schedule(w),
        cipher_spec(a, w) == cipher_spec(b, w),
    ensures
        a == b,
{
    lemma_inv_cipher_of_cipher(a, w);
    lemma_inv_cipher_of_cipher(b, w);
}

} // verus!
