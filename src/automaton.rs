//! The automaton: a ring of 32 binary cells held in a `u32`, its transition
//! under a rule table, and the keystream read off its final state.

use vstd::prelude::*;
use crate::rule::{build_rule, is_rule_table, rule_table, Rule};

verus! {

/// The register's value before the first generation.
pub const INITIAL_STATE: u32 = 1;

/// `x` rotated left by `n` places within 32 bits.
pub open spec fn rotl32(x: u32, n: u32) -> u32 {
    if n == 0 {
        x
    } else {
        ((x << n) | (x >> ((32 - n) as u32))) as u32
    }
}

/// `x` rotated right by `n` places within 32 bits.
pub open spec fn rotr32(x: u32, n: u32) -> u32 {
    if n == 0 {
        x
    } else {
        ((x >> n) | (x << ((32 - n) as u32))) as u32
    }
}

/// Bit `i` of `x` (0 or 1), for `i < 32`.
pub open spec fn bit_u32(x: u32, i: u32) -> u32 {
    (x >> i) & 1
}

/// The rule-table index that column `c` reads from `state`: the low three bits
/// of the register rotated left by one and then right by `c`.
pub open spec fn neighbourhood(state: u32, c: u32) -> u32 {
    rotr32(rotl32(state, 1), c) & 7
}

/// The value of cell `c` in the generation after `state`.
pub open spec fn next_cell(state: u32, table: Seq<u8>, c: u32) -> u32 {
    table[neighbourhood(state, c) as int] as u32
}

/// The register holding the next values of columns `0..n`, all higher bits 0.
pub open spec fn columns(state: u32, table: Seq<u8>, n: nat) -> u32
    decreases n,
{
    if n == 0 {
        0
    } else {
        let c = (n - 1) as nat;
        (columns(state, table, c) | (next_cell(state, table, c as u32) << (c as u32))) as u32
    }
}

/// One synchronous generation of the automaton.
pub open spec fn step(state: u32, table: Seq<u8>) -> u32 {
    columns(state, table, 32)
}

/// The register after `k` generations from the initial state.
pub open spec fn state_after(table: Seq<u8>, k: nat) -> u32
    decreases k,
{
    if k == 0 {
        INITIAL_STATE
    } else {
        step(state_after(table, (k - 1) as nat), table)
    }
}

/// The four bytes of `x`, least significant first.
pub open spec fn le_bytes(x: u32) -> Seq<u8> {
    seq![
        (x & 0xff) as u8,
        ((x >> 8) & 0xff) as u8,
        ((x >> 16) & 0xff) as u8,
        ((x >> 24) & 0xff) as u8,
    ]
}

/// The keystream of `n` bytes: the little-endian bytes of the state after
/// `iterations` generations of `rule_number`, repeated and cut to length.
pub open spec fn keystream(n: nat, rule_number: u8, iterations: nat) -> Seq<u8> {
    let group = le_bytes(state_after(rule_table(rule_number), iterations));
    Seq::new(n, |p: int| group[p % 4])
}

/// Rotates a 32-bit value left by `n` places.
pub fn rotate_left_u32(x: u32, n: u32) -> (r: u32)
    requires
        n < 32,
    ensures
        r == rotl32(x, n),
{
    if n == 0 {
        x
    } else {
        (x << n) | (x >> (32 - n))
    }
}

/// Rotates a 32-bit value right by `n` places.
pub fn rotate_right_u32(x: u32, n: u32) -> (r: u32)
    requires
        n < 32,
    ensures
        r == rotr32(x, n),
{
    if n == 0 {
        x
    } else {
        (x >> n) | (x << (32 - n))
    }
}

/// Or-ing a single bit `v` in at place `n` above every set bit of `x` keeps the
/// bits below `n`, sets bit `n` to `v`, and leaves nothing above it.
proof fn lemma_or_in_bit(x: u32, v: u32, n: u32)
    requires
        n < 32,
        v <= 1,
        x >> n == 0,
    ensures
        forall|c: u32| c < n ==> #[trigger] bit_u32(x | (v << n), c) == bit_u32(x, c),
        bit_u32(x | (v << n), n) == v,
        n < 31 ==> (x | (v << n)) >> ((n + 1) as u32) == 0,
{
    assert(forall|c: u32| c < n ==> #[trigger] bit_u32(x | (v << n), c) == bit_u32(x, c))
        by (bit_vector)
        requires
            n < 32,
            v <= 1,
            x >> n == 0,
    ;
    assert(bit_u32(x | (v << n), n) == v) by (bit_vector)
        requires
            n < 32,
            v <= 1,
            x >> n == 0,
    ;
    assert(n < 31 ==> (x | (v << n)) >> ((n + 1) as u32) == 0) by (bit_vector)
        requires
            n < 32,
            v <= 1,
            x >> n == 0,
    ;
}

/// Column `c` of the next generation is at bit `c` of `columns(n)` for every
/// `c < n`, and no bit at or above `n` is set.
proof fn lemma_columns_bits(state: u32, table: Seq<u8>, n: nat)
    requires
        is_rule_table(table),
        n <= 32,
    ensures
        forall|c: u32| c < n ==> #[trigger] bit_u32(columns(state, table, n), c) == next_cell(
            state,
            table,
            c,
        ),
        n < 32 ==> columns(state, table, n) >> (n as u32) == 0,
    decreases n,
{
    if n == 0 {
        assert((0u32 >> 0u32) == 0) by (bit_vector);
    } else {
        let m = (n - 1) as nat;
        lemma_columns_bits(state, table, m);
        let x = columns(state, table, m);
        let v = next_cell(state, table, m as u32);
        assert(neighbourhood(state, m as u32) < 8) by {
            let r = rotr32(rotl32(state, 1), m as u32);
            assert(r & 7 < 8) by (bit_vector);
        }
        lemma_or_in_bit(x, v, m as u32);
        assert(columns(state, table, n) == x | (v << (m as u32)));
    }
}

/// Each cell of the next generation is the rule table's entry for the
/// neighbourhood that its column reads.
pub proof fn lemma_step_cells(state: u32, table: Seq<u8>)
    requires
        is_rule_table(table),
    ensures
        forall|c: u32| c < 32 ==> #[trigger] bit_u32(step(state, table), c) == next_cell(
            state,
            table,
            c,
        ),
{
    lemma_columns_bits(state, table, 32);
}

/// Computes one generation: every column `c` reads its neighbourhood from the
/// register rotated left by one and then right by `c`, looks it up in `rule`,
/// and becomes bit `c` of the new register.
pub fn transition(previous_state: u32, rule: Rule) -> (next_state: u32)
    requires
        is_rule_table(rule@),
    ensures
        next_state == step(previous_state, rule@),
        forall|c: u32| c < 32 ==> #[trigger] bit_u32(next_state, c) == next_cell(
            previous_state,
            rule@,
            c,
        ),
{
    let rotated = rotate_left_u32(previous_state, 1);
    let mut next_state: u32 = 0;
    let mut column: u32 = 0;
    while column < 32
        invariant
            column <= 32,
            rotated == rotl32(previous_state, 1),
            next_state == columns(previous_state, rule@, column as nat),
        decreases 32 - column,
    {
        let shifted_state = rotate_right_u32(rotated, column);
        let rule_index = shifted_state & 0b111;
        assert(shifted_state & 0b111 < 8) by (bit_vector);
        let next_value = rule[rule_index as usize] as u32;
        next_state = next_state | (next_value << column);
        column = column + 1;
    }
    proof {
        lemma_step_cells(previous_state, rule@);
    }
    next_state
}

/// The neighbourhood that column `c` reads is the ring's cells `c - 1`, `c` and
/// `c + 1` (wrapping at the register's ends), at index weights 1, 2 and 4.
pub proof fn lemma_neighbourhood_cells(state: u32, c: u32)
    requires
        c < 32,
    ensures
        neighbourhood(state, c) == bit_u32(state, ((c + 31) % 32) as u32) | (bit_u32(state, c)
            << 1) | (bit_u32(state, ((c + 1) % 32) as u32) << 2),
{
    assert(neighbourhood(state, c) == bit_u32(state, ((c + 31) % 32) as u32) | (bit_u32(state, c)
        << 1) | (bit_u32(state, ((c + 1) % 32) as u32) << 2)) by (bit_vector)
        requires
            c < 32,
    ;
}

/// Splits a 32-bit value into its four bytes, least significant first.
pub fn u32_to_4_u8(source: u32) -> (bytes: [u8; 4])
    ensures
        bytes@ == le_bytes(source),
{
    let first = (source & 0b1111_1111) as u8;
    let second = ((source >> 8) & 0b1111_1111) as u8;
    let third = ((source >> 16) & 0b1111_1111) as u8;
    let fourth = ((source >> 24) & 0b1111_1111) as u8;
    let bytes = [first, second, third, fourth];
    assert(bytes@ =~= le_bytes(source));
    bytes
}

/// Generates `bytes_needed` bytes of keystream: evolves the register from its
/// initial state for `iterations` generations of `cellular_automata`, then
/// repeats the final register's four little-endian bytes up to the length asked
/// for.
pub fn create_pad(bytes_needed: usize, cellular_automata: u8, iterations: usize) -> (pad: Vec<u8>)
    ensures
        pad@ == keystream(bytes_needed as nat, cellular_automata, iterations as nat),
        pad@.len() == bytes_needed,
{
    let ca_rule = build_rule(cellular_automata);
    let mut current_state: u32 = INITIAL_STATE;
    let mut i: usize = 0;
    while i < iterations
        invariant
            i <= iterations,
            ca_rule@ == rule_table(cellular_automata),
            is_rule_table(ca_rule@),
            current_state == state_after(rule_table(cellular_automata), i as nat),
        decreases iterations - i,
    {
        current_state = transition(current_state, ca_rule);
        i = i + 1;
    }
    let group = u32_to_4_u8(current_state);
    let mut bytes_for_encryption: Vec<u8> = Vec::new();
    let mut p: usize = 0;
    while p < bytes_needed
        invariant
            p <= bytes_needed,
            group@ == le_bytes(current_state),
            current_state == state_after(rule_table(cellular_automata), iterations as nat),
            bytes_for_encryption@ =~= keystream(p as nat, cellular_automata, iterations as nat),
        decreases bytes_needed - p,
    {
        bytes_for_encryption.push(group[p % 4]);
        p = p + 1;
        assert(bytes_for_encryption@ =~= keystream(p as nat, cellular_automata, iterations as nat));
    }
    bytes_for_encryption
}

/// The keystream has exactly the length asked for.
pub proof fn lemma_keystream_len(n: nat, rule_number: u8, iterations: nat)
    ensures
        keystream(n, rule_number, iterations).len() == n,
{
}

/// The keystream repeats with period four: the byte at `p` equals the byte at
/// `p + 4` wherever both exist.
pub proof fn lemma_keystream_period(n: nat, rule_number: u8, iterations: nat, p: int)
    requires
        0 <= p,
        p + 4 < n,
    ensures
        keystream(n, rule_number, iterations)[p] == keystream(n, rule_number, iterations)[p + 4],
{
    assert((p + 4) % 4 == p % 4);
}

} // verus!
