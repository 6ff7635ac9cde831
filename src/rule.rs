//! Rule tables of elementary cellular automata.

use vstd::prelude::*;

verus! {

/// The eight outputs of an elementary rule, one per neighbourhood pattern.
pub type Rule = [u8; 8];

/// Bit `i` of `x` (0 or 1), for `i < 8`.
pub open spec fn bit_u8(x: u8, i: u8) -> u8 {
    (x >> i) & 1
}

/// The rule table that a rule number stands for: entry `i` is bit `i`.
pub open spec fn rule_table(rule_number: u8) -> Seq<u8> {
    Seq::new(8, |i: int| bit_u8(rule_number, i as u8))
}

/// A rule table holds only single-bit entries.
pub open spec fn is_rule_table(table: Seq<u8>) -> bool {
    &&& table.len() == 8
    &&& forall|i: int| 0 <= i < 8 ==> #[trigger] table[i] <= 1
}

/// `x` rotated right by `n` places within eight bits.
pub open spec fn rotr8(x: u8, n: u8) -> u8 {
    if n == 0 {
        x
    } else {
        ((x >> n) | (x << ((8 - n) as u8))) as u8
    }
}

/// Rotates an eight-bit value right by `n` places, bits leaving at the
/// bottom coming back at the top.
pub fn rotate_right_u8(x: u8, n: u8) -> (r: u8)
    requires
        n < 8,
    ensures
        r == rotr8(x, n),
{
    if n == 0 {
        x
    } else {
        (x >> n) | (x << (8 - n))
    }
}

/// Builds the rule table of `rule_number`: entry `i` is the low bit of the
/// rule number rotated right by `i`, that is, bit `i` of the rule number.
pub fn build_rule(rule_number: u8) -> (table: Rule)
    ensures
        table@ == rule_table(rule_number),
        is_rule_table(table@),
{
    let mut table: Rule = [0u8; 8];
    let mut i: u8 = 0;
    while i < 8
        invariant
            i <= 8,
            table@.len() == 8,
            forall|j: int| 0 <= j < i ==> table@[j] == bit_u8(rule_number, j as u8),
        decreases 8 - i,
    {
        let rotated = rotate_right_u8(rule_number, i);
        assert((rotr8(rule_number, i) & 1) == bit_u8(rule_number, i)) by (bit_vector)
            requires
                i < 8,
        ;
        table[i as usize] = rotated & 1;
        i = i + 1;
    }
    assert forall|j: int| 0 <= j < 8 implies #[trigger] table@[j] <= 1 by {
        let k = j as u8;
        assert(bit_u8(rule_number, k) <= 1) by (bit_vector);
    }
    assert(table@ =~= rule_table(rule_number));
    table
}

} // verus!
