//! Where the matching bitmaps live in the evaluator's linear memory.

use crate::bitmap::{bytes_for_bits, spec_bytes_for_bits};
use crate::rules::{RuleTable, MAX_IDS};
use vstd::prelude::*;

verus! {

/// Offset of the rule bitmap in the evaluator's memory. The bytes below it
/// belong to the evaluator.
pub const MATCHING_RULES_BITMAP_BASE: usize = 2048;

/// Size of one page of the evaluator's memory.
pub const PAGE_SIZE: usize = 65536;

/// Offset of the pattern bitmap: it follows the rule bitmap immediately.
pub open spec fn spec_patterns_bitmap_base(table: RuleTable) -> nat {
    MATCHING_RULES_BITMAP_BASE as nat + spec_bytes_for_bits(table.rules())
}

/// Offset of the first byte after both bitmaps.
pub open spec fn spec_bitmaps_end(table: RuleTable) -> nat {
    spec_patterns_bitmap_base(table) + spec_bytes_for_bits(table.patterns)
}

/// Number of pages that hold everything up to the end of the bitmaps.
pub open spec fn spec_memory_pages(table: RuleTable) -> nat {
    ((spec_bitmaps_end(table) + PAGE_SIZE - 1) / PAGE_SIZE as int) as nat
}

/// Size in bytes of the evaluator's memory.
pub open spec fn spec_memory_size(table: RuleTable) -> nat {
    spec_memory_pages(table) * (PAGE_SIZE as nat)
}

/// The bytes of `mem` that hold the rule bitmap.
pub open spec fn rule_region(mem: Seq<u8>, table: RuleTable) -> Seq<u8> {
    mem.subrange(MATCHING_RULES_BITMAP_BASE as int, spec_patterns_bitmap_base(table) as int)
}

/// The bytes of `mem` that hold the pattern bitmap.
pub open spec fn pattern_region(mem: Seq<u8>, table: RuleTable) -> Seq<u8> {
    mem.subrange(spec_patterns_bitmap_base(table) as int, spec_bitmaps_end(table) as int)
}

/// `mem` with the two bitmaps replaced and every other byte kept.
pub open spec fn with_bitmaps(
    mem: Seq<u8>,
    table: RuleTable,
    rule_bits: Seq<u8>,
    pattern_bits: Seq<u8>,
) -> Seq<u8> {
    mem.subrange(0, MATCHING_RULES_BITMAP_BASE as int) + rule_bits + pattern_bits + mem.subrange(
        spec_bitmaps_end(table) as int,
        mem.len() as int,
    )
}

/// Writing bitmaps and reading them back gives the bitmaps written; the
/// bytes around them stay.
pub proof fn lemma_with_bitmaps(
    mem: Seq<u8>,
    table: RuleTable,
    rule_bits: Seq<u8>,
    pattern_bits: Seq<u8>,
)
    requires
        spec_bitmaps_end(table) <= mem.len(),
        rule_bits.len() == spec_bytes_for_bits(table.rules()),
        pattern_bits.len() == spec_bytes_for_bits(table.patterns),
    ensures
        with_bitmaps(mem, table, rule_bits, pattern_bits).len() == mem.len(),
        rule_region(with_bitmaps(mem, table, rule_bits, pattern_bits), table) == rule_bits,
        pattern_region(with_bitmaps(mem, table, rule_bits, pattern_bits), table) == pattern_bits,
        forall|i: int|
            0 <= i < mem.len() && !(MATCHING_RULES_BITMAP_BASE <= i < spec_bitmaps_end(table))
                ==> with_bitmaps(mem, table, rule_bits, pattern_bits)[i] == mem[i],
        with_bitmaps(mem, table, rule_region(mem, table), pattern_region(mem, table)) == mem,
{
    let after = with_bitmaps(mem, table, rule_bits, pattern_bits);
    assert(rule_region(after, table) =~= rule_bits);
    assert(pattern_region(after, table) =~= pattern_bits);
    assert(with_bitmaps(mem, table, rule_region(mem, table), pattern_region(mem, table)) =~= mem);
}

/// Offset of the pattern bitmap for a rule set with `num_rules` rules.
pub fn matching_patterns_bitmap_base(num_rules: usize) -> (base: usize)
    requires
        num_rules <= MAX_IDS,
    ensures
        base == MATCHING_RULES_BITMAP_BASE + spec_bytes_for_bits(num_rules as nat),
        base <= 0x1000_0800,
{
    MATCHING_RULES_BITMAP_BASE + bytes_for_bits(num_rules)
}

/// Number of 64 KiB pages of evaluator memory needed for a rule set with
/// `num_rules` rules and `num_patterns` patterns.
pub fn memory_pages(num_rules: usize, num_patterns: usize) -> (pages: usize)
    requires
        num_rules <= MAX_IDS,
        num_patterns <= MAX_IDS,
    ensures
        pages == (MATCHING_RULES_BITMAP_BASE + spec_bytes_for_bits(num_rules as nat)
            + spec_bytes_for_bits(num_patterns as nat) + PAGE_SIZE - 1) / PAGE_SIZE as int,
        1 <= pages <= 8193,
        MATCHING_RULES_BITMAP_BASE + spec_bytes_for_bits(num_rules as nat) + spec_bytes_for_bits(
            num_patterns as nat,
        ) <= pages * PAGE_SIZE,
{
    let end = matching_patterns_bitmap_base(num_rules) + bytes_for_bits(num_patterns);
    if end % PAGE_SIZE == 0 {
        end / PAGE_SIZE
    } else {
        end / PAGE_SIZE + 1
    }
}

/// Copies `len` bytes of `mem` starting at `start`.
pub fn copy_out(mem: &Vec<u8>, start: usize, len: usize) -> (out: Vec<u8>)
    requires
        start + len <= mem@.len(),
    ensures
        out@ == mem@.subrange(start as int, start + len),
{
    let total = mem.len();
    let mut out: Vec<u8> = Vec::with_capacity(len);
    let mut i: usize = 0;
    while i < len
        invariant
            total == mem@.len(),
            start + len <= total,
            i <= len,
            out@ == mem@.subrange(start as int, start + i),
        decreases len - i,
    {
        out.push(mem[start + i]);
        i += 1;
    }
    out
}

/// Overwrites the bytes of `mem` from `start` on with `src`; the other bytes
/// stay.
pub fn copy_in(mem: &mut Vec<u8>, start: usize, src: &Vec<u8>)
    requires
        start + src@.len() <= old(mem)@.len(),
    ensures
        final(mem)@ == old(mem)@.subrange(0, start as int) + src@ + old(mem)@.subrange(
            start + src@.len(),
            old(mem)@.len() as int,
        ),
{
    let n = src.len();
    let total = mem.len();
    let ghost before = mem@;
    let mut i: usize = 0;
    while i < n
        invariant
            n == src@.len(),
            total == before.len(),
            start + n <= total,
            i <= n,
            mem@ == before.subrange(0, start as int) + src@.take(i as int) + before.subrange(
                start + i,
                before.len() as int,
            ),
        decreases n - i,
    {
        mem.set(start + i, src[i]);
        i += 1;
    }
    proof {
        assert(src@.take(n as int) == src@);
    }
}

} // verus!
