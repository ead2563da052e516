//! How rows of a texture are averaged into its smaller versions, its mip levels.

use vstd::arithmetic::power2::{lemma2_to64, lemma_pow2_pos, lemma_pow2_unfold, pow2};
use vstd::prelude::*;

verus! {

/// A row of a mip level that is complete, and where it stands in a buffer that holds one
/// row of each level, one behind the other.
#[derive(Clone, Copy, Debug, PartialEq, Eq, Structural)]
pub struct MipWrite {
    pub mip_level: u32,
    pub row: u32,
    pub offset: usize,
    pub len: u32,
    /// The length of the row of the next level, into which this one is averaged.
    pub next_len: u32,
}

/// The length of a row of a level: half that of the level before, but at least one.
pub open spec fn level_len(len: nat, level: nat) -> nat
    decreases level,
{
    if level == 0 {
        len
    } else {
        let before = level_len(len, (level - 1) as nat) / 2;
        if before == 0 {
            1
        } else {
            before
        }
    }
}

/// Where the row of a level stands: behind those of the levels before.
pub open spec fn level_offset(len: nat, level: nat) -> nat
    decreases level,
{
    if level == 0 {
        0
    } else {
        level_offset(len, (level - 1) as nat) + level_len(len, (level - 1) as nat)
    }
}

/// How many levels have a complete row once a row of the first level is: from level to
/// level, two rows make up one.
pub open spec fn levels_complete(row: nat, levels: nat) -> nat
    decreases levels,
{
    if levels == 0 {
        0
    } else if row % 2 == 0 {
        1
    } else {
        1 + levels_complete(row / 2, (levels - 1) as nat)
    }
}

/// The row of a level that a row of the first level belongs to.
pub open spec fn level_row(row: nat, level: nat) -> nat
    decreases level,
{
    if level == 0 {
        row
    } else {
        level_row(row, (level - 1) as nat) / 2
    }
}

/// The row of a level that is complete once a row of the first level is.
pub open spec fn mip_write(row: nat, len: nat, level: nat) -> MipWrite {
    MipWrite {
        mip_level: level as u32,
        row: level_row(row, level) as u32,
        offset: level_offset(len, level) as usize,
        len: level_len(len, level) as u32,
        next_len: level_len(len, level + 1) as u32,
    }
}

/// Rows of all levels fit into a buffer of twice the length of a row and one item for
/// each level.
pub proof fn levels_fit(len: nat, level: nat)
    requires
        len >= 1,
    ensures
        1 <= level_len(len, level) <= len,
        level_len(len, level + 1) <= level_len(len, level),
        level_offset(len, level) + 2 * level_len(len, level) <= 2 * len + level,
        level_offset(len, level) + level_len(len, level) + level_len(len, level + 1) <= 2 * len
            + level,
    decreases level,
{
    if level > 0 {
        levels_fit(len, (level - 1) as nat);
    }
}

/// A row of a level belongs to no later row of the next one.
proof fn level_rows_shrink(row: nat, level: nat)
    ensures
        level_row(row, level) <= row,
    decreases level,
{
    if level > 0 {
        level_rows_shrink(row, (level - 1) as nat);
    }
}

/// A row of a level is complete with every row of the first level that is the last of
/// as many as it is made of.
pub proof fn complete_after_a_power_of_two(row: nat, levels: nat, level: nat)
    ensures
        level < levels_complete(row, levels) <==> level < levels && (row + 1) % pow2(level) == 0,
    decreases levels,
{
    lemma_pow2_pos(level);
    lemma2_to64();
    if levels > 0 {
        if level == 0 {
            assert((row + 1) % 1 == 0);
        } else {
            let below = (level - 1) as nat;
            lemma_pow2_pos(below);
            lemma_pow2_unfold(level);
            let p = pow2(below) as int;
            let n = row as int + 1;
            assert(pow2(level) == 2 * p);
            if row % 2 == 0 {
                if n % (2 * p) == 0 {
                    let q = n / (2 * p);
                    vstd::arithmetic::div_mod::lemma_fundamental_div_mod(n, 2 * p);
                    assert(n == 2 * (p * q)) by (nonlinear_arith)
                        requires
                            n == (2 * p) * q + 0,
                    ;
                    assert(false);
                }
            } else {
                complete_after_a_power_of_two(row / 2, (levels - 1) as nat, below);
                let m = n / 2;
                assert(n == 2 * m);
                assert(m == (row / 2) as int + 1);
                vstd::arithmetic::div_mod::lemma_fundamental_div_mod(m, p);
                vstd::arithmetic::div_mod::lemma_fundamental_div_mod(n, 2 * p);
                let q = m / p;
                let r = m % p;
                assert(n == (2 * p) * q + 2 * r) by (nonlinear_arith)
                    requires
                        n == 2 * m,
                        m == p * q + r,
                ;
                vstd::arithmetic::div_mod::lemma_fundamental_div_mod_converse(n, 2 * p, q, 2 * r);
            }
        }
    }
}

/// The rows that are complete, of the first `levels` levels, once the row with the given
/// number is, of rows that are `len` long at the first level.
pub fn mip_writes(row: u32, len: u32, levels: u32) -> (writes: Vec<MipWrite>)
    requires
        len >= 1,
        2 * len + levels <= u32::MAX,
    ensures
        writes@.len() == levels_complete(row as nat, levels as nat),
        writes@.len() <= levels,
        forall|k: int|
            0 <= k < writes@.len() ==> #[trigger] writes@[k] == mip_write(
                row as nat,
                len as nat,
                k as nat,
            ),
        forall|k: int|
            0 <= k < writes@.len() ==> (#[trigger] writes@[k]).offset + writes@[k].len
                + writes@[k].next_len <= 2 * len + levels,
{
    let mut writes: Vec<MipWrite> = Vec::new();
    let mut row_index: u32 = row;
    let mut row_len: u32 = len;
    let mut offset: usize = 0;
    let mut level: u32 = 0;
    while level < levels
        invariant
            len >= 1,
            2 * len + levels <= u32::MAX,
            level <= levels,
            writes@.len() == level,
            row_index == level_row(row as nat, level as nat),
            row_len == level_len(len as nat, level as nat),
            offset == level_offset(len as nat, level as nat),
            levels_complete(row as nat, levels as nat) == level + levels_complete(
                row_index as nat,
                (levels - level) as nat,
            ),
            forall|k: int|
                0 <= k < writes@.len() ==> #[trigger] writes@[k] == mip_write(
                    row as nat,
                    len as nat,
                    k as nat,
                ),
            forall|k: int|
                0 <= k < writes@.len() ==> (#[trigger] writes@[k]).offset + writes@[k].len
                    + writes@[k].next_len <= 2 * len + levels,
        decreases levels - level,
    {
        proof {
            levels_fit(len as nat, level as nat);
            assert(level_len(len as nat, (level + 1) as nat) == if row_len / 2 == 0 {
                1
            } else {
                (row_len / 2) as nat
            });
            assert(level_row(row as nat, (level + 1) as nat) == row_index / 2);
            assert(level_offset(len as nat, (level + 1) as nat) == offset + row_len);
        }
        let half: u32 = row_len / 2;
        let next_len: u32 = if half == 0 {
            1
        } else {
            half
        };
        writes.push(MipWrite { mip_level: level, row: row_index, offset, len: row_len, next_len });
        if row_index % 2 == 0 {
            return writes;
        }
        row_index = row_index / 2;
        offset = offset + row_len as usize;
        row_len = next_len;
        level = level + 1;
    }
    writes
}

/// Whether `log` is the logarithm of a number to base two, rounded down.
pub open spec fn is_log2(number: nat, log: nat) -> bool {
    pow2(log) <= number < pow2(log + 1)
}

/// How many mip levels a texture of a given height has: the logarithm of the height to
/// base two, rounded down, but at least one.
pub open spec fn level_count(height: nat) -> nat
    decreases height,
{
    if height < 4 {
        1
    } else {
        1 + level_count(height / 2)
    }
}

/// The number of mip levels is a logarithm.
pub proof fn level_count_is_log2(height: nat)
    ensures
        height >= 2 ==> is_log2(height, level_count(height)),
        height < 2 ==> level_count(height) == 1,
        level_count(height) >= 1,
    decreases height,
{
    lemma2_to64();
    if height >= 4 {
        let below = level_count(height / 2);
        level_count_is_log2(height / 2);
        lemma_pow2_unfold(below + 1);
        lemma_pow2_unfold(below + 2);
        assert(level_count(height) + 1 == below + 2);
    }
}

/// How many mip levels a texture of a given height has.
pub fn mip_level_count(height: u32) -> (levels: u32)
    requires
        height > 0,
    ensures
        levels == level_count(height as nat),
        1 <= levels <= 32,
{
    let mut levels: u32 = 1;
    let mut rest: u32 = height;
    proof {
        level_count_is_log2(height as nat);
        lemma2_to64();
        if level_count(height as nat) > 32 {
            vstd::arithmetic::power2::lemma_pow2_strictly_increases(
                32,
                level_count(height as nat),
            );
        }
    }
    while rest >= 4
        invariant
            1 <= levels,
            level_count(height as nat) <= 32,
            level_count(height as nat) == levels - 1 + level_count(rest as nat),
        decreases rest,
    {
        proof {
            level_count_is_log2((rest / 2) as nat);
        }
        rest = rest / 2;
        levels = levels + 1;
    }
    levels
}

/// The size of a mip level.
#[derive(Clone, Copy, Debug, PartialEq, Eq, Structural)]
pub struct MipSize {
    pub width: u32,
    pub height: u32,
}

/// The sizes of the mip levels of a texture with only the rows that are filled.
pub fn shrunk_sizes(width: u32, rows: u32) -> (sizes: Vec<MipSize>)
    requires
        width >= 1,
        rows >= 1,
    ensures
        sizes@.len() == level_count(rows as nat),
        forall|k: int|
            0 <= k < sizes@.len() ==> #[trigger] sizes@[k] == (MipSize {
                width: level_len(width as nat, k as nat) as u32,
                height: level_row(rows as nat, k as nat) as u32,
            }),
{
    let levels: u32 = mip_level_count(rows);
    let mut sizes: Vec<MipSize> = Vec::new();
    let mut size: MipSize = MipSize { width, height: rows };
    let mut level: u32 = 0;
    while level < levels
        invariant
            width >= 1,
            level <= levels,
            levels <= 32,
            sizes@.len() == level,
            size.width == level_len(width as nat, level as nat),
            size.height == level_row(rows as nat, level as nat),
            forall|k: int|
                0 <= k < sizes@.len() ==> #[trigger] sizes@[k] == (MipSize {
                    width: level_len(width as nat, k as nat) as u32,
                    height: level_row(rows as nat, k as nat) as u32,
                }),
        decreases levels - level,
    {
        sizes.push(size);
        proof {
            levels_fit(width as nat, level as nat);
            level_rows_shrink(rows as nat, level as nat);
            assert(level_len(width as nat, (level + 1) as nat) == if size.width / 2 == 0 {
                1
            } else {
                (size.width / 2) as nat
            });
            assert(level_row(rows as nat, (level + 1) as nat) == size.height / 2);
        }
        let half: u32 = size.width / 2;
        size = MipSize {
            width: if half == 0 {
                1
            } else {
                half
            },
            height: size.height / 2,
        };
        level = level + 1;
    }
    sizes
}

/// No mip level of a texture with only the rows that are filled is empty.
pub proof fn shrunk_levels_are_not_empty(rows: nat, level: nat)
    requires
        rows >= 1,
        level < level_count(rows),
    ensures
        level_row(rows, level) >= 1,
{
    let levels = level_count(rows);
    lemma2_to64();
    level_count_is_log2(rows);
    if rows >= 2 {
        vstd::arithmetic::power2::lemma_pow2_strictly_increases(level, levels);
        level_row_bound(rows, level);
        lemma_pow2_pos(level);
        if level_row(rows, level) == 0 {
            assert((0 + 1) * pow2(level) == pow2(level)) by (nonlinear_arith);
            assert(false);
        }
    }
}

/// How many rows of a level whole rows make up.
proof fn level_row_bound(rows: nat, level: nat)
    ensures
        level_row(rows, level) * pow2(level) <= rows < (level_row(rows, level) + 1) * pow2(level),
    decreases level,
{
    lemma2_to64();
    if level > 0 {
        let below = (level - 1) as nat;
        level_row_bound(rows, below);
        lemma_pow2_unfold(level);
        lemma_pow2_pos(below);
        let p = pow2(below) as int;
        let r = level_row(rows, below) as int;
        let h = r / 2;
        assert(h * (2 * p) <= r * p) by (nonlinear_arith)
            requires
                2 * h <= r,
                p > 0,
        ;
        assert((r + 1) * p <= (h + 1) * (2 * p)) by (nonlinear_arith)
            requires
                r + 1 <= 2 * (h + 1),
                p > 0,
        ;
    }
}

/// The smallest power of two that is not below a number.
pub fn next_power_of_two(number: usize) -> (power: usize)
    requires
        exists|k: nat| number <= #[trigger] pow2(k) <= usize::MAX,
    ensures
        exists|k: nat| power == #[trigger] pow2(k),
        number <= power,
        forall|k: nat| number <= #[trigger] pow2(k) ==> power <= pow2(k),
{
    proof {
        lemma2_to64();
    }
    let mut power: usize = 1;
    let ghost mut exponent: nat = 0;
    let ghost top = choose|k: nat| number <= #[trigger] pow2(k) <= usize::MAX;
    while power < number
        invariant
            number <= pow2(top) <= usize::MAX,
            power == pow2(exponent),
            exponent <= top,
            power >= 1,
            forall|k: nat| k < exponent ==> #[trigger] pow2(k) < number,
        decreases top - exponent,
    {
        proof {
            lemma_pow2_unfold(exponent + 1);
            if exponent >= top {
                assert(exponent == top);
                assert(false);
            }
            if exponent + 1 < top {
                vstd::arithmetic::power2::lemma_pow2_strictly_increases(exponent + 1, top);
            }
            assert(pow2(exponent + 1) <= usize::MAX);
            exponent = exponent + 1;
        }
        power = power * 2;
    }
    proof {
        assert forall|k: nat| number <= #[trigger] pow2(k) implies power <= pow2(k) by {
            if k > exponent {
                vstd::arithmetic::power2::lemma_pow2_strictly_increases(exponent, k);
            }
        }
    }
    power
}

/// Each level is half as wide as the one below it, and at least one wide. The rows of the levels
/// stand one behind the other.
pub proof fn levels_halve(len: nat, row: nat, level: nat)
    ensures
        level_len(len, 0) == len,
        level_len(len, level) >= 2 ==> level_len(len, level + 1) == level_len(len, level) / 2,
        level_len(len, level) < 2 ==> level_len(len, level + 1) == 1,
        level_offset(len, 0) == 0,
        level_offset(len, level + 1) == level_offset(len, level) + level_len(len, level),
        level_row(row, 0) == row,
        level_row(row, level + 1) == level_row(row, level) / 2,
{
}

/// What is written of a row to a level stands at the place of the level in the buffer, has its
/// length, and goes to the row that stands above it there. The next level follows directly.
pub proof fn writes_follow_each_other(row: nat, len: nat, level: nat)
    requires
        1 <= len,
        2 * len + level + 1 <= u32::MAX,
        row <= u32::MAX,
    ensures
        mip_write(row, len, level).mip_level == level,
        level_row(row, level) * pow2(level) <= row < (level_row(row, level) + 1) * pow2(level),
        mip_write(row, len, level).row == level_row(row, level),
        mip_write(row, len, level).len == level_len(len, level),
        mip_write(row, len, level).offset == level_offset(len, level),
        mip_write(row, len, level + 1).offset == mip_write(row, len, level).offset + mip_write(
            row,
            len,
            level,
        ).len,
        mip_write(row, len, level).next_len == mip_write(row, len, level + 1).len,
{
    levels_fit(len, level);
    levels_fit(len, level + 1);
    level_row_bound(row, level);
    level_rows_shrink(row, level);
}

} // verus!
