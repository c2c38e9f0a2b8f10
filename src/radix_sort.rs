//! Least-significant-digit radix sort of (depth key, splat index) pairs:
//! four passes of eight bits, each pass an upsweep (digit histogram), a spine
//! (exclusive prefix sum over the digits) and a downsweep (stable scatter),
//! ping-ponging between the caller's buffers and the scratch buffers.
use vstd::prelude::*;
use crate::cull::DrawIndirectArgs;
use vstd::set_lib::{lemma_int_range, lemma_map_size, lemma_subset_equality, set_int_range};

verus! {

/// Number of buckets of one pass.
pub const RADIX: usize = 256;

/// Number of keys that one workgroup of the sorter handles.
pub const BLOCK_SIZE: usize = 1024;

/// Number of eight-bit passes over a 32-bit key.
pub const NUM_PASSES: usize = 4;

/// The eight-bit digit of `k` that the pass with bit shift `shift` sorts on.
pub open spec fn digit(k: u32, shift: u32) -> u32 {
    (k >> shift) & 0xff
}

/// The low `bits` bits of `k` (`bits` is 0, 8, 16, 24 or 32).
pub open spec fn low_bits(k: u32, bits: u32) -> u32 {
    if bits == 0 {
        0
    } else if bits == 8 {
        k & 0xff
    } else if bits == 16 {
        k & 0xffff
    } else if bits == 24 {
        k & 0xff_ffff
    } else {
        k
    }
}

/// Order of a stable sort: by key, and by original position among equal keys.
pub open spec fn key_before(ka: u32, ia: int, kb: u32, ib: int) -> bool {
    ka < kb || (ka == kb && ia < ib)
}

/// `pos` sends each input position to its output slot: the outputs hold the
/// input pairs, and slots are ordered as the inputs are by key, then position.
pub open spec fn stable_placement(
    k0: Seq<u32>,
    v0: Seq<u32>,
    k1: Seq<u32>,
    v1: Seq<u32>,
    pos: Seq<int>,
) -> bool {
    let n = k0.len();
    &&& v0.len() == n
    &&& k1.len() == n
    &&& v1.len() == n
    &&& pos.len() == n
    &&& forall|i: int|
        0 <= i < n ==> {
            &&& 0 <= #[trigger] pos[i] < n
            &&& k1[pos[i]] == k0[i]
            &&& v1[pos[i]] == v0[i]
        }
    &&& forall|i: int, j: int|
        0 <= i < n && 0 <= j < n && i != j ==> (#[trigger] pos[i] < #[trigger] pos[j]
            <==> key_before(k0[i], i, k0[j], j))
}

/// `(k1, v1)` is the stable sort by key of the pairs `(k0, v0)`.
pub open spec fn is_stable_sort_of(k0: Seq<u32>, v0: Seq<u32>, k1: Seq<u32>, v1: Seq<u32>) -> bool {
    exists|pos: Seq<int>| stable_placement(k0, v0, k1, v1, pos)
}

/// Keys in non-decreasing order.
pub open spec fn is_sorted(k: Seq<u32>) -> bool {
    forall|a: int, b: int| 0 <= a < b < k.len() ==> k[a] <= k[b]
}

/// How many of the first `i` keys of `s` have digit `d` in the pass with bit shift `shift`.
pub open spec fn digit_count(s: Seq<u32>, shift: u32, d: int, i: int) -> nat
    decreases i,
{
    if i <= 0 {
        0
    } else {
        digit_count(s, shift, d, i - 1) + if digit(s[i - 1], shift) == d {
            1nat
        } else {
            0nat
        }
    }
}

/// How many of the first `n` keys of `s` have a digit below `d`.
pub open spec fn digits_below(s: Seq<u32>, shift: u32, d: int, n: int) -> nat
    decreases d,
{
    if d <= 0 {
        0
    } else {
        digits_below(s, shift, d - 1, n) + digit_count(s, shift, d - 1, n)
    }
}

/// The slot to which one pass moves the key at position `x` of the first `n` keys.
pub open spec fn pass_slot(s: Seq<u32>, shift: u32, n: int, x: int) -> int {
    let d = digit(s[x], shift) as int;
    (digits_below(s, shift, d, n) + digit_count(s, shift, d, x)) as int
}

pub open spec fn valid_shift(shift: u32) -> bool {
    shift == 0 || shift == 8 || shift == 16 || shift == 24
}

proof fn lemma_digit_range(k: u32, shift: u32)
    by (bit_vector)
    ensures
        digit(k, shift) < 256,
{
}

proof fn lemma_low_step_0(a: u32, b: u32)
    by (bit_vector)
    ensures
        (a & 0xff) < (b & 0xff) <==> ((a >> 0u32) & 0xff) < ((b >> 0u32) & 0xff),
        (a & 0xff) == (b & 0xff) <==> ((a >> 0u32) & 0xff) == ((b >> 0u32) & 0xff),
{
}

proof fn lemma_low_step_8(a: u32, b: u32)
    by (bit_vector)
    ensures
        (a & 0xffff) < (b & 0xffff) <==> ((a >> 8u32) & 0xff) < ((b >> 8u32) & 0xff) || (((a
            >> 8u32) & 0xff) == ((b >> 8u32) & 0xff) && (a & 0xff) < (b & 0xff)),
        (a & 0xffff) == (b & 0xffff) <==> ((a >> 8u32) & 0xff) == ((b >> 8u32) & 0xff) && (a
            & 0xff) == (b & 0xff),
{
}

proof fn lemma_low_step_16(a: u32, b: u32)
    by (bit_vector)
    ensures
        (a & 0xff_ffff) < (b & 0xff_ffff) <==> ((a >> 16u32) & 0xff) < ((b >> 16u32) & 0xff)
            || (((a >> 16u32) & 0xff) == ((b >> 16u32) & 0xff) && (a & 0xffff) < (b & 0xffff)),
        (a & 0xff_ffff) == (b & 0xff_ffff) <==> ((a >> 16u32) & 0xff) == ((b >> 16u32) & 0xff)
            && (a & 0xffff) == (b & 0xffff),
{
}

proof fn lemma_low_step_24(a: u32, b: u32)
    by (bit_vector)
    ensures
        a < b <==> ((a >> 24u32) & 0xff) < ((b >> 24u32) & 0xff) || (((a >> 24u32) & 0xff) == ((b
            >> 24u32) & 0xff) && (a & 0xff_ffff) < (b & 0xff_ffff)),
        a == b <==> ((a >> 24u32) & 0xff) == ((b >> 24u32) & 0xff) && (a & 0xff_ffff) == (b
            & 0xff_ffff),
{
}

/// One more digit refines the order on the low bits lexicographically.
proof fn lemma_low_step(a: u32, b: u32, shift: u32, i: int, j: int)
    requires
        valid_shift(shift),
    ensures
        key_before(low_bits(a, (shift + 8) as u32), i, low_bits(b, (shift + 8) as u32), j) <==> (
        digit(a, shift) < digit(b, shift) || (digit(a, shift) == digit(b, shift) && key_before(
            low_bits(a, shift),
            i,
            low_bits(b, shift),
            j,
        ))),
{
    if shift == 0 {
        lemma_low_step_0(a, b);
    } else if shift == 8 {
        lemma_low_step_8(a, b);
    } else if shift == 16 {
        lemma_low_step_16(a, b);
    } else {
        lemma_low_step_24(a, b);
    }
}

proof fn lemma_count_bounds(s: Seq<u32>, shift: u32, d: int, i: int, j: int)
    requires
        0 <= i <= j,
    ensures
        digit_count(s, shift, d, i) <= digit_count(s, shift, d, j),
        digit_count(s, shift, d, j) <= j,
        digit_count(s, shift, d, j) - digit_count(s, shift, d, i) <= j - i,
    decreases j,
{
    if j > 0 {
        if i < j {
            lemma_count_bounds(s, shift, d, i, j - 1);
        } else {
            lemma_count_bounds(s, shift, d, i - 1, j - 1);
        }
    }
}

proof fn lemma_count_strict(s: Seq<u32>, shift: u32, x: int, j: int)
    requires
        0 <= x < j,
    ensures
        digit_count(s, shift, digit(s[x], shift) as int, x) < digit_count(
            s,
            shift,
            digit(s[x], shift) as int,
            j,
        ),
{
    let d = digit(s[x], shift) as int;
    assert(digit_count(s, shift, d, x + 1) == digit_count(s, shift, d, x) + 1);
    lemma_count_bounds(s, shift, d, x + 1, j);
}

proof fn lemma_below_mono(s: Seq<u32>, shift: u32, d1: int, d2: int, n: int)
    requires
        0 <= d1 <= d2,
    ensures
        digits_below(s, shift, d1, n) <= digits_below(s, shift, d2, n),
    decreases d2,
{
    if d1 < d2 {
        lemma_below_mono(s, shift, d1, d2 - 1, n);
    }
}

proof fn lemma_below_step(s: Seq<u32>, shift: u32, d: int, i: int)
    requires
        0 <= d,
        0 <= i,
    ensures
        digits_below(s, shift, d, i + 1) == digits_below(s, shift, d, i) + if digit(s[i], shift)
            < d {
            1nat
        } else {
            0nat
        },
    decreases d,
{
    if d > 0 {
        lemma_below_step(s, shift, d - 1, i);
    }
}

proof fn lemma_below_zero(s: Seq<u32>, shift: u32, d: int)
    ensures
        digits_below(s, shift, d, 0) == 0,
    decreases d,
{
    if d > 0 {
        lemma_below_zero(s, shift, d - 1);
    }
}

/// Every key has a digit below 256, so those count all keys.
proof fn lemma_below_all(s: Seq<u32>, shift: u32, n: int)
    requires
        0 <= n,
    ensures
        digits_below(s, shift, 256, n) == n,
    decreases n,
{
    if n == 0 {
        lemma_below_zero(s, shift, 256);
    } else {
        lemma_below_all(s, shift, n - 1);
        lemma_below_step(s, shift, 256, n - 1);
        lemma_digit_range(s[n - 1], shift);
    }
}

/// One pass places the first `n` keys in distinct slots below `n`, ordered by
/// digit and then by position.
proof fn lemma_pass_slots(s: Seq<u32>, shift: u32, n: int)
    requires
        0 <= n <= s.len(),
    ensures
        forall|x: int| 0 <= x < n ==> 0 <= #[trigger] pass_slot(s, shift, n, x) < n,
        forall|x: int, y: int|
            0 <= x < n && 0 <= y < n && x != y ==> (#[trigger] pass_slot(s, shift, n, x)
                < #[trigger] pass_slot(s, shift, n, y) <==> key_before(
                digit(s[x], shift),
                x,
                digit(s[y], shift),
                y,
            )),
{
    assert forall|x: int| 0 <= x < n implies 0 <= #[trigger] pass_slot(s, shift, n, x) < n by {
        lemma_slot_range(s, shift, n, x);
    }
    assert forall|x: int, y: int| 0 <= x < n && 0 <= y < n && x != y implies (#[trigger] pass_slot(
        s,
        shift,
        n,
        x,
    ) < #[trigger] pass_slot(s, shift, n, y) <==> key_before(
        digit(s[x], shift),
        x,
        digit(s[y], shift),
        y,
    )) by {
        if key_before(digit(s[x], shift), x, digit(s[y], shift), y) {
            lemma_slot_order(s, shift, n, x, y);
        } else {
            lemma_slot_order(s, shift, n, y, x);
        }
    }
}

proof fn lemma_slot_range(s: Seq<u32>, shift: u32, n: int, x: int)
    requires
        0 <= x < n <= s.len(),
    ensures
        0 <= pass_slot(s, shift, n, x),
        pass_slot(s, shift, n, x) < digits_below(s, shift, digit(s[x], shift) + 1, n),
        pass_slot(s, shift, n, x) < n,
{
    let d = digit(s[x], shift) as int;
    lemma_digit_range(s[x], shift);
    lemma_count_strict(s, shift, x, n);
    lemma_below_mono(s, shift, d + 1, 256, n);
    lemma_below_all(s, shift, n);
}

/// If `x` comes before `y` by digit, then position, its slot is the lower.
proof fn lemma_slot_order(s: Seq<u32>, shift: u32, n: int, x: int, y: int)
    requires
        0 <= x < n <= s.len(),
        0 <= y < n,
        x != y,
        key_before(digit(s[x], shift), x, digit(s[y], shift), y),
    ensures
        pass_slot(s, shift, n, x) < pass_slot(s, shift, n, y),
{
    let dx = digit(s[x], shift) as int;
    let dy = digit(s[y], shift) as int;
    if dx < dy {
        lemma_slot_range(s, shift, n, x);
        lemma_below_mono(s, shift, dx + 1, dy, n);
    } else {
        lemma_count_strict(s, shift, x, y);
    }
}

/// Start of partition `q` among the first `n` keys (or `n` past the end).
pub open spec fn part_start(q: int, n: int) -> int {
    if q * 1024 < n {
        q * 1024
    } else {
        n
    }
}

/// Bin `e` of partition `q` in a histogram of `RADIX` bins per partition.
pub open spec fn bin(h: Seq<u32>, q: int, e: int) -> u32 {
    h[q * 256 + e]
}

proof fn lemma_bin_frame(before: Seq<u32>, q: int, d: int, v: u32)
    requires
        0 <= d < 256,
        0 <= q * 256 + d < before.len(),
    ensures
        bin(before.update(q * 256 + d, v), q, d) == v,
        forall|r: int, e: int|
            0 <= e < 256 && (r != q || e != d) && 0 <= r * 256 + e < before.len() ==> #[trigger] bin(
                before.update(q * 256 + d, v),
                r,
                e,
            ) == bin(before, r, e),
{
}

/// Upsweep: each partition of `BLOCK_SIZE` keys counts its digits into its row
/// of `part`, and the rows add up to the histogram `global[base .. base + RADIX]`.
fn upsweep(
    keys: &Vec<u32>,
    n: usize,
    part: &mut Vec<u32>,
    num_partitions: usize,
    global: &mut Vec<u32>,
    base: usize,
    shift: u32,
)
    requires
        n <= keys.len(),
        n <= u32::MAX,
        valid_shift(shift),
        base + RADIX <= old(global).len(),
        old(part).len() == num_partitions * 256,
        n <= num_partitions * 1024,
    ensures
        final(part).len() == old(part).len(),
        final(global).len() == old(global).len(),
        forall|e: int|
            0 <= e < RADIX ==> #[trigger] final(global)[base + e] == digit_count(keys@, shift, e, n as int),
        forall|q: int, e: int|
            0 <= q && q * 1024 < n && 0 <= e < RADIX ==> #[trigger] bin(final(part)@, q, e)
                == digit_count(keys@, shift, e, part_start(q + 1, n as int)) - digit_count(
                keys@,
                shift,
                e,
                q * 1024,
            ),
{
    let mut d: usize = 0;
    while d < RADIX
        invariant
            d <= RADIX,
            base + RADIX <= global.len(),
            global.len() == old(global).len(),
            forall|e: int| 0 <= e < d ==> #[trigger] global[base + e] == 0,
        decreases RADIX - d,
    {
        global.set(base + d, 0);
        d = d + 1;
    }
    let mut q: usize = 0;
    let mut start: usize = 0;
    while start < n
        invariant
            n <= keys.len(),
            n <= u32::MAX,
            valid_shift(shift),
            base + RADIX <= global.len(),
            global.len() == old(global).len(),
            part.len() == num_partitions * 256,
            n <= num_partitions * 1024,
            start == part_start(q as int, n as int),
            forall|e: int|
                0 <= e < RADIX ==> #[trigger] global[base + e] == digit_count(keys@, shift, e, start as int),
            forall|r: int, e: int|
                0 <= r < q && 0 <= e < RADIX ==> #[trigger] bin(part@, r, e) == digit_count(
                    keys@,
                    shift,
                    e,
                    part_start(r + 1, n as int),
                ) - digit_count(keys@, shift, e, r * 1024),
        decreases n - start,
    {
        let row = q * 256;
        let end = if n - start > BLOCK_SIZE {
            start + BLOCK_SIZE
        } else {
            n
        };
        assert(end == part_start(q + 1, n as int));
        let mut z: usize = 0;
        while z < RADIX
            invariant
                z <= RADIX,
                row == q * 256,
                q < num_partitions,
                part.len() == num_partitions * 256,
                forall|e: int| 0 <= e < z ==> #[trigger] bin(part@, q as int, e) == 0,
                forall|r: int, e: int|
                    0 <= r < q && 0 <= e < RADIX ==> #[trigger] bin(part@, r, e) == digit_count(
                        keys@,
                        shift,
                        e,
                        part_start(r + 1, n as int),
                    ) - digit_count(keys@, shift, e, r * 1024),
            decreases RADIX - z,
        {
            let ghost before = part@;
            part.set(row + z, 0);
            proof {
                lemma_bin_frame(before, q as int, z as int, 0);
            }
            z = z + 1;
        }
        let mut i: usize = start;
        while i < end
            invariant
                start <= i <= end,
                end <= n,
                end - start <= BLOCK_SIZE,
                n <= keys.len(),
                valid_shift(shift),
                row == q * 256,
                q < num_partitions,
                part.len() == num_partitions * 256,
                forall|e: int|
                    0 <= e < RADIX ==> #[trigger] bin(part@, q as int, e) == digit_count(keys@, shift, e, i as int)
                        - digit_count(keys@, shift, e, start as int),
                forall|r: int, e: int|
                    0 <= r < q && 0 <= e < RADIX ==> #[trigger] bin(part@, r, e) == digit_count(
                        keys@,
                        shift,
                        e,
                        part_start(r + 1, n as int),
                    ) - digit_count(keys@, shift, e, r * 1024),
            decreases end - i,
        {
            proof {
                lemma_digit_range(keys@[i as int], shift);
                lemma_count_bounds(keys@, shift, digit(keys@[i as int], shift) as int, start as int, i as int);
                lemma_count_bounds(keys@, shift, digit(keys@[i as int], shift) as int, i as int, i as int);
            }
            let dg = ((keys[i] >> shift) & 0xff) as usize;
            let c = part[row + dg];
            assert(c == bin(part@, q as int, dg as int));
            let ghost before = part@;
            part.set(row + dg, c + 1);
            proof {
                lemma_bin_frame(before, q as int, dg as int, (c + 1) as u32);
            }
            i = i + 1;
        }
        let mut e: usize = 0;
        while e < RADIX
            invariant
                e <= RADIX,
                start <= end,
                end <= n,
                n <= u32::MAX,
                row == q * 256,
                q < num_partitions,
                part.len() == num_partitions * 256,
                base + RADIX <= global.len(),
                global.len() == old(global).len(),
                forall|f: int|
                    0 <= f < RADIX ==> #[trigger] bin(part@, q as int, f) == digit_count(keys@, shift, f, end as int)
                        - digit_count(keys@, shift, f, start as int),
                forall|f: int|
                    0 <= f < e ==> #[trigger] global[base + f] == digit_count(keys@, shift, f, end as int),
                forall|f: int|
                    e <= f < RADIX ==> #[trigger] global[base + f] == digit_count(keys@, shift, f, start as int),
            decreases RADIX - e,
        {
            proof {
                lemma_count_bounds(keys@, shift, e as int, end as int, end as int);
                lemma_count_bounds(keys@, shift, e as int, start as int, end as int);
            }
            let g = global[base + e];
            let c = part[row + e];
            assert(bin(part@, q as int, e as int) == c);
            global.set(base + e, g + c);
            e = e + 1;
        }
        q = q + 1;
        start = end;
    }
    proof {
        assert(start == n);
    }
}

/// Spine: for each digit, an exclusive prefix sum along the partitions, then
/// an exclusive prefix sum of the histogram over the digits; afterwards the bin
/// of a partition and digit holds the first output slot of that digit's keys
/// in that partition.
fn spine(
    part: &mut Vec<u32>,
    num_partitions: usize,
    global: &mut Vec<u32>,
    base: usize,
    Ghost(s): Ghost<Seq<u32>>,
    shift: u32,
    n: usize,
)
    requires
        n <= s.len(),
        n <= u32::MAX,
        base + RADIX <= old(global).len(),
        old(part).len() == num_partitions * 256,
        n <= num_partitions * 1024,
        forall|e: int|
            0 <= e < RADIX ==> #[trigger] old(global)[base + e] == digit_count(s, shift, e, n as int),
        forall|q: int, e: int|
            0 <= q && q * 1024 < n && 0 <= e < RADIX ==> #[trigger] bin(old(part)@, q, e)
                == digit_count(s, shift, e, part_start(q + 1, n as int)) - digit_count(
                s,
                shift,
                e,
                q * 1024,
            ),
    ensures
        final(part).len() == old(part).len(),
        final(global).len() == old(global).len(),
        forall|e: int|
            0 <= e < RADIX ==> #[trigger] final(global)[base + e] == digits_below(s, shift, e, n as int),
        forall|q: int, e: int|
            0 <= q && q * 1024 < n && 0 <= e < RADIX ==> #[trigger] bin(final(part)@, q, e)
                == digits_below(s, shift, e, n as int) + digit_count(s, shift, e, q * 1024),
{
    let mut sum: u32 = 0;
    let mut d: usize = 0;
    while d < RADIX
        invariant
            d <= RADIX,
            n <= s.len(),
            n <= u32::MAX,
            base + RADIX <= global.len(),
            global.len() == old(global).len(),
            part.len() == num_partitions * 256,
            n <= num_partitions * 1024,
            sum == digits_below(s, shift, d as int, n as int),
            forall|e: int| 0 <= e < d ==> #[trigger] global[base + e] == digits_below(s, shift, e, n as int),
            forall|e: int|
                d <= e < RADIX ==> #[trigger] global[base + e] == digit_count(s, shift, e, n as int),
            forall|q: int, e: int|
                0 <= q && q * 1024 < n && 0 <= e < d ==> #[trigger] bin(part@, q, e)
                    == digits_below(s, shift, e, n as int) + digit_count(s, shift, e, q * 1024),
            forall|q: int, e: int|
                0 <= q && q * 1024 < n && d <= e < RADIX ==> #[trigger] bin(part@, q, e)
                    == digit_count(s, shift, e, part_start(q + 1, n as int)) - digit_count(
                    s,
                    shift,
                    e,
                    q * 1024,
                ),
        decreases RADIX - d,
    {
        proof {
            lemma_below_mono(s, shift, d as int + 1, 256, n as int);
            lemma_below_all(s, shift, n as int);
        }
        let g = global[base + d];
        global.set(base + d, sum);
        let mut running: u32 = sum;
        let mut q: usize = 0;
        let mut start: usize = 0;
        while start < n
            invariant
                d < RADIX,
                n <= s.len(),
                n <= u32::MAX,
                part.len() == num_partitions * 256,
                n <= num_partitions * 1024,
                sum == digits_below(s, shift, d as int, n as int),
                sum + digit_count(s, shift, d as int, n as int) <= n,
                start == part_start(q as int, n as int),
                running == sum + digit_count(s, shift, d as int, start as int),
                    forall|r: int, e: int|
                    0 <= r && r * 1024 < n && 0 <= e < d ==> #[trigger] bin(part@, r, e)
                        == digits_below(s, shift, e, n as int) + digit_count(s, shift, e, r * 1024),
                forall|r: int|
                    0 <= r < q ==> #[trigger] bin(part@, r, d as int) == sum + digit_count(
                        s,
                        shift,
                        d as int,
                        r * 1024,
                    ),
                forall|r: int, e: int|
                    0 <= r && r * 1024 < n && d <= e < RADIX && (e != d || r >= q)
                        ==> #[trigger] bin(part@, r, e) == digit_count(
                        s,
                        shift,
                        e,
                        part_start(r + 1, n as int),
                    ) - digit_count(s, shift, e, r * 1024),
            decreases n - start,
        {
            let end = if n - start > BLOCK_SIZE {
                start + BLOCK_SIZE
            } else {
                n
            };
            assert(end == part_start(q + 1, n as int));
            proof {
                lemma_count_bounds(s, shift, d as int, start as int, end as int);
                lemma_count_bounds(s, shift, d as int, end as int, n as int);
            }
            let t = part[q * 256 + d];
            assert(t == bin(part@, q as int, d as int));
            let ghost before = part@;
            part.set(q * 256 + d, running);
            proof {
                lemma_bin_frame(before, q as int, d as int, running);
            }
            running = running + t;
            q = q + 1;
            start = end;
        }
        sum = sum + g;
        d = d + 1;
    }
}

/// Downsweep: each partition moves its pairs, in order, to the next free slot
/// of their digit, starting from the slots that the spine left in its row.
fn downsweep(
    src_k: &Vec<u32>,
    src_v: &Vec<u32>,
    dst_k: &mut Vec<u32>,
    dst_v: &mut Vec<u32>,
    part: &mut Vec<u32>,
    num_partitions: usize,
    shift: u32,
    n: usize,
)
    requires
        n <= src_k.len(),
        n <= src_v.len(),
        n <= old(dst_k).len(),
        n <= old(dst_v).len(),
        n <= u32::MAX,
        valid_shift(shift),
        old(part).len() == num_partitions * 256,
        n <= num_partitions * 1024,
        forall|q: int, e: int|
            0 <= q && q * 1024 < n && 0 <= e < RADIX ==> #[trigger] bin(old(part)@, q, e)
                == digits_below(src_k@, shift, e, n as int) + digit_count(src_k@, shift, e, q * 1024),
    ensures
        final(part).len() == old(part).len(),
        final(dst_k).len() == old(dst_k).len(),
        final(dst_v).len() == old(dst_v).len(),
        forall|x: int|
            0 <= x < n ==> {
                &&& final(dst_k)[#[trigger] pass_slot(src_k@, shift, n as int, x)] == src_k[x]
                &&& final(dst_v)[pass_slot(src_k@, shift, n as int, x)] == src_v[x]
            },
        forall|a: int| n <= a < old(dst_k).len() ==> #[trigger] final(dst_k)[a] == old(dst_k)[a],
        forall|a: int| n <= a < old(dst_v).len() ==> #[trigger] final(dst_v)[a] == old(dst_v)[a],
{
    proof {
        lemma_pass_slots(src_k@, shift, n as int);
    }
    let mut q: usize = 0;
    let mut start: usize = 0;
    while start < n
        invariant
            n <= src_k.len(),
            n <= src_v.len(),
            n <= dst_k.len(),
            n <= dst_v.len(),
            n <= u32::MAX,
            valid_shift(shift),
            part.len() == num_partitions * 256,
            n <= num_partitions * 1024,
            dst_k.len() == old(dst_k).len(),
            dst_v.len() == old(dst_v).len(),
            start == part_start(q as int, n as int),
            forall|x: int| 0 <= x < n ==> 0 <= #[trigger] pass_slot(src_k@, shift, n as int, x) < n,
            forall|x: int, y: int|
                0 <= x < n && 0 <= y < n && x != y ==> (#[trigger] pass_slot(src_k@, shift, n as int, x)
                    < #[trigger] pass_slot(src_k@, shift, n as int, y) <==> key_before(
                    digit(src_k@[x], shift),
                    x,
                    digit(src_k@[y], shift),
                    y,
                )),
            forall|r: int, e: int|
                r >= q && r * 1024 < n && 0 <= e < RADIX ==> #[trigger] bin(part@, r, e)
                    == digits_below(src_k@, shift, e, n as int) + digit_count(src_k@, shift, e, r * 1024),
            forall|x: int|
                0 <= x < start ==> {
                    &&& dst_k[#[trigger] pass_slot(src_k@, shift, n as int, x)] == src_k[x]
                    &&& dst_v[pass_slot(src_k@, shift, n as int, x)] == src_v[x]
                },
            forall|a: int| n <= a < old(dst_k).len() ==> #[trigger] dst_k[a] == old(dst_k)[a],
            forall|a: int| n <= a < old(dst_v).len() ==> #[trigger] dst_v[a] == old(dst_v)[a],
        decreases n - start,
    {
        let row = q * 256;
        let end = if n - start > BLOCK_SIZE {
            start + BLOCK_SIZE
        } else {
            n
        };
        assert(end == part_start(q + 1, n as int));
        let mut i: usize = start;
        while i < end
            invariant
                start <= i <= end,
                end <= n,
                start == q * 1024,
                row == q * 256,
                q < num_partitions,
                n <= src_k.len(),
                n <= src_v.len(),
                n <= dst_k.len(),
                n <= dst_v.len(),
                n <= u32::MAX,
                valid_shift(shift),
                part.len() == num_partitions * 256,
                n <= num_partitions * 1024,
                dst_k.len() == old(dst_k).len(),
                dst_v.len() == old(dst_v).len(),
                forall|x: int| 0 <= x < n ==> 0 <= #[trigger] pass_slot(src_k@, shift, n as int, x) < n,
                forall|x: int, y: int|
                    0 <= x < n && 0 <= y < n && x != y ==> (#[trigger] pass_slot(src_k@, shift, n as int, x)
                        < #[trigger] pass_slot(src_k@, shift, n as int, y) <==> key_before(
                        digit(src_k@[x], shift),
                        x,
                        digit(src_k@[y], shift),
                        y,
                    )),
                forall|e: int|
                    0 <= e < RADIX ==> #[trigger] bin(part@, q as int, e) == digits_below(
                        src_k@,
                        shift,
                        e,
                        n as int,
                    ) + digit_count(src_k@, shift, e, i as int),
                forall|r: int, e: int|
                    r > q && r * 1024 < n && 0 <= e < RADIX ==> #[trigger] bin(part@, r, e)
                        == digits_below(src_k@, shift, e, n as int) + digit_count(src_k@, shift, e, r * 1024),
                forall|x: int|
                    0 <= x < i ==> {
                        &&& dst_k[#[trigger] pass_slot(src_k@, shift, n as int, x)] == src_k[x]
                        &&& dst_v[pass_slot(src_k@, shift, n as int, x)] == src_v[x]
                    },
                forall|a: int| n <= a < old(dst_k).len() ==> #[trigger] dst_k[a] == old(dst_k)[a],
                forall|a: int| n <= a < old(dst_v).len() ==> #[trigger] dst_v[a] == old(dst_v)[a],
            decreases end - i,
        {
            proof {
                lemma_digit_range(src_k@[i as int], shift);
            }
            let k = src_k[i];
            let v = src_v[i];
            let dg = ((k >> shift) & 0xff) as usize;
            let slot = part[row + dg];
            assert(slot == bin(part@, q as int, dg as int));
            assert(slot as int == pass_slot(src_k@, shift, n as int, i as int));
            dst_k.set(slot as usize, k);
            dst_v.set(slot as usize, v);
            let ghost before = part@;
            part.set(row + dg, slot + 1);
            proof {
                lemma_bin_frame(before, q as int, dg as int, (slot + 1) as u32);
            }
            i = i + 1;
            assert forall|x: int| 0 <= x < i implies {
                &&& dst_k[#[trigger] pass_slot(src_k@, shift, n as int, x)] == src_k[x]
                &&& dst_v[pass_slot(src_k@, shift, n as int, x)] == src_v[x]
            } by {
                if x < i - 1 {
                    assert(pass_slot(src_k@, shift, n as int, x) != pass_slot(
                        src_k@,
                        shift,
                        n as int,
                        i - 1,
                    ));
                }
            }
        }
        q = q + 1;
        start = end;
    }
}

/// After the passes that sorted on the low `bits` bits, input pair `i` sits at
/// slot `pos[i]` of `(cur_k, cur_v)`, ordered by low bits and then position.
spec fn placed_by(
    k0: Seq<u32>,
    v0: Seq<u32>,
    cur_k: Seq<u32>,
    cur_v: Seq<u32>,
    pos: Seq<int>,
    bits: u32,
) -> bool {
    let n = k0.len();
    &&& v0.len() == n
    &&& n <= cur_k.len()
    &&& n <= cur_v.len()
    &&& pos.len() == n
    &&& forall|i: int|
        0 <= i < n ==> {
            &&& 0 <= #[trigger] pos[i] < n
            &&& cur_k[pos[i]] == k0[i]
            &&& cur_v[pos[i]] == v0[i]
        }
    &&& forall|i: int, j: int|
        0 <= i < n && 0 <= j < n && i != j ==> (#[trigger] pos[i] < #[trigger] pos[j]
            <==> key_before(low_bits(k0[i], bits), i, low_bits(k0[j], bits), j))
}

/// A pass on the digit at `shift` extends the order from the low `shift` bits
/// to the low `shift + 8` bits.
proof fn lemma_pass_extends_order(
    k0: Seq<u32>,
    v0: Seq<u32>,
    cur_k: Seq<u32>,
    cur_v: Seq<u32>,
    pos: Seq<int>,
    shift: u32,
    next_k: Seq<u32>,
    next_v: Seq<u32>,
) -> (next_pos: Seq<int>)
    requires
        valid_shift(shift),
        placed_by(k0, v0, cur_k, cur_v, pos, shift),
        k0.len() <= next_k.len(),
        k0.len() <= next_v.len(),
        forall|x: int|
            0 <= x < k0.len() ==> {
                &&& next_k[#[trigger] pass_slot(cur_k, shift, k0.len() as int, x)] == cur_k[x]
                &&& next_v[pass_slot(cur_k, shift, k0.len() as int, x)] == cur_v[x]
            },
    ensures
        placed_by(k0, v0, next_k, next_v, next_pos, (shift + 8) as u32),
{
    let n = k0.len() as int;
    lemma_pass_slots(cur_k, shift, n);
    let next_pos = Seq::new(n as nat, |i: int| pass_slot(cur_k, shift, n, pos[i]));
    assert forall|i: int, j: int| 0 <= i < n && 0 <= j < n && i != j implies (
    #[trigger] next_pos[i] < #[trigger] next_pos[j] <==> key_before(
        low_bits(k0[i], (shift + 8) as u32),
        i,
        low_bits(k0[j], (shift + 8) as u32),
        j,
    )) by {
        assert(pos[i] != pos[j]);
        lemma_low_step(k0[i], k0[j], shift, i, j);
    }
    next_pos
}

/// Scratch memory of the sorter for up to `capacity` pairs.
pub struct RadixSortBuffers {
    /// One histogram of `RADIX` bins for each pass.
    pub global_histogram: Vec<u32>,
    /// `RADIX` bins for each partition, reused by every pass.
    pub partition_histogram: Vec<u32>,
    /// Ping-pong target for the keys.
    pub keys_temp: Vec<u32>,
    /// Ping-pong target for the values.
    pub values_temp: Vec<u32>,
    /// Workgroups of `BLOCK_SIZE` keys needed to cover `capacity` keys.
    pub num_partitions: u32,
}

impl RadixSortBuffers {
    pub open spec fn capacity(&self) -> nat {
        self.keys_temp@.len()
    }

    pub open spec fn wf(&self) -> bool {
        &&& self.global_histogram.len() == NUM_PASSES * RADIX
        &&& self.values_temp.len() == self.keys_temp.len()
        &&& self.num_partitions == (self.keys_temp.len() + BLOCK_SIZE - 1) / BLOCK_SIZE as int
        &&& self.partition_histogram.len() == self.num_partitions * RADIX
    }
}

/// Scratch buffers for sorting up to `max_elements` pairs, all zero.
pub fn create_radix_sort_buffers(max_elements: u32) -> (r: RadixSortBuffers)
    ensures
        r.wf(),
        r.capacity() == max_elements,
        r.num_partitions == (max_elements + BLOCK_SIZE - 1) / BLOCK_SIZE as int,
        forall|i: int| 0 <= i < NUM_PASSES * RADIX ==> #[trigger] r.global_histogram[i] == 0,
        forall|i: int| 0 <= i < r.num_partitions * RADIX ==> #[trigger] r.partition_histogram[i] == 0,
        forall|i: int| 0 <= i < max_elements ==> #[trigger] r.keys_temp[i] == 0 && r.values_temp[i] == 0,
{
    let num_partitions = ((max_elements as u64 + BLOCK_SIZE as u64 - 1) / BLOCK_SIZE as u64) as u32;
    assert(num_partitions <= 0x40_0000);
    RadixSortBuffers {
        global_histogram: vec![0u32; NUM_PASSES * RADIX],
        partition_histogram: vec![0u32; RADIX * num_partitions as usize],
        keys_temp: vec![0u32; max_elements as usize],
        values_temp: vec![0u32; max_elements as usize],
        num_partitions,
    }
}

/// One pass on the digit at `8 * pass`, from `(src_k, src_v)` into `(dst_k, dst_v)`.
fn radix_pass(
    src_k: &Vec<u32>,
    src_v: &Vec<u32>,
    dst_k: &mut Vec<u32>,
    dst_v: &mut Vec<u32>,
    part: &mut Vec<u32>,
    num_partitions: usize,
    hist: &mut Vec<u32>,
    pass: usize,
    shift: u32,
    n: usize,
)
    requires
        pass < NUM_PASSES,
        shift == 8 * pass,
        old(part).len() == num_partitions * 256,
        n <= num_partitions * 1024,
        n <= src_k.len(),
        n <= src_v.len(),
        n <= old(dst_k).len(),
        n <= old(dst_v).len(),
        n <= u32::MAX,
        old(hist).len() == NUM_PASSES * RADIX,
    ensures
        final(hist).len() == old(hist).len(),
        final(part).len() == old(part).len(),
        final(dst_k).len() == old(dst_k).len(),
        final(dst_v).len() == old(dst_v).len(),
        forall|x: int|
            0 <= x < n ==> {
                &&& final(dst_k)[#[trigger] pass_slot(src_k@, shift, n as int, x)]
                    == src_k[x]
                &&& final(dst_v)[pass_slot(src_k@, shift, n as int, x)] == src_v[x]
            },
        forall|a: int| n <= a < old(dst_k).len() ==> #[trigger] final(dst_k)[a] == old(dst_k)[a],
        forall|a: int| n <= a < old(dst_v).len() ==> #[trigger] final(dst_v)[a] == old(dst_v)[a],
{
    let base = pass * 256;
    upsweep(src_k, n, part, num_partitions, hist, base, shift);
    spine(part, num_partitions, hist, base, Ghost(src_k@), shift, n);
    downsweep(src_k, src_v, dst_k, dst_v, part, num_partitions, shift, n);
}

/// Sorts the first `count` (key, value) pairs by key, stably, in four passes
/// that alternate between the given buffers and the scratch buffers; `count`
/// is the instance count that the cull pass left in the indirect draw record.
/// The pairs from `count` on are left as they are.
pub fn execute_radix_sort(
    keys: &mut Vec<u32>,
    values: &mut Vec<u32>,
    buffers: &mut RadixSortBuffers,
    indirect: &DrawIndirectArgs,
)
    requires
        old(buffers).wf(),
        indirect.instance_count <= old(keys).len(),
        indirect.instance_count <= old(values).len(),
        indirect.instance_count <= old(buffers).capacity(),
    ensures
        final(buffers).wf(),
        final(buffers).capacity() == old(buffers).capacity(),
        final(keys).len() == old(keys).len(),
        final(values).len() == old(values).len(),
        is_stable_sort_of(
            old(keys)@.take(indirect.instance_count as int),
            old(values)@.take(indirect.instance_count as int),
            final(keys)@.take(indirect.instance_count as int),
            final(values)@.take(indirect.instance_count as int),
        ),
        final(keys)@.skip(indirect.instance_count as int) == old(keys)@.skip(indirect.instance_count as int),
        final(values)@.skip(indirect.instance_count as int) == old(values)@.skip(indirect.instance_count as int),
{
    let n = indirect.instance_count as usize;
    let ghost k0 = keys@.take(n as int);
    let ghost v0 = values@.take(n as int);
    let np = buffers.num_partitions as usize;
    assert(n <= np * 1024) by (nonlinear_arith)
        requires
            n <= buffers.keys_temp.len(),
            np == (buffers.keys_temp.len() + 1024 - 1) / 1024,
    ;
    let ghost pos0 = Seq::new(n as nat, |i: int| i);
    assert(k0.len() == n);
    assert(placed_by(k0, v0, keys@, values@, pos0, 0));
    radix_pass(keys, values, &mut buffers.keys_temp, &mut buffers.values_temp, &mut buffers.partition_histogram, np, &mut buffers.global_histogram, 0, 0, n);
    let ghost pos1 = lemma_pass_extends_order(k0, v0, old(keys)@, old(values)@, pos0, 0, buffers.keys_temp@, buffers.values_temp@);
    let ghost keys1 = keys@;
    let ghost values1 = values@;
    radix_pass(&buffers.keys_temp, &buffers.values_temp, keys, values, &mut buffers.partition_histogram, np, &mut buffers.global_histogram, 1, 8, n);
    let ghost pos2 = lemma_pass_extends_order(k0, v0, buffers.keys_temp@, buffers.values_temp@, pos1, 8, keys@, values@);
    radix_pass(keys, values, &mut buffers.keys_temp, &mut buffers.values_temp, &mut buffers.partition_histogram, np, &mut buffers.global_histogram, 2, 16, n);
    let ghost pos3 = lemma_pass_extends_order(k0, v0, keys@, values@, pos2, 16, buffers.keys_temp@, buffers.values_temp@);
    radix_pass(&buffers.keys_temp, &buffers.values_temp, keys, values, &mut buffers.partition_histogram, np, &mut buffers.global_histogram, 3, 24, n);
    let ghost pos4 = lemma_pass_extends_order(k0, v0, buffers.keys_temp@, buffers.values_temp@, pos3, 24, keys@, values@);
    proof {
        assert(stable_placement(k0, v0, keys@.take(n as int), values@.take(n as int), pos4));
        assert(keys@.skip(n as int) =~= old(keys)@.skip(n as int));
        assert(values@.skip(n as int) =~= old(values)@.skip(n as int));
    }
}

/// Sorts all pairs: scratch buffers of the right size are made for the call.
pub fn radix_sort_pairs(keys: &mut Vec<u32>, values: &mut Vec<u32>)
    requires
        old(keys).len() == old(values).len(),
        old(keys).len() <= u32::MAX,
    ensures
        is_stable_sort_of(old(keys)@, old(values)@, final(keys)@, final(values)@),
{
    let n = keys.len() as u32;
    let mut buffers = create_radix_sort_buffers(n);
    execute_radix_sort(keys, values, &mut buffers, &DrawIndirectArgs::for_points(n));
    proof {
        assert(old(keys)@.take(n as int) =~= old(keys)@);
        assert(old(values)@.take(n as int) =~= old(values)@);
        assert(keys@.take(n as int) =~= keys@);
        assert(values@.take(n as int) =~= values@);
    }
}

spec fn taken(pos: Seq<int>, a: int) -> bool {
    exists|i: int| 0 <= i < pos.len() && #[trigger] pos[i] == a
}

/// Distinct inputs get distinct slots, and every slot below `n` is taken.
proof fn lemma_placement_onto(k0: Seq<u32>, v0: Seq<u32>, k1: Seq<u32>, v1: Seq<u32>, pos: Seq<int>)
    requires
        stable_placement(k0, v0, k1, v1, pos),
    ensures
        forall|a: int| 0 <= a < k0.len() ==> #[trigger] taken(pos, a),
{
    let n = k0.len() as int;
    let dom = set_int_range(0, n);
    let f = |i: int| pos[i];
    let img = dom.map(f);
    lemma_int_range(0, n);
    assert forall|i: int, j: int| dom.contains(i) && dom.contains(j) && #[trigger] f(i) == #[trigger] f(
        j,
    ) implies i == j by {
        if i != j {
            assert(key_before(k0[i], i, k0[j], j) || key_before(k0[j], j, k0[i], i));
        }
    }
    lemma_map_size(dom, img, f);
    assert forall|a: int| #[trigger] img.contains(a) implies dom.contains(a) by {
        let i = choose|i: int| dom.contains(i) && f(i) == a;
    }
    lemma_subset_equality(img, dom);
    assert forall|a: int| 0 <= a < n implies #[trigger] taken(pos, a) by {
        assert(dom.contains(a));
        assert(img.contains(a));
    }
}

/// The output of a stable sort is in non-decreasing key order.
pub proof fn lemma_stable_sort_is_sorted(k0: Seq<u32>, v0: Seq<u32>, k1: Seq<u32>, v1: Seq<u32>)
    requires
        is_stable_sort_of(k0, v0, k1, v1),
    ensures
        is_sorted(k1),
        k1.len() == k0.len(),
        v1.len() == v0.len(),
{
    let pos = choose|pos: Seq<int>| stable_placement(k0, v0, k1, v1, pos);
    lemma_placement_onto(k0, v0, k1, v1, pos);
    assert forall|a: int, b: int| 0 <= a < b < k1.len() implies k1[a] <= k1[b] by {
        assert(taken(pos, a) && taken(pos, b));
        let i = choose|i: int| 0 <= i < pos.len() && #[trigger] pos[i] == a;
        let j = choose|j: int| 0 <= j < pos.len() && #[trigger] pos[j] == b;
        assert(pos[i] < pos[j]);
    }
}

proof fn lemma_increasing_at_least(pos: Seq<int>, i: int)
    requires
        0 <= i < pos.len(),
        forall|a: int| 0 <= a < pos.len() ==> 0 <= #[trigger] pos[a],
        forall|a: int, b: int| 0 <= a < b < pos.len() ==> #[trigger] pos[a] < #[trigger] pos[b],
    ensures
        pos[i] >= i,
    decreases i,
{
    if i > 0 {
        lemma_increasing_at_least(pos, i - 1);
    }
}

proof fn lemma_increasing_at_most(pos: Seq<int>, i: int)
    requires
        0 <= i < pos.len(),
        forall|a: int| 0 <= a < pos.len() ==> #[trigger] pos[a] < pos.len(),
        forall|a: int, b: int| 0 <= a < b < pos.len() ==> #[trigger] pos[a] < #[trigger] pos[b],
    ensures
        pos[i] <= i,
    decreases pos.len() - i,
{
    if i + 1 < pos.len() {
        lemma_increasing_at_most(pos, i + 1);
    }
}

/// Stable sorting pairs whose keys are already in order changes nothing:
/// every value stays at its position.
pub proof fn lemma_sorted_input_unchanged(k0: Seq<u32>, v0: Seq<u32>, k1: Seq<u32>, v1: Seq<u32>)
    requires
        is_sorted(k0),
        is_stable_sort_of(k0, v0, k1, v1),
    ensures
        k1 == k0,
        v1 == v0,
{
    let pos = choose|pos: Seq<int>| stable_placement(k0, v0, k1, v1, pos);
    let n = k0.len() as int;
    assert forall|a: int, b: int| 0 <= a < b < n implies #[trigger] pos[a] < #[trigger] pos[b] by {
        assert(k0[a] <= k0[b]);
    }
    assert forall|i: int| 0 <= i < n implies k1[i] == k0[i] && v1[i] == v0[i] by {
        lemma_increasing_at_least(pos, i);
        lemma_increasing_at_most(pos, i);
        assert(pos[i] == i);
    }
    assert(k1 =~= k0);
    assert(v1 =~= v0);
}

/// A stable sort keeps the keys and the values: each occurs in the output
/// exactly when it occurs in the input.
pub proof fn lemma_stable_sort_same_keys(k0: Seq<u32>, v0: Seq<u32>, k1: Seq<u32>, v1: Seq<u32>)
    requires
        is_stable_sort_of(k0, v0, k1, v1),
    ensures
        forall|x: u32| k1.contains(x) <==> k0.contains(x),
        forall|y: u32| v1.contains(y) <==> v0.contains(y),
{
    let pos = choose|pos: Seq<int>| stable_placement(k0, v0, k1, v1, pos);
    lemma_placement_onto(k0, v0, k1, v1, pos);
    assert forall|x: u32| k1.contains(x) <==> k0.contains(x) by {
        if k1.contains(x) {
            let a = choose|a: int| 0 <= a < k1.len() && k1[a] == x;
            assert(taken(pos, a));
            let i = choose|i: int| 0 <= i < pos.len() && #[trigger] pos[i] == a;
            assert(k0[i] == x);
        }
        if k0.contains(x) {
            let i = choose|i: int| 0 <= i < k0.len() && k0[i] == x;
            assert(k1[pos[i]] == x);
        }
    }
    assert forall|y: u32| v1.contains(y) <==> v0.contains(y) by {
        if v1.contains(y) {
            let a = choose|a: int| 0 <= a < v1.len() && v1[a] == y;
            assert(taken(pos, a));
            let i = choose|i: int| 0 <= i < pos.len() && #[trigger] pos[i] == a;
            assert(v0[i] == y);
        }
        if v0.contains(y) {
            let i = choose|i: int| 0 <= i < v0.len() && v0[i] == y;
            assert(v1[pos[i]] == y);
        }
    }
}

} // verus!
