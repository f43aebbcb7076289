//! A monotonic counter stored in a flash region, built so that most
//! increments program a single byte instead of erasing the region.
//!
//! The first four bytes hold a big-endian base value. The remaining bytes form
//! a unary field: it starts erased (all ones) and each increment clears the
//! most significant remaining one-bit, scanning the bytes from the start. The
//! counter's value is the base plus the number of cleared bits. When no bit is
//! left, the region is erased and the base moves past every value spent.
use vstd::prelude::*;

verus! {

/// Bytes at the start of a region that hold the base value.
pub const BASE_LEN: usize = 4;

/// Largest region handled: eight bits per byte must stay countable in a `u32`.
pub const MAX_REGION_LEN: usize = 0x1000_0000;

/// Value of an erased flash byte.
pub const ERASED: u8 = 0xFF;

pub open spec fn be_value(b0: u8, b1: u8, b2: u8, b3: u8) -> int {
    b0 as int * 0x100_0000 + b1 as int * 0x1_0000 + b2 as int * 0x100 + b3 as int
}

/// The base value stored in the first four bytes.
pub open spec fn base_of(r: Seq<u8>) -> int {
    be_value(r[0], r[1], r[2], r[3])
}

/// The unary field of a region.
pub open spec fn unary_field(r: Seq<u8>) -> Seq<u8> {
    r.subrange(BASE_LEN as int, r.len() as int)
}

/// A byte of the unary field: its cleared bits are the most significant ones.
pub open spec fn is_unary_byte(b: u8) -> bool {
    b == 0xFF || b == 0x7F || b == 0x3F || b == 0x1F || b == 0x0F || b == 0x07 || b == 0x03
        || b == 0x01 || b == 0x00
}

/// Number of cleared bits of a unary byte.
pub open spec fn spent_bits(b: u8) -> int {
    if b == 0xFF {
        0
    } else if b == 0x7F {
        1
    } else if b == 0x3F {
        2
    } else if b == 0x1F {
        3
    } else if b == 0x0F {
        4
    } else if b == 0x07 {
        5
    } else if b == 0x03 {
        6
    } else if b == 0x01 {
        7
    } else {
        8
    }
}

/// Number of cleared bits over a whole unary field.
pub open spec fn spent_total(s: Seq<u8>) -> int
    decreases s.len(),
{
    if s.len() == 0 {
        0
    } else {
        spent_total(s.drop_last()) + spent_bits(s.last())
    }
}

/// Every byte is a unary byte, and a byte that is not fully cleared is
/// followed by untouched bytes only.
pub open spec fn unary_field_wf(s: Seq<u8>) -> bool {
    &&& forall|i: int| 0 <= i < s.len() ==> is_unary_byte(#[trigger] s[i])
    &&& forall|i: int, j: int| 0 <= i < j < s.len() && #[trigger] s[i] != 0 ==> #[trigger] s[j] == ERASED
}

pub open spec fn region_wf(r: Seq<u8>) -> bool {
    &&& BASE_LEN <= r.len() <= MAX_REGION_LEN
    &&& unary_field_wf(unary_field(r))
}

/// The value that a region stores: its base plus the bits cleared so far.
pub open spec fn counter_value(r: Seq<u8>) -> int {
    base_of(r) + spent_total(unary_field(r))
}

/// A well-formed region whose value fits a `u32`.
pub open spec fn readable(r: Seq<u8>) -> bool {
    region_wf(r) && counter_value(r) <= u32::MAX
}

/// A well-formed region whose next value still fits a `u32`.
pub open spec fn incrementable(r: Seq<u8>) -> bool {
    region_wf(r) && counter_value(r) < u32::MAX
}

/// Number of fully cleared bytes at the start of a unary field.
pub open spec fn cleared_prefix_len(s: Seq<u8>) -> int
    decreases s.len(),
{
    if s.len() == 0 || s[0] != 0 {
        0
    } else {
        1 + cleared_prefix_len(s.drop_first())
    }
}

/// One flash operation that moves a region to its next value.
#[derive(Clone, Copy, Debug, PartialEq, Eq, Structural)]
pub enum CounterWrite {
    /// Program one byte of the unary field; programming only clears bits.
    Program { offset: u32, byte: u8 },
    /// Erase the whole region, then program `base` into its first four bytes.
    Reset { base: u32 },
}

/// The operation that an increment performs on a well-formed region.
pub open spec fn planned_write(r: Seq<u8>) -> CounterWrite {
    let s = unary_field(r);
    let h = cleared_prefix_len(s);
    if h < s.len() {
        CounterWrite::Program { offset: (BASE_LEN + h) as u32, byte: s[h] >> 1 }
    } else {
        CounterWrite::Reset { base: (counter_value(r) + 1) as u32 }
    }
}

/// The big-endian bytes of a base value.
pub open spec fn base_bytes(v: u32) -> Seq<u8> {
    seq![
        (v / 0x100_0000) as u8,
        (v / 0x1_0000 % 0x100) as u8,
        (v / 0x100 % 0x100) as u8,
        (v % 0x100) as u8,
    ]
}

/// A region of `len` bytes just erased, with `base` programmed at its start.
pub open spec fn erased_with_base(len: nat, base: u32) -> Seq<u8> {
    Seq::new(len, |i: int| if i < BASE_LEN { base_bytes(base)[i] } else { ERASED })
}

/// A write that stays inside the region.
pub open spec fn write_fits(r: Seq<u8>, w: CounterWrite) -> bool {
    match w {
        CounterWrite::Program { offset, .. } => offset < r.len(),
        CounterWrite::Reset { .. } => BASE_LEN <= r.len(),
    }
}

/// The region after a write.
pub open spec fn written(r: Seq<u8>, w: CounterWrite) -> Seq<u8> {
    match w {
        CounterWrite::Program { offset, byte } => r.update(offset as int, byte),
        CounterWrite::Reset { base } => erased_with_base(r.len(), base),
    }
}

/// The region after one increment.
pub open spec fn incremented(r: Seq<u8>) -> Seq<u8> {
    written(r, planned_write(r))
}

proof fn lemma_base_bytes(v: u32)
    ensures
        be_value(base_bytes(v)[0], base_bytes(v)[1], base_bytes(v)[2], base_bytes(v)[3]) == v,
{
    let x = v as int;
    assert(x == (x / 0x100_0000) * 0x100_0000 + (x / 0x1_0000 % 0x100) * 0x1_0000 + (x / 0x100
        % 0x100) * 0x100 + x % 0x100) by (nonlinear_arith)
        requires
            0 <= x <= u32::MAX,
    ;
}

proof fn lemma_spent_bits(b: u8)
    requires
        is_unary_byte(b),
    ensures
        0 <= spent_bits(b) <= 8,
        b != 0 ==> is_unary_byte(b >> 1) && spent_bits(b >> 1) == spent_bits(b) + 1,
        b == 0 <==> spent_bits(b) == 8,
{
    assert(0xFFu8 >> 1 == 0x7Fu8) by (bit_vector);
    assert(0x7Fu8 >> 1 == 0x3Fu8) by (bit_vector);
    assert(0x3Fu8 >> 1 == 0x1Fu8) by (bit_vector);
    assert(0x1Fu8 >> 1 == 0x0Fu8) by (bit_vector);
    assert(0x0Fu8 >> 1 == 0x07u8) by (bit_vector);
    assert(0x07u8 >> 1 == 0x03u8) by (bit_vector);
    assert(0x03u8 >> 1 == 0x01u8) by (bit_vector);
    assert(0x01u8 >> 1 == 0x00u8) by (bit_vector);
}

proof fn lemma_spent_total_update(s: Seq<u8>, i: int, v: u8)
    requires
        0 <= i < s.len(),
    ensures
        spent_total(s.update(i, v)) == spent_total(s) - spent_bits(s[i]) + spent_bits(v),
    decreases s.len(),
{
    let u = s.update(i, v);
    if i == s.len() - 1 {
        assert(u.drop_last() =~= s.drop_last());
    } else {
        assert(u.drop_last() =~= s.drop_last().update(i, v));
        lemma_spent_total_update(s.drop_last(), i, v);
    }
}

proof fn lemma_spent_total_erased(s: Seq<u8>)
    requires
        forall|i: int| 0 <= i < s.len() ==> s[i] == ERASED,
    ensures
        spent_total(s) == 0,
    decreases s.len(),
{
    if s.len() > 0 {
        lemma_spent_total_erased(s.drop_last());
    }
}

/// With `h` cleared bytes in front, the spent bits of the first `n` bytes.
proof fn lemma_spent_total_prefix(s: Seq<u8>, h: int, n: int)
    requires
        unary_field_wf(s),
        0 <= h <= s.len(),
        forall|i: int| 0 <= i < h ==> s[i] == 0,
        h < s.len() ==> s[h] != 0,
        0 <= n <= s.len(),
    ensures
        spent_total(s.take(n)) == if n <= h {
            8 * n
        } else {
            8 * h + spent_bits(s[h])
        },
    decreases n,
{
    if n > 0 {
        lemma_spent_total_prefix(s, h, n - 1);
        assert(s.take(n).drop_last() =~= s.take(n - 1));
        if n - 1 > h {
            assert(s[n - 1] == ERASED);
        }
    }
}

proof fn lemma_spent_total_head(s: Seq<u8>, h: int)
    requires
        unary_field_wf(s),
        0 <= h <= s.len(),
        forall|i: int| 0 <= i < h ==> s[i] == 0,
        h < s.len() ==> s[h] != 0,
    ensures
        spent_total(s) == if h < s.len() {
            8 * h + spent_bits(s[h])
        } else {
            8 * h
        },
        cleared_prefix_len(s) == h,
{
    lemma_spent_total_prefix(s, h, s.len() as int);
    assert(s.take(s.len() as int) =~= s);
    lemma_cleared_prefix_len(s, h);
}

proof fn lemma_cleared_prefix_len(s: Seq<u8>, h: int)
    requires
        0 <= h <= s.len(),
        forall|i: int| 0 <= i < h ==> s[i] == 0,
        h < s.len() ==> s[h] != 0,
    ensures
        cleared_prefix_len(s) == h,
    decreases h,
{
    if h > 0 {
        let t = s.drop_first();
        assert forall|i: int| 0 <= i < h - 1 implies t[i] == 0 by {
            assert(t[i] == s[i + 1]);
        }
        lemma_cleared_prefix_len(t, h - 1);
    }
}

/// Every well-formed field has a cleared prefix followed by a byte that is not
/// fully cleared, or by nothing.
proof fn lemma_cleared_prefix_shape(s: Seq<u8>)
    ensures
        0 <= cleared_prefix_len(s) <= s.len(),
        forall|i: int| 0 <= i < cleared_prefix_len(s) ==> s[i] == 0,
        cleared_prefix_len(s) < s.len() ==> s[cleared_prefix_len(s)] != 0,
    decreases s.len(),
{
    if s.len() > 0 && s[0] == 0 {
        let t = s.drop_first();
        lemma_cleared_prefix_shape(t);
        assert forall|i: int| 0 <= i < cleared_prefix_len(s) implies s[i] == 0 by {
            if i > 0 {
                assert(s[i] == t[i - 1]);
            }
        }
    }
}

/// Base, length of the cleared prefix and value of a readable region.
fn decode(region: &[u8]) -> (res: (u32, usize))
    requires
        region_wf(region@),
    ensures
        res.0 == base_of(region@),
        res.1 == cleared_prefix_len(unary_field(region@)),
        res.1 <= region@.len() - BASE_LEN,
        spent_total(unary_field(region@)) == if res.1 < unary_field(region@).len() {
            8 * res.1 + spent_bits(unary_field(region@)[res.1 as int])
        } else {
            8 * res.1
        },
{
    let base = (region[0] as u32) * 0x100_0000 + (region[1] as u32) * 0x1_0000 + (region[2] as u32)
        * 0x100 + (region[3] as u32);
    let ghost s = unary_field(region@);
    let mut lo: usize = BASE_LEN;
    let mut hi: usize = region.len();
    while lo < hi
        invariant
            BASE_LEN <= lo <= hi <= region.len(),
            s == unary_field(region@),
            region_wf(region@),
            forall|i: int| BASE_LEN <= i < lo ==> region@[i] == 0,
            forall|i: int| hi <= i < region.len() ==> region@[i] != 0,
        decreases hi - lo,
    {
        let mid = lo + (hi - lo) / 2;
        if region[mid] == 0 {
            proof {
                assert forall|i: int| BASE_LEN <= i <= mid implies region@[i] == 0 by {
                    if i < mid && region@[i] != 0 {
                        assert(s[i - BASE_LEN] != 0);
                        assert(s[mid - BASE_LEN] == ERASED);
                    }
                }
            }
            lo = mid + 1;
        } else {
            proof {
                assert forall|i: int| mid <= i < region.len() implies region@[i] != 0 by {
                    if i > mid {
                        assert(s[mid - BASE_LEN] != 0);
                        assert(s[i - BASE_LEN] == ERASED);
                    }
                }
            }
            hi = mid;
        }
    }
    proof {
        let h = lo - BASE_LEN;
        assert forall|i: int| 0 <= i < h implies s[i] == 0 by {
            assert(s[i] == region@[i + BASE_LEN]);
        }
        if h < s.len() {
            assert(s[h] == region@[lo as int]);
        }
        lemma_spent_total_head(s, h);
    }
    (base, lo - BASE_LEN)
}

/// The counter's value, or `None` when the region is not a well-formed counter
/// or its value does not fit a `u32`.
pub fn read_counter(region: &[u8]) -> (r: Option<u32>)
    ensures
        r == if readable(region@) {
            Some(counter_value(region@) as u32)
        } else {
            None::<u32>
        },
{
    if !is_region_wf(region) {
        return None;
    }
    let (base, h) = decode(region);
    let n = region.len() - BASE_LEN;
    let spent: u32 = if h < n {
        let head = region[BASE_LEN + h];
        proof {
            lemma_spent_bits(head);
        }
        (h as u32) * 8 + unary_spent(head)
    } else {
        (h as u32) * 8
    };
    if base > u32::MAX - spent {
        None
    } else {
        Some(base + spent)
    }
}

/// Cleared bits of a unary byte.
fn unary_spent(b: u8) -> (r: u32)
    requires
        is_unary_byte(b),
    ensures
        r == spent_bits(b),
{
    let mut x = b;
    let mut n: u32 = 8;
    while x != 0
        invariant
            is_unary_byte(x),
            n + spent_bits(x) == 8 + spent_bits(b),
            n <= 8,
        decreases x,
    {
        proof {
            lemma_spent_bits(x);
        }
        assert(x >> 1 < x) by (bit_vector)
            requires
                x != 0,
        ;
        x = x >> 1;
        n = n - 1;
    }
    n
}

/// Whether a byte sequence is a well-formed counter region.
pub fn is_region_wf(region: &[u8]) -> (r: bool)
    ensures
        r == region_wf(region@),
{
    if region.len() < BASE_LEN || region.len() > MAX_REGION_LEN {
        return false;
    }
    let ghost s = unary_field(region@);
    let mut i: usize = BASE_LEN;
    let mut open = false;
    while i < region.len()
        invariant
            BASE_LEN <= i <= region.len() <= MAX_REGION_LEN,
            s == unary_field(region@),
            forall|k: int| 0 <= k < i - BASE_LEN ==> is_unary_byte(#[trigger] s[k]),
            forall|a: int, b: int|
                0 <= a < b < i - BASE_LEN && #[trigger] s[a] != 0 ==> #[trigger] s[b] == ERASED,
            open <==> exists|a: int| 0 <= a < i - BASE_LEN && #[trigger] s[a] != 0,
        decreases region.len() - i,
    {
        let b = region[i];
        assert(b == s[i - BASE_LEN]);
        if !(b == 0xFF || b == 0x7F || b == 0x3F || b == 0x1F || b == 0x0F || b == 0x07 || b == 0x03
            || b == 0x01 || b == 0x00) {
            assert(!unary_field_wf(s));
            return false;
        }
        if open && b != ERASED {
            proof {
                let a = choose|a: int| 0 <= a < i - BASE_LEN && #[trigger] s[a] != 0;
                assert(s[a] != 0 && s[i - BASE_LEN] != ERASED);
            }
            return false;
        }
        if b != 0 {
            open = true;
        }
        i = i + 1;
    }
    true
}

/// Cleared bits of a well-formed field, from the length of its cleared prefix.
proof fn lemma_spent_total_wf(s: Seq<u8>)
    requires
        unary_field_wf(s),
    ensures
        0 <= cleared_prefix_len(s) <= s.len(),
        cleared_prefix_len(s) < s.len() ==> s[cleared_prefix_len(s)] != 0 && spent_total(s) == 8
            * cleared_prefix_len(s) + spent_bits(s[cleared_prefix_len(s)]) && spent_total(s) < 8
            * s.len(),
        cleared_prefix_len(s) == s.len() ==> spent_total(s) == 8 * s.len(),
{
    lemma_cleared_prefix_shape(s);
    let h = cleared_prefix_len(s);
    lemma_spent_total_head(s, h);
    if h < s.len() {
        lemma_spent_bits(s[h]);
    }
}

/// A freshly erased region with a base is well formed and stores that base.
pub proof fn lemma_erased_region(len: nat, base: u32)
    requires
        BASE_LEN <= len <= MAX_REGION_LEN,
    ensures
        region_wf(erased_with_base(len, base)),
        base_of(erased_with_base(len, base)) == base,
        spent_total(unary_field(erased_with_base(len, base))) == 0,
        counter_value(erased_with_base(len, base)) == base,
{
    let r = erased_with_base(len, base);
    lemma_base_bytes(base);
    let s = unary_field(r);
    assert forall|i: int| 0 <= i < s.len() implies s[i] == ERASED by {
        assert(s[i] == r[i + BASE_LEN]);
    }
    lemma_spent_total_erased(s);
}

/// One increment keeps a region well formed and adds one to its value.
pub proof fn lemma_increment(r: Seq<u8>)
    requires
        incrementable(r),
    ensures
        0 <= counter_value(r),
        write_fits(r, planned_write(r)),
        region_wf(incremented(r)),
        counter_value(incremented(r)) == counter_value(r) + 1,
        incremented(r).len() == r.len(),
{
    let s = unary_field(r);
    lemma_spent_total_wf(s);
    lemma_cleared_prefix_shape(s);
    let h = cleared_prefix_len(s);
    if h < s.len() {
        let b = s[h];
        lemma_spent_bits(b);
        let u = incremented(r);
        assert(unary_field(u) =~= s.update(h, b >> 1));
        lemma_spent_total_update(s, h, b >> 1);
        let t = unary_field(u);
        assert forall|i: int, j: int| 0 <= i < j < t.len() && #[trigger] t[i] != 0 implies #[trigger] t[j]
            == ERASED by {
            if i < h {
                assert(s[i] == 0);
            } else if i == h {
                assert(s[h] != 0);
                assert(s[j] == ERASED);
            } else {
                assert(s[i] != 0);
            }
        }
        assert forall|i: int| 0 <= i < t.len() implies is_unary_byte(#[trigger] t[i]) by {
            if i != h {
                assert(t[i] == s[i]);
            }
        }
        assert(base_of(u) == base_of(r));
    } else {
        lemma_erased_region(r.len(), (counter_value(r) + 1) as u32);
    }
}

/// Number of bits in the unary field of a region of `len` bytes.
pub open spec fn unary_bits(len: nat) -> nat {
    (8 * (len - BASE_LEN)) as nat
}

/// Whether a write erases the region.
pub open spec fn is_erase(w: CounterWrite) -> bool {
    w is Reset
}

/// The region after `k` increments.
pub open spec fn increments(r: Seq<u8>, k: nat) -> Seq<u8>
    decreases k,
{
    if k == 0 {
        r
    } else {
        incremented(increments(r, (k - 1) as nat))
    }
}

/// Successive increments with no `set` in between return values that grow by
/// exactly one at each call, and each of them succeeds while the value fits.
pub proof fn lemma_increments_count_up(r: Seq<u8>, k: nat)
    requires
        region_wf(r),
        counter_value(r) + k <= u32::MAX,
    ensures
        forall|i: nat| i <= k ==> region_wf(#[trigger] increments(r, i)) && counter_value(
            increments(r, i),
        ) == counter_value(r) + i,
        forall|i: nat|
            i < k ==> incrementable(#[trigger] increments(r, i)) && counter_value(
                increments(r, i + 1),
            ) == counter_value(increments(r, i)) + 1,
    decreases k,
{
    if k > 0 {
        lemma_increments_count_up(r, (k - 1) as nat);
        let p = increments(r, (k - 1) as nat);
        lemma_increment(p);
        assert(increments(r, k) == incremented(p));
        assert forall|i: nat| i <= k implies region_wf(#[trigger] increments(r, i)) && counter_value(
            increments(r, i),
        ) == counter_value(r) + i by {
            if i == k {
            }
        }
        assert forall|i: nat| i < k implies incrementable(#[trigger] increments(r, i))
            && counter_value(increments(r, i + 1)) == counter_value(increments(r, i)) + 1 by {
            assert(increments(r, i + 1) == incremented(increments(r, i)));
            lemma_increment(increments(r, i));
        }
    }
}

/// From a freshly erased region with base `base` and `n` unary bits, the first
/// `n` increments each program a single byte and return `base`, `base + 1`,
/// ..., `base + n - 1`; the next one returns `base + n` and is the single
/// erase, which leaves the base at `base + n + 1`.
pub proof fn lemma_erase_once_per_cycle(len: nat, base: u32)
    requires
        BASE_LEN <= len <= MAX_REGION_LEN,
        base + unary_bits(len) < u32::MAX,
    ensures
        forall|i: nat|
            i < unary_bits(len) ==> !is_erase(#[trigger] planned_write(
                increments(erased_with_base(len, base), i),
            )) && counter_value(increments(erased_with_base(len, base), i)) == base + i,
        counter_value(increments(erased_with_base(len, base), unary_bits(len))) == base
            + unary_bits(len),
        planned_write(increments(erased_with_base(len, base), unary_bits(len))) == (
        CounterWrite::Reset { base: (base + unary_bits(len) + 1) as u32 }),
        increments(erased_with_base(len, base), unary_bits(len) + 1) == erased_with_base(
            len,
            (base + unary_bits(len) + 1) as u32,
        ),
{
    let r = erased_with_base(len, base);
    let n: nat = (8 * (len - BASE_LEN)) as nat;
    lemma_erased_region(len, base);
    lemma_increments_count_up(r, n);
    lemma_base_kept(r, n);
    assert forall|i: nat| i < n implies !is_erase(#[trigger] planned_write(increments(r, i)))
        && counter_value(increments(r, i)) == base + i by {
        let q = increments(r, i);
        assert(region_wf(q));
        lemma_spent_total_wf(unary_field(q));
    }
    let q = increments(r, n);
    assert(region_wf(q));
    lemma_spent_total_wf(unary_field(q));
    assert(increments(r, n + 1) == incremented(q));
}

/// While the unary field has bits left, increments keep the base and the
/// length of the region.
proof fn lemma_base_kept(r: Seq<u8>, k: nat)
    requires
        region_wf(r),
        spent_total(unary_field(r)) == 0,
        k <= 8 * (r.len() - BASE_LEN),
        counter_value(r) + k <= u32::MAX,
    ensures
        forall|i: nat|
            i <= k ==> base_of(#[trigger] increments(r, i)) == base_of(r) && spent_total(
                unary_field(increments(r, i)),
            ) == i && increments(r, i).len() == r.len(),
    decreases k,
{
    lemma_increments_count_up(r, k);
    if k > 0 {
        lemma_base_kept(r, (k - 1) as nat);
        let p = increments(r, (k - 1) as nat);
        assert(increments(r, k) == incremented(p));
        lemma_spent_total_wf(unary_field(p));
        lemma_increment(p);
        assert forall|i: nat| i <= k implies base_of(#[trigger] increments(r, i)) == base_of(r)
            && spent_total(unary_field(increments(r, i))) == i && increments(r, i).len()
            == r.len() by {
            if i == k {
                let u = incremented(p);
                assert(u[0] == p[0] && u[1] == p[1] && u[2] == p[2] && u[3] == p[3]);
            }
        }
    }
}

/// The base value of a region, then the value and write of the next increment,
/// or `None` when the region is not a well-formed counter or its next value
/// does not fit a `u32`.
pub fn plan_increment(region: &[u8]) -> (r: Option<(u32, CounterWrite)>)
    ensures
        r == if incrementable(region@) {
            Some((counter_value(region@) as u32, planned_write(region@)))
        } else {
            None::<(u32, CounterWrite)>
        },
{
    let ghost s = unary_field(region@);
    proof {
        if region_wf(region@) {
            lemma_spent_total_wf(s);
        }
    }
    let value = match read_counter(region) {
        Some(v) => v,
        None => return None,
    };
    if value == u32::MAX {
        return None;
    }
    let (_base, h) = decode(region);
    if h < region.len() - BASE_LEN {
        let head = region[BASE_LEN + h];
        assert(head == s[h as int]);
        Some((value, CounterWrite::Program { offset: (BASE_LEN + h) as u32, byte: head >> 1 }))
    } else {
        Some((value, CounterWrite::Reset { base: value + 1 }))
    }
}

/// The big-endian bytes of a base value, as programmed at the start of a region.
pub fn encode_base(value: u32) -> (r: Vec<u8>)
    ensures
        r@ == base_bytes(value),
{
    let mut r: Vec<u8> = Vec::new();
    r.push((value / 0x100_0000) as u8);
    r.push((value / 0x1_0000 % 0x100) as u8);
    r.push((value / 0x100 % 0x100) as u8);
    r.push((value % 0x100) as u8);
    assert(r@ =~= base_bytes(value));
    r
}

/// Perform a write on an in-memory image of the region.
pub fn apply_write(region: &mut Vec<u8>, w: CounterWrite)
    requires
        write_fits(old(region)@, w),
    ensures
        final(region)@ == written(old(region)@, w),
{
    match w {
        CounterWrite::Program { offset, byte } => {
            region.set(offset as usize, byte);
        },
        CounterWrite::Reset { base } => {
            erase_and_program_base(region, base);
        },
    }
}

fn erase_and_program_base(region: &mut Vec<u8>, base: u32)
    requires
        BASE_LEN <= old(region)@.len(),
    ensures
        final(region)@ == erased_with_base(old(region)@.len(), base),
{
    let len = region.len();
    let bytes = encode_base(base);
    let mut i: usize = 0;
    while i < len
        invariant
            region@.len() == len,
            bytes@ == base_bytes(base),
            BASE_LEN <= len,
            forall|k: int| 0 <= k < i ==> region@[k] == erased_with_base(len as nat, base)[k],
        decreases len - i,
    {
        if i < BASE_LEN {
            region.set(i, bytes[i]);
        } else {
            region.set(i, ERASED);
        }
        i = i + 1;
    }
    assert(region@ =~= erased_with_base(len as nat, base));
}

/// Read the value, then move the region to the next value with one write.
/// Returns the value from before the write, or `None`, leaving the region
/// as it was, when the region is not a well-formed counter or its next value
/// does not fit a `u32`.
pub fn read_and_increment_counter(region: &mut Vec<u8>) -> (r: Option<u32>)
    ensures
        match r {
            Some(v) => {
                &&& incrementable(old(region)@)
                &&& v == counter_value(old(region)@)
                &&& final(region)@ == incremented(old(region)@)
                &&& region_wf(final(region)@)
                &&& counter_value(final(region)@) == v + 1
            },
            None => !incrementable(old(region)@) && final(region)@ == old(region)@,
        },
{
    match plan_increment(region.as_slice()) {
        Some((value, w)) => {
            proof {
                lemma_increment(region@);
            }
            apply_write(region, w);
            Some(value)
        },
        None => None,
    }
}

/// Overwrite the region with `value` as its base and an erased unary field.
/// This erases the region: it is meant for rare explicit commits.
pub fn set_counter(region: &mut Vec<u8>, value: u32)
    requires
        BASE_LEN <= old(region)@.len() <= MAX_REGION_LEN,
    ensures
        final(region)@ == erased_with_base(old(region)@.len(), value),
        region_wf(final(region)@),
        counter_value(final(region)@) == value,
{
    erase_and_program_base(region, value);
    proof {
        lemma_erased_region(region@.len(), value);
    }
}

/// After `set_counter(value)`, a read returns `value`, and so does the
/// increment that follows, which leaves `value + 1` behind.
pub proof fn lemma_set_then_read(len: nat, value: u32)
    requires
        BASE_LEN <= len <= MAX_REGION_LEN,
    ensures
        readable(erased_with_base(len, value)),
        counter_value(erased_with_base(len, value)) == value,
        value < u32::MAX ==> incrementable(erased_with_base(len, value)) && counter_value(
            incremented(erased_with_base(len, value)),
        ) == value + 1,
{
    lemma_erased_region(len, value);
    if value < u32::MAX {
        lemma_increment(erased_with_base(len, value));
    }
}

} // verus!
