//! Streaming vector kernels: copy, add, scalar triad and vector triad, each in
//! several loop styles (indexed, zipped, lane-chunked, parallel).

use vstd::prelude::*;

use rayon::iter::{IndexedParallelIterator, IntoParallelRefIterator, ParallelExtend, ParallelIterator};
use rayon::slice::{ParallelSlice, ParallelSliceMut};

verus! {

/// Element type of the streaming benchmarks.
pub type NumType = i64;

/// Default length of the benchmark arrays.
pub const ARRAY_SIZE: usize = 4000000;

/// Distance between consecutive indices that the indexed kernels visit.
pub const STRIDE: usize = 1;

/// Whether `x` is representable as a `NumType`.
pub open spec fn fits(x: int) -> bool {
    i64::MIN <= x <= i64::MAX
}

/// The smaller of two lengths.
pub open spec fn min_len(x: nat, y: nat) -> nat {
    if x <= y { x } else { y }
}

/// `a[i] + b[i]` over the common length of `a` and `b`.
pub open spec fn sum_seq(a: Seq<NumType>, b: Seq<NumType>) -> Seq<int> {
    Seq::new(min_len(a.len(), b.len()), |i: int| a[i] + b[i])
}

/// The vector triad `a[i] * c[i] + b[i]` over the common length of the three.
pub open spec fn triad_seq(a: Seq<NumType>, b: Seq<NumType>, c: Seq<NumType>) -> Seq<int> {
    Seq::new(min_len(min_len(a.len(), b.len()), c.len()), |i: int| a[i] * c[i] + b[i])
}

/// Every entry of the vector triad over the common length fits in a `NumType`.
pub open spec fn triad_fits(a: Seq<NumType>, b: Seq<NumType>, c: Seq<NumType>) -> bool {
    forall|i: int| 0 <= i < min_len(min_len(a.len(), b.len()), c.len()) ==> #[trigger] fits(a[i] * c[i])
        && fits(a[i] * c[i] + b[i])
}

/// The integers that `s` holds.
pub open spec fn as_ints(s: Seq<NumType>) -> Seq<int> {
    Seq::new(s.len(), |i: int| s[i] as int)
}

/// Copy `src` into `dst`, which has the same length.
pub fn copy<T: Copy>(src: &[T], dst: &mut [T])
    requires
        src@.len() == old(dst)@.len(),
    ensures
        final(dst)@ == src@,
{
    let n = src.len();
    let mut i: usize = 0;
    while i < n
        invariant
            0 <= i <= n,
            n == src@.len(),
            n == dst@.len(),
            forall|k: int| 0 <= k < i ==> dst@[k] == src@[k],
        decreases n - i,
    {
        dst[i] = src[i];
        i = i + 1;
    }
    assert(dst@ =~= src@);
}

/// `result[i] = a[i] + b[i]` for every index of three slices of one length.
pub fn add(result: &mut [NumType], a: &[NumType], b: &[NumType])
    requires
        old(result)@.len() == a@.len(),
        old(result)@.len() == b@.len(),
        forall|i: int| 0 <= i < a@.len() ==> #[trigger] fits(a@[i] + b@[i]),
    ensures
        as_ints(final(result)@) == sum_seq(a@, b@),
{
    let n = result.len();
    let mut i: usize = 0;
    while i < n
        invariant
            0 <= i <= n,
            n == result@.len(),
            n == a@.len(),
            n == b@.len(),
            forall|k: int| 0 <= k < a@.len() ==> #[trigger] fits(a@[k] + b@[k]),
            forall|k: int| 0 <= k < i ==> result@[k] == a@[k] + b@[k],
        decreases n - i,
    {
        assert(fits(a@[i as int] + b@[i as int]));
        result[i] = a[i] + b[i];
        i = i + STRIDE;
    }
    assert(as_ints(result@) =~= sum_seq(a@, b@));
}

/// Replace the contents of `result` by `a[i] + b[i]` over the common length of
/// `a` and `b`.
pub fn add_itertools(result: &mut Vec<NumType>, a: &[NumType], b: &[NumType])
    requires
        forall|i: int| 0 <= i < min_len(a@.len(), b@.len()) ==> #[trigger] fits(a@[i] + b@[i]),
    ensures
        as_ints(final(result)@) == sum_seq(a@, b@),
{
    let n = if a.len() <= b.len() { a.len() } else { b.len() };
    result.clear();
    let mut i: usize = 0;
    while i < n
        invariant
            0 <= i <= n,
            n == min_len(a@.len(), b@.len()),
            forall|k: int| 0 <= k < n ==> #[trigger] fits(a@[k] + b@[k]),
            result@.len() == i,
            forall|k: int| 0 <= k < i ==> result@[k] == a@[k] + b@[k],
        decreases n - i,
    {
        assert(fits(a@[i as int] + b@[i as int]));
        result.push(a[i] + b[i]);
        i = i + 1;
    }
    assert(as_ints(result@) =~= sum_seq(a@, b@));
}

/// The scalar triad: `result[i] = s * a[i] + b[i]` for every index of three
/// slices of one length.
pub fn striad(result: &mut [NumType], a: &[NumType], b: &[NumType], s: NumType)
    requires
        old(result)@.len() == a@.len(),
        old(result)@.len() == b@.len(),
        forall|i: int| 0 <= i < a@.len() ==> #[trigger] fits(s * a@[i]) && fits(s * a@[i] + b@[i]),
    ensures
        final(result)@.len() == a@.len(),
        forall|i: int| 0 <= i < a@.len() ==> #[trigger] final(result)@[i] == s * a@[i] + b@[i],
{
    let n = a.len();
    let mut i: usize = 0;
    while i < n
        invariant
            0 <= i <= n,
            n == result@.len(),
            n == a@.len(),
            n == b@.len(),
            forall|k: int| 0 <= k < a@.len() ==> #[trigger] fits(s * a@[k]) && fits(s * a@[k] + b@[k]),
            forall|k: int| 0 <= k < i ==> result@[k] == s * a@[k] + b@[k],
        decreases n - i,
    {
        assert(fits(s * a@[i as int]));
        result[i] = s * a[i] + b[i];
        i = i + STRIDE;
    }
}

/// One entry of the vector triad, `x * z + y`.
pub fn triad(x: NumType, y: NumType, z: NumType) -> (r: NumType)
    requires
        fits(x * z),
        fits(x * z + y),
    ensures
        r == x * z + y,
{
    x * z + y
}

/// The vector triad: `result[i] = c[i] * a[i] + b[i]` for every index of four
/// slices of one length.
pub fn vtriad(result: &mut [NumType], a: &[NumType], b: &[NumType], c: &[NumType])
    requires
        old(result)@.len() == a@.len(),
        old(result)@.len() == b@.len(),
        old(result)@.len() == c@.len(),
        triad_fits(a@, b@, c@),
    ensures
        as_ints(final(result)@) == triad_seq(a@, b@, c@),
{
    let n = a.len();
    let mut i: usize = 0;
    while i < n
        invariant
            0 <= i <= n,
            n == result@.len(),
            n == a@.len(),
            n == b@.len(),
            n == c@.len(),
            triad_fits(a@, b@, c@),
            forall|k: int| 0 <= k < i ==> result@[k] == a@[k] * c@[k] + b@[k],
        decreases n - i,
    {
        assert(fits(a@[i as int] * c@[i as int]));
        result[i] = triad(a[i], b[i], c[i]);
        i = i + STRIDE;
    }
    assert(as_ints(result@) =~= triad_seq(a@, b@, c@));
}

/// The vector triad written through `result`, which must be exactly as long as
/// the common length of `a`, `b` and `c`.
pub fn vtriad_itertools(result: &mut Vec<NumType>, a: &[NumType], b: &[NumType], c: &[NumType])
    requires
        old(result)@.len() == min_len(min_len(a@.len(), b@.len()), c@.len()),
        triad_fits(a@, b@, c@),
    ensures
        as_ints(final(result)@) == triad_seq(a@, b@, c@),
{
    vtriad_itertools_2(result.as_mut_slice(), a, b, c);
}

/// The vector triad over the common length of the four slices; entries of
/// `result` past that length are left as they were.
pub fn vtriad_itertools_2(result: &mut [NumType], a: &[NumType], b: &[NumType], c: &[NumType])
    requires
        triad_fits(a@, b@, c@),
    ensures
        final(result)@.len() == old(result)@.len(),
        forall|i: int| 0 <= i < old(result)@.len() ==> #[trigger] final(result)@[i] == if i < min_len(
            min_len(a@.len(), b@.len()),
            c@.len(),
        ) {
            a@[i] * c@[i] + b@[i]
        } else {
            old(result)@[i] as int
        },
{
    let n1 = if a.len() <= b.len() { a.len() } else { b.len() };
    let n2 = if n1 <= c.len() { n1 } else { c.len() };
    let n = if n2 <= result.len() { n2 } else { result.len() };
    let mut i: usize = 0;
    while i < n
        invariant
            0 <= i <= n,
            n2 == min_len(min_len(a@.len(), b@.len()), c@.len()),
            n == min_len(n2 as nat, old(result)@.len()),
            result@.len() == old(result)@.len(),
            triad_fits(a@, b@, c@),
            forall|k: int| 0 <= k < i ==> result@[k] == a@[k] * c@[k] + b@[k],
            forall|k: int| i <= k < result@.len() ==> result@[k] == old(result)@[k],
        decreases n - i,
    {
        assert(fits(a@[i as int] * c@[i as int]));
        result[i] = triad(a[i], b[i], c[i]);
        i = i + 1;
    }
}

/// Relies on rayon's `ParallelExtend::par_extend` for `Vec` over an indexed
/// zip of three slices: the mapped items are appended in index order, one per
/// index of the common length.
#[verifier::external_body]
fn par_extend_triad(result: &mut Vec<NumType>, a: &[NumType], b: &[NumType], c: &[NumType])
    requires
        triad_fits(a@, b@, c@),
    ensures
        as_ints(final(result)@) == as_ints(old(result)@) + triad_seq(a@, b@, c@),
{
    result.par_extend(a.par_iter().zip(b).zip(c).map(|((&x, &y), &z)| triad(x, y, z)));
}

/// The vector triad computed by parallel workers; `result` is replaced by the
/// triad over the common length of `a`, `b` and `c`.
pub fn vtriad_rayon(result: &mut Vec<NumType>, a: &[NumType], b: &[NumType], c: &[NumType])
    requires
        triad_fits(a@, b@, c@),
    ensures
        as_ints(final(result)@) == triad_seq(a@, b@, c@),
{
    result.clear();
    par_extend_triad(result, a, b, c);
    assert(as_ints(result@) =~= as_ints(Seq::empty()) + triad_seq(a@, b@, c@));
}

/// A group of lanes that can be written back into a slice of its scalars.
pub trait SimdItem: Sized {
    type Elem;

    /// The scalars of the group, in lane order.
    spec fn lanes(&self) -> Seq<Self::Elem>;

    /// Write the lanes into `array` from offset `idx` on.
    fn store(self, array: &mut [Self::Elem], idx: usize)
        requires
            idx + self.lanes().len() <= old(array)@.len(),
        ensures
            final(array)@ == old(array)@.take(idx as int) + self.lanes() + old(array)@.skip(
                idx + self.lanes().len(),
            ),
    ;
}

/// A scalar type with a lane group of `CHUNK_SIZE` of its values.
pub trait SimdCapable: Sized {
    type SimdType: SimdItem<Elem = Self>;

    /// The number of lanes in a group.
    spec fn chunk_size() -> nat;

    /// Read the group of lanes that starts at offset `idx` of `array`.
    fn load(array: &[Self], idx: usize) -> (r: Self::SimdType)
        requires
            idx + Self::chunk_size() <= array@.len(),
        ensures
            r.lanes() == array@.subrange(idx as int, idx + Self::chunk_size()),
    ;
}

impl SimdItem for [NumType; 4] {
    type Elem = NumType;

    open spec fn lanes(&self) -> Seq<NumType> {
        self@
    }

    fn store(self, array: &mut [NumType], idx: usize) {
        let n = array.len();
        let mut l: usize = 0;
        while l < 4
            invariant
                0 <= l <= 4,
                idx + 4 <= array@.len(),
                n == array@.len(),
                array@.len() == old(array)@.len(),
                forall|t: int| 0 <= t < array@.len() ==> #[trigger] array@[t] == if idx <= t < idx + l {
                    self@[t - idx]
                } else {
                    old(array)@[t]
                },
            decreases 4 - l,
        {
            array[idx + l] = self[l];
            l = l + 1;
        }
        assert(array@ =~= old(array)@.take(idx as int) + self@ + old(array)@.skip(idx + 4));
    }
}

impl SimdCapable for NumType {
    type SimdType = [NumType; 4];

    open spec fn chunk_size() -> nat {
        4
    }

    fn load(array: &[NumType], idx: usize) -> (r: [NumType; 4]) {
        let r = [array[idx], array[idx + 1], array[idx + 2], array[idx + 3]];
        assert(r@ =~= array@.subrange(idx as int, idx + 4));
        r
    }
}

/// The vector triad on one lane group each of `a`, `b` and `c`.
fn triad_lanes(x: [NumType; 4], y: [NumType; 4], z: [NumType; 4]) -> (r: [NumType; 4])
    requires
        forall|l: int| 0 <= l < 4 ==> #[trigger] fits(x@[l] * z@[l]) && fits(x@[l] * z@[l] + y@[l]),
    ensures
        forall|l: int| 0 <= l < 4 ==> #[trigger] r@[l] == x@[l] * z@[l] + y@[l],
{
    assert(fits(x@[0] * z@[0]) && fits(x@[1] * z@[1]) && fits(x@[2] * z@[2]) && fits(x@[3] * z@[3]));
    [
        triad(x[0], y[0], z[0]),
        triad(x[1], y[1], z[1]),
        triad(x[2], y[2], z[2]),
        triad(x[3], y[3], z[3]),
    ]
}

/// The vector triad over slices of one length, a lane group at a time; the
/// length is a multiple of the group size.
pub fn vtriad_simd(result: &mut [NumType], a: &[NumType], b: &[NumType], c: &[NumType])
    requires
        old(result)@.len() % 4 == 0,
        old(result)@.len() == a@.len(),
        old(result)@.len() == b@.len(),
        old(result)@.len() == c@.len(),
        triad_fits(a@, b@, c@),
    ensures
        as_ints(final(result)@) == triad_seq(a@, b@, c@),
{
    let len = result.len();
    let mut index: usize = 0;
    while index < len
        invariant
            0 <= index <= len,
            index % 4 == 0,
            len % 4 == 0,
            len == result@.len(),
            len == a@.len(),
            len == b@.len(),
            len == c@.len(),
            triad_fits(a@, b@, c@),
            forall|k: int| 0 <= k < index ==> result@[k] == a@[k] * c@[k] + b@[k],
        decreases len - index,
    {
        let x = NumType::load(a, index);
        let y = NumType::load(b, index);
        let z = NumType::load(c, index);
        assert forall|l: int| 0 <= l < 4 implies #[trigger] fits(x@[l] * z@[l]) && fits(x@[l] * z@[l] + y@[l]) by {
            assert(x@[l] == a@[index + l] && y@[l] == b@[index + l] && z@[l] == c@[index + l]);
            assert(fits(a@[index + l] * c@[index + l]));
        }
        let item = triad_lanes(x, y, z);
        let ghost before = result@;
        item.store(result, index);
        assert forall|k: int| 0 <= k < index + 4 implies result@[k] == a@[k] * c@[k] + b@[k] by {
            if k >= index {
                assert(result@[k] == item@[k - index]);
            } else {
                assert(result@[k] == before[k]);
            }
        }
        index = index + 4;
    }
    assert(as_ints(result@) =~= triad_seq(a@, b@, c@));
}

/// Relies on rayon's `par_chunks_mut` and `par_chunks` zipped together: chunk
/// `q` of `result` is handed with chunk `q` of `a`, `b` and `c`, all of the
/// group size, to `vtriad_simd`, each chunk once.
#[verifier::external_body]
fn par_vtriad_chunks(result: &mut [NumType], a: &[NumType], b: &[NumType], c: &[NumType])
    requires
        old(result)@.len() % 4 == 0,
        old(result)@.len() == a@.len(),
        old(result)@.len() == b@.len(),
        old(result)@.len() == c@.len(),
        triad_fits(a@, b@, c@),
    ensures
        final(result)@.len() == old(result)@.len(),
        forall|q: int| 0 <= q < old(result)@.len() / 4 ==> #[trigger] as_ints(
            final(result)@.subrange(4 * q, 4 * q + 4),
        ) == triad_seq(
            a@.subrange(4 * q, 4 * q + 4),
            b@.subrange(4 * q, 4 * q + 4),
            c@.subrange(4 * q, 4 * q + 4),
        ),
{
    result.par_chunks_mut(4).zip(a.par_chunks(4)).zip(b.par_chunks(4)).zip(c.par_chunks(4)).for_each(
        |(((r, x), y), z)| vtriad_simd(r, x, y, z),
    );
}

/// The vector triad over slices of one length, a lane group per parallel task;
/// the length is a multiple of the group size.
pub fn vtriad_simd_rayon(result: &mut [NumType], a: &[NumType], b: &[NumType], c: &[NumType])
    requires
        old(result)@.len() % 4 == 0,
        old(result)@.len() == a@.len(),
        old(result)@.len() == b@.len(),
        old(result)@.len() == c@.len(),
        triad_fits(a@, b@, c@),
    ensures
        as_ints(final(result)@) == triad_seq(a@, b@, c@),
{
    par_vtriad_chunks(result, a, b, c);
    assert forall|k: int| 0 <= k < result@.len() implies result@[k] == a@[k] * c@[k] + b@[k] by {
        let q = k / 4;
        assert(0 <= q < result@.len() / 4);
        let w = k - 4 * q;
        assert(0 <= w < 4);
        assert(as_ints(result@.subrange(4 * q, 4 * q + 4))[w] == result@[k]);
        assert(triad_seq(a@.subrange(4 * q, 4 * q + 4), b@.subrange(4 * q, 4 * q + 4), c@.subrange(4 * q, 4 * q + 4))[w]
            == a@[k] * c@[k] + b@[k]);
    }
    assert(as_ints(result@) =~= triad_seq(a@, b@, c@));
}

} // verus!
