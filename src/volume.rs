//! A volume of scalar intensities and the 8-bit slices cut out of it.
use vstd::arithmetic::div_mod::lemma_fundamental_div_mod_converse;
use vstd::prelude::*;

use crate::view::{axis_index, Axis};

verus! {

/// A 3D grid of intensities, stored with the first axis varying fastest
/// (the order of NIfTI files): voxel `(x, y, z)` is at
/// `x + dims[0] * (y + dims[1] * z)`.
pub struct Volume {
    pub dims: [u16; 3],
    pub data: Vec<i32>,
}

/// Offset in storage of the voxel at coordinates `c`.
pub open spec fn voxel_offset(dims: Seq<u16>, c: (int, int, int)) -> int {
    c.0 + dims[0] * (c.1 + dims[1] * c.2)
}

/// The two axes that span a slice taken along `axis`, in storage order: the
/// first runs along a row of the slice, the second from row to row.
pub open spec fn plane_axes(axis: Axis) -> (nat, nat) {
    match axis {
        Axis::Sagittal => (1, 2),
        Axis::Coronal => (0, 2),
        Axis::Axial => (0, 1),
    }
}

/// Coordinates of pixel `(i, j)` of the slice at `index` along `axis`.
pub open spec fn plane_coords(axis: Axis, index: int, i: int, j: int) -> (int, int, int) {
    match axis {
        Axis::Sagittal => (index, i, j),
        Axis::Coronal => (i, index, j),
        Axis::Axial => (i, j, index),
    }
}

/// `x` mapped linearly from `[lo, hi]` onto `[0, 255]`, truncated; every
/// value maps to 0 when the range is a single value.
pub open spec fn rescale(x: int, lo: int, hi: int) -> int {
    if hi <= lo {
        0
    } else {
        ((x - lo) * 255) / (hi - lo)
    }
}

/// Smallest value of a non-empty sequence.
pub open spec fn seq_min(s: Seq<i32>) -> int
    decreases s.len(),
{
    if s.len() <= 1 {
        if s.len() == 1 { s[0] as int } else { 0 }
    } else {
        let m = seq_min(s.drop_last());
        if s.last() < m { s.last() as int } else { m }
    }
}

/// Largest value of a non-empty sequence.
pub open spec fn seq_max(s: Seq<i32>) -> int
    decreases s.len(),
{
    if s.len() <= 1 {
        if s.len() == 1 { s[0] as int } else { 0 }
    } else {
        let m = seq_max(s.drop_last());
        if s.last() > m { s.last() as int } else { m }
    }
}

impl Volume {
    /// The data holds exactly one intensity per voxel.
    pub open spec fn wf(&self) -> bool {
        self.data@.len() == self.dims@[0] * self.dims@[1] * self.dims@[2]
    }

    /// Number of voxels along `axis`.
    pub open spec fn spec_dim(&self, axis: Axis) -> nat {
        self.dims@[axis_index(axis) as int] as nat
    }

    /// Intensity of the voxel at coordinates `c`.
    pub open spec fn voxel(&self, c: (int, int, int)) -> int {
        self.data@[voxel_offset(self.dims@, c)] as int
    }

    /// Number of voxels along `axis`.
    pub fn dim(&self, axis: Axis) -> (r: u16)
        ensures
            r as nat == self.spec_dim(axis),
    {
        self.dims[axis.index()]
    }
}

/// Width and height of the slices taken along `axis`.
pub open spec fn plane_size(vol: &Volume, axis: Axis) -> (nat, nat) {
    (vol.dims@[plane_axes(axis).0 as int] as nat, vol.dims@[plane_axes(axis).1 as int] as nat)
}

/// Pixels, row after row, of the slice at `index` along `axis`, with
/// intensities rescaled from `[lo, hi]`.
pub open spec fn slice_pixels(vol: &Volume, axis: Axis, index: int, lo: int, hi: int) -> Seq<u8> {
    let (w, h) = plane_size(vol, axis);
    Seq::new(w * h, |k: int| rescale(vol.voxel(plane_coords(axis, index, k % w as int, k / w as int)), lo, hi) as u8)
}

proof fn lemma_offset_in_bounds(d0: int, d1: int, d2: int, c0: int, c1: int, c2: int)
    requires
        0 <= c0 < d0,
        0 <= c1 < d1,
        0 <= c2 < d2,
    ensures
        0 <= c1 + d1 * c2 < d1 * d2,
        0 <= c0 + d0 * (c1 + d1 * c2) < d0 * d1 * d2,
{
    assert(0 <= c1 + d1 * c2 <= d1 * d2 - 1) by (nonlinear_arith)
        requires 0 <= c1 < d1, 0 <= c2 < d2;
    assert(0 <= c0 + d0 * (c1 + d1 * c2) <= d0 * (d1 * d2) - 1) by (nonlinear_arith)
        requires 0 <= c0 < d0, 0 <= c1 + d1 * c2 <= d1 * d2 - 1;
    assert(d0 * (d1 * d2) == d0 * d1 * d2) by (nonlinear_arith);
}

/// `x` mapped from `[lo, hi]` onto `[0, 255]`, truncated.
pub fn rescale_intensity(x: i32, lo: i32, hi: i32) -> (r: u8)
    requires
        lo <= x <= hi,
    ensures
        r as int == rescale(x as int, lo as int, hi as int),
{
    if hi <= lo {
        return 0;
    }
    let num: i64 = (x as i64 - lo as i64) * 255;
    let den: i64 = hi as i64 - lo as i64;
    proof {
        assert(num / den <= 255) by (nonlinear_arith)
            requires num == (x - lo) * 255, den == hi - lo, den > 0, x <= hi, x >= lo;
        assert(num / den >= 0) by (nonlinear_arith)
            requires num >= 0, den > 0;
    }
    (num / den) as u8
}

/// The smallest and the largest intensity of `data`; `(0, 0)` when it is empty.
pub fn intensity_bounds(data: &Vec<i32>) -> (r: (i32, i32))
    ensures
        r.0 as int == seq_min(data@),
        r.1 as int == seq_max(data@),
        data@.len() > 0 ==> forall|k: int| 0 <= k < data@.len() ==> r.0 <= #[trigger] data@[k] <= r.1,
{
    if data.len() == 0 {
        return (0, 0);
    }
    let mut lo: i32 = data[0];
    let mut hi: i32 = data[0];
    let mut i: usize = 1;
    while i < data.len()
        invariant
            1 <= i <= data@.len(),
            lo as int == seq_min(data@.subrange(0, i as int)),
            hi as int == seq_max(data@.subrange(0, i as int)),
            forall|k: int| 0 <= k < i ==> lo <= #[trigger] data@[k] <= hi,
        decreases data@.len() - i,
    {
        proof {
            assert(data@.subrange(0, i as int + 1).drop_last() =~= data@.subrange(0, i as int));
        }
        if data[i] < lo {
            lo = data[i];
        }
        if data[i] > hi {
            hi = data[i];
        }
        i += 1;
    }
    assert(data@.subrange(0, data@.len() as int) =~= data@);
    (lo, hi)
}

/// The slice at `index` along `axis`, row after row, with intensities
/// rescaled from `[lo, hi]` to 8 bits.
pub fn extract_slice(vol: &Volume, axis: Axis, index: u16, lo: i32, hi: i32) -> (r: Vec<u8>)
    requires
        vol.wf(),
        index < vol.spec_dim(axis),
        forall|k: int| 0 <= k < vol.data@.len() ==> lo <= #[trigger] vol.data@[k] <= hi,
    ensures
        r@ == slice_pixels(vol, axis, index as int, lo as int, hi as int),
{
    let (w, h): (usize, usize) = match axis {
        Axis::Sagittal => (vol.dims[1] as usize, vol.dims[2] as usize),
        Axis::Coronal => (vol.dims[0] as usize, vol.dims[2] as usize),
        Axis::Axial => (vol.dims[0] as usize, vol.dims[1] as usize),
    };
    let d0: usize = vol.dims[0] as usize;
    let d1: usize = vol.dims[1] as usize;
    let ghost expected = slice_pixels(vol, axis, index as int, lo as int, hi as int);
    proof {
        assert(w * h <= 0xffff * 0xffff) by (nonlinear_arith) requires w <= 0xffff, h <= 0xffff;
    }
    let len: usize = vol.data.len();
    let mut out: Vec<u8> = Vec::new();
    let mut j: usize = 0;
    while j < h
        invariant
            len == vol.data@.len(),
            vol.wf(),
            index < vol.spec_dim(axis),
            forall|k: int| 0 <= k < vol.data@.len() ==> lo <= #[trigger] vol.data@[k] <= hi,
            (w as nat, h as nat) == plane_size(vol, axis),
            d0 == vol.dims@[0],
            d1 == vol.dims@[1],
            w * h <= 0xffff * 0xffff,
            j <= h,
            expected == slice_pixels(vol, axis, index as int, lo as int, hi as int),
            out@ =~= expected.subrange(0, j * w),
        decreases h - j,
    {
        let mut i: usize = 0;
        proof {
            assert(j * w + w <= w * h) by (nonlinear_arith) requires j < h;
        }
        while i < w
            invariant
                len == vol.data@.len(),
                vol.wf(),
                index < vol.spec_dim(axis),
                forall|k: int| 0 <= k < vol.data@.len() ==> lo <= #[trigger] vol.data@[k] <= hi,
                (w as nat, h as nat) == plane_size(vol, axis),
                d0 == vol.dims@[0],
                d1 == vol.dims@[1],
                w * h <= 0xffff * 0xffff,
                j < h,
                i <= w,
                j * w + w <= w * h,
                expected == slice_pixels(vol, axis, index as int, lo as int, hi as int),
                out@ =~= expected.subrange(0, j * w + i),
            decreases w - i,
        {
            let (c0, c1, c2): (usize, usize, usize) = match axis {
                Axis::Sagittal => (index as usize, i, j),
                Axis::Coronal => (i, index as usize, j),
                Axis::Axial => (i, j, index as usize),
            };
            proof {
                lemma_offset_in_bounds(
                    vol.dims@[0] as int, vol.dims@[1] as int, vol.dims@[2] as int,
                    c0 as int, c1 as int, c2 as int,
                );
                lemma_fundamental_div_mod_converse(j * w + i, w as int, j as int, i as int);
                assert(vol.dims@[1] * vol.dims@[2] <= 0xffff * 0xffff) by (nonlinear_arith)
                    requires vol.dims@[1] <= 0xffff, vol.dims@[2] <= 0xffff;
                assert((c0 as int, c1 as int, c2 as int) == plane_coords(axis, index as int, i as int, j as int));
            }
            let offset: usize = c0 + d0 * (c1 + d1 * c2);
            out.push(rescale_intensity(vol.data[offset], lo, hi));
            i += 1;
        }
        proof {
            assert((j + 1) * w == j * w + w) by (nonlinear_arith);
        }
        j += 1;
    }
    proof {
        assert(j * w == w * h) by (nonlinear_arith) requires j == h;
    }
    out
}

/// Rescaling sends the smallest intensity to 0 and, when the range holds
/// more than one value, the largest to 255; a larger intensity never maps
/// below a smaller one.
pub proof fn lemma_rescale_range(lo: int, hi: int, x: int, y: int)
    requires
        lo <= x <= y <= hi,
    ensures
        rescale(lo, lo, hi) == 0,
        lo < hi ==> rescale(hi, lo, hi) == 255,
        rescale(x, lo, hi) <= rescale(y, lo, hi),
        0 <= rescale(x, lo, hi) <= 255,
{
    if lo < hi {
        vstd::arithmetic::div_mod::lemma_div_multiples_vanish(255, hi - lo);
        assert((hi - lo) * 255 == 255 * (hi - lo)) by (nonlinear_arith);
        assert((x - lo) * 255 <= (y - lo) * 255) by (nonlinear_arith) requires x <= y;
        assert(0 <= (x - lo) * 255) by (nonlinear_arith) requires lo <= x;
        assert((y - lo) * 255 <= (hi - lo) * 255) by (nonlinear_arith) requires y <= hi;
        vstd::arithmetic::div_mod::lemma_div_is_ordered((x - lo) * 255, (y - lo) * 255, hi - lo);
        vstd::arithmetic::div_mod::lemma_div_is_ordered((y - lo) * 255, (hi - lo) * 255, hi - lo);
        vstd::arithmetic::div_mod::lemma_div_pos_is_pos((x - lo) * 255, hi - lo);
    }
}

proof fn lemma_seq_bounds(s: Seq<i32>)
    ensures
        forall|k: int| 0 <= k < s.len() ==> seq_min(s) <= #[trigger] s[k] <= seq_max(s),
    decreases s.len(),
{
    if s.len() > 1 {
        lemma_seq_bounds(s.drop_last());
        assert forall|k: int| 0 <= k < s.len() implies seq_min(s) <= #[trigger] s[k] <= seq_max(s) by {
            if k < s.len() - 1 {
                assert(s.drop_last()[k] == s[k]);
            }
        }
    }
}

proof fn lemma_pixel_in_range(vol: &Volume, axis: Axis, index: int, k: int)
    requires
        vol.wf(),
        0 <= index < vol.spec_dim(axis),
        0 <= k < plane_size(vol, axis).0 * plane_size(vol, axis).1,
    ensures
        ({
            let w = plane_size(vol, axis).0 as int;
            let x = vol.voxel(plane_coords(axis, index, k % w, k / w));
            &&& seq_min(vol.data@) <= x <= seq_max(vol.data@)
            &&& slice_pixels(vol, axis, index, seq_min(vol.data@), seq_max(vol.data@))[k]
                == rescale(x, seq_min(vol.data@), seq_max(vol.data@))
        }),
{
    let (w, h) = plane_size(vol, axis);
    let (wi, hi) = (w as int, h as int);
    assert(wi > 0) by (nonlinear_arith) requires 0 <= k < wi * hi, wi >= 0, hi >= 0;
    vstd::arithmetic::div_mod::lemma_fundamental_div_mod(k, wi);
    vstd::arithmetic::div_mod::lemma_mod_pos_bound(k, wi);
    vstd::arithmetic::div_mod::lemma_div_pos_is_pos(k, wi);
    assert(k / wi < hi) by (nonlinear_arith)
        requires k == wi * (k / wi) + k % wi, k % wi >= 0, k < wi * hi, wi > 0;
    let c = plane_coords(axis, index, k % wi, k / wi);
    lemma_offset_in_bounds(
        vol.dims@[0] as int, vol.dims@[1] as int, vol.dims@[2] as int, c.0, c.1, c.2,
    );
    lemma_seq_bounds(vol.data@);
    let x = vol.voxel(c);
    assert(vol.data@[voxel_offset(vol.dims@, c)] as int == x);
    lemma_rescale_range(seq_min(vol.data@), seq_max(vol.data@), x, x);
}

/// Each pixel of every slice is its voxel's intensity rescaled from the range
/// of the whole volume: the volume's smallest intensity gives 0, its largest
/// gives 255 when the two differ, and across any two slices a larger
/// intensity never gives a smaller pixel.
pub proof fn lemma_slice_pixels_rescaled(
    vol: &Volume,
    a1: Axis,
    i1: int,
    k1: int,
    a2: Axis,
    i2: int,
    k2: int,
)
    requires
        vol.wf(),
        0 <= i1 < vol.spec_dim(a1),
        0 <= i2 < vol.spec_dim(a2),
        0 <= k1 < plane_size(vol, a1).0 * plane_size(vol, a1).1,
        0 <= k2 < plane_size(vol, a2).0 * plane_size(vol, a2).1,
    ensures
        ({
            let lo = seq_min(vol.data@);
            let hi = seq_max(vol.data@);
            let w1 = plane_size(vol, a1).0 as int;
            let w2 = plane_size(vol, a2).0 as int;
            let x1 = vol.voxel(plane_coords(a1, i1, k1 % w1, k1 / w1));
            let x2 = vol.voxel(plane_coords(a2, i2, k2 % w2, k2 / w2));
            let p1 = slice_pixels(vol, a1, i1, lo, hi)[k1];
            let p2 = slice_pixels(vol, a2, i2, lo, hi)[k2];
            &&& p1 as int == rescale(x1, lo, hi)
            &&& x1 == lo ==> p1 == 0
            &&& x1 == hi && lo < hi ==> p1 == 255
            &&& x1 <= x2 ==> p1 <= p2
        }),
{
    let lo = seq_min(vol.data@);
    let hi = seq_max(vol.data@);
    lemma_pixel_in_range(vol, a1, i1, k1);
    lemma_pixel_in_range(vol, a2, i2, k2);
    let w1 = plane_size(vol, a1).0 as int;
    let w2 = plane_size(vol, a2).0 as int;
    let x1 = vol.voxel(plane_coords(a1, i1, k1 % w1, k1 / w1));
    let x2 = vol.voxel(plane_coords(a2, i2, k2 % w2, k2 / w2));
    lemma_rescale_range(lo, hi, x1, x1);
    lemma_rescale_range(lo, hi, x2, x2);
    if x1 <= x2 {
        lemma_rescale_range(lo, hi, x1, x2);
    }
}

} // verus!
