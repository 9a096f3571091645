//! Cutting a volume into the 8-bit slices requested for a set of views.
use vstd::prelude::*;

use crate::slicing::{build_indices, slice_indices, window_valid, IndexWindow};
use crate::view::{view_axis, Axis};
use crate::volume::{extract_slice, intensity_bounds, plane_size, seq_max, seq_min, slice_pixels, Volume};

verus! {

/// One 8-bit gray slice, its pixels row after row, with where it was taken.
pub struct Slice {
    pub pixels: Vec<u8>,
    pub width: usize,
    pub height: usize,
    pub view: crate::view::View,
    pub index: usize,
}

/// The slices of a volume, in the order of the views and, for each view, of
/// the indices along its axis.
pub struct Slicer {
    pub slices: Vec<Slice>,
}

/// Why a volume cannot be sliced as asked.
#[derive(Clone, Copy, Debug, PartialEq, Eq, Structural)]
pub enum SliceError {
    /// No slice was asked for.
    NoSlices,
    /// The index window is empty or goes past the end of the axis.
    InvalidWindow,
    /// An index falls at or past the last voxel of its axis.
    IndexOutOfVolume,
}

/// The indices taken along the axis of `v`.
pub open spec fn view_indices(vol: &Volume, nb: nat, v: crate::view::View, w: IndexWindow) -> Seq<int> {
    slice_indices(vol.spec_dim(view_axis(v)), nb, w)
}

/// Every index taken for each of `views` lies inside the volume.
pub open spec fn indices_fit(vol: &Volume, nb: nat, views: Seq<crate::view::View>, w: IndexWindow) -> bool {
    forall|i: int, k: int|
        0 <= i < views.len() && 0 <= k < view_indices(vol, nb, views[i], w).len()
            ==> #[trigger] view_indices(vol, nb, views[i], w)[k] < vol.spec_dim(view_axis(views[i]))
}

/// The (view, index) pair of each slice, in order.
pub open spec fn slice_plan(vol: &Volume, nb: nat, views: Seq<crate::view::View>, w: IndexWindow) -> Seq<(crate::view::View, int)>
    decreases views.len(),
{
    if views.len() == 0 {
        Seq::empty()
    } else {
        let v = views.last();
        slice_plan(vol, nb, views.drop_last(), w) + view_indices(vol, nb, v, w).map_values(|x: int| (v, x))
    }
}

/// `s` is the slice at `index` along the axis of `view`, rescaled from `[lo, hi]`.
pub open spec fn slice_matches(s: Slice, vol: &Volume, view: crate::view::View, index: int, lo: int, hi: int) -> bool {
    &&& s.view == view
    &&& s.index == index
    &&& (s.width as nat, s.height as nat) == plane_size(vol, view_axis(view))
    &&& s.pixels@ == slice_pixels(vol, view_axis(view), index, lo, hi)
}

impl Slicer {
    /// Cuts `nb_slices` slices from `volume` along the axis of each of `views`,
    /// at the indices that `window` gives, and rescales their intensities from
    /// the range of the whole volume to 8 bits.
    pub fn from_3d(volume: &Volume, nb_slices: usize, views: &Vec<crate::view::View>, window: IndexWindow) -> (r: Result<Slicer, SliceError>)
        requires
            volume.wf(),
        ensures
            r == Err::<Slicer, SliceError>(SliceError::NoSlices) <==> nb_slices == 0,
            r == Err::<Slicer, SliceError>(SliceError::InvalidWindow) <==> nb_slices > 0 && !window_valid(window),
            r == Err::<Slicer, SliceError>(SliceError::IndexOutOfVolume) <==> nb_slices > 0 && window_valid(window)
                && !indices_fit(volume, nb_slices as nat, views@, window),
            r is Ok <==> nb_slices > 0 && window_valid(window) && indices_fit(volume, nb_slices as nat, views@, window),
            r matches Ok(s) ==> ({
                let plan = slice_plan(volume, nb_slices as nat, views@, window);
                &&& s.slices@.len() == plan.len()
                &&& forall|k: int| 0 <= k < plan.len() ==> slice_matches(
                    #[trigger] s.slices@[k], volume, plan[k].0, plan[k].1,
                    seq_min(volume.data@), seq_max(volume.data@))
            }),
    {
        if nb_slices == 0 {
            return Err(SliceError::NoSlices);
        }
        if !(window.min_permille < window.max_permille && window.max_permille <= crate::slicing::WINDOW_SCALE) {
            return Err(SliceError::InvalidWindow);
        }
        let (lo, hi) = intensity_bounds(&volume.data);
        let ghost nb = nb_slices as nat;
        let mut slices: Vec<Slice> = Vec::new();
        let mut v: usize = 0;
        while v < views.len()
            invariant
                volume.wf(),
                nb == nb_slices,
                nb_slices > 0,
                window_valid(window),
                v <= views@.len(),
                lo as int == seq_min(volume.data@),
                hi as int == seq_max(volume.data@),
                forall|k: int| 0 <= k < volume.data@.len() ==> lo <= #[trigger] volume.data@[k] <= hi,
                indices_fit(volume, nb, views@.subrange(0, v as int), window),
                slices@.len() == slice_plan(volume, nb, views@.subrange(0, v as int), window).len(),
                forall|k: int| 0 <= k < slices@.len() ==> slice_matches(
                    #[trigger] slices@[k], volume,
                    slice_plan(volume, nb, views@.subrange(0, v as int), window)[k].0,
                    slice_plan(volume, nb, views@.subrange(0, v as int), window)[k].1,
                    lo as int, hi as int),
            decreases views@.len() - v,
        {
            let view = views[v];
            let axis: Axis = view.axis();
            let dim: u16 = volume.dim(axis);
            let indices = build_indices(dim, nb_slices, window);
            let ghost prev = views@.subrange(0, v as int);
            let ghost next = views@.subrange(0, v as int + 1);
            let ghost prev_plan = slice_plan(volume, nb, prev, window);
            proof {
                assert(next.drop_last() =~= prev);
                assert(next.last() == view);
            }
            let ghost start = slices@.len();
            let mut t: usize = 0;
            while t < indices.len()
                invariant
                    volume.wf(),
                    nb == nb_slices,
                    nb_slices > 0,
                    window_valid(window),
                    view == views@[v as int],
                    v < views@.len(),
                    axis == view_axis(view),
                    dim as nat == volume.spec_dim(axis),
                    indices@.len() == view_indices(volume, nb, view, window).len(),
                    forall|i: int| 0 <= i < indices@.len() ==> indices@[i] as int == #[trigger] view_indices(volume, nb, view, window)[i],
                    forall|i: int| 0 <= i < t ==> #[trigger] indices@[i] < dim,
                    t <= indices@.len(),
                    lo as int == seq_min(volume.data@),
                    hi as int == seq_max(volume.data@),
                    forall|k: int| 0 <= k < volume.data@.len() ==> lo <= #[trigger] volume.data@[k] <= hi,
                    start == prev_plan.len(),
                    prev_plan == slice_plan(volume, nb, prev, window),
                    slices@.len() == start + t,
                    forall|k: int| 0 <= k < start ==> slice_matches(
                        #[trigger] slices@[k], volume, prev_plan[k].0, prev_plan[k].1, lo as int, hi as int),
                    forall|k: int| start <= k < start + t ==> slice_matches(
                        #[trigger] slices@[k], volume, view, indices@[k - start] as int, lo as int, hi as int),
                decreases indices@.len() - t,
            {
                let index = indices[t];
                if index >= dim as usize {
                    proof {
                        assert(view_indices(volume, nb, views@[v as int], window)[t as int] >= volume.spec_dim(view_axis(views@[v as int])));
                        assert(!indices_fit(volume, nb, views@, window));
                    }
                    return Err(SliceError::IndexOutOfVolume);
                }
                let pixels = extract_slice(volume, axis, index as u16, lo, hi);
                let (width, height): (usize, usize) = match axis {
                    Axis::Sagittal => (volume.dims[1] as usize, volume.dims[2] as usize),
                    Axis::Coronal => (volume.dims[0] as usize, volume.dims[2] as usize),
                    Axis::Axial => (volume.dims[0] as usize, volume.dims[1] as usize),
                };
                slices.push(Slice { pixels, width, height, view, index });
                t += 1;
            }
            proof {
                let next_plan = slice_plan(volume, nb, next, window);
                assert(next_plan == prev_plan + view_indices(volume, nb, view, window).map_values(|x: int| (view, x)));
                assert forall|i: int, k: int|
                    0 <= i < next.len() && 0 <= k < view_indices(volume, nb, next[i], window).len()
                        implies #[trigger] view_indices(volume, nb, next[i], window)[k] < volume.spec_dim(view_axis(next[i])) by {
                    if i < v {
                        assert(next[i] == prev[i]);
                    } else {
                        assert(indices@[k] < dim);
                    }
                }
                assert forall|k: int| 0 <= k < slices@.len() implies slice_matches(
                    #[trigger] slices@[k], volume, next_plan[k].0, next_plan[k].1, lo as int, hi as int) by {
                    if k >= start {
                        assert(next_plan[k] == (view, view_indices(volume, nb, view, window)[k - start]));
                    }
                }
            }
            v += 1;
        }
        proof {
            assert(views@.subrange(0, views@.len() as int) =~= views@);
        }
        Ok(Slicer { slices })
    }
}

} // verus!
