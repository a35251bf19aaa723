//! Regions, pixel rectangles and crop planning.
//!
//! A [`Region`] is one annotated bounding box: a resolved person label, a
//! confidence, and normalized coordinates, all as fixed-point fractions over
//! [`FRAC_SCALE`]. [`plan_crops`] turns the region list of a decoded image
//! into the exact sequence of crop commands owed for it: one command per
//! region whose confidence reaches [`REQUIRED_CONFIDENCE`], in list order,
//! with the pixel rectangle derived from the X extent for the width and from
//! the Y extent for the height.

use vstd::prelude::*;
use vstd::arithmetic::div_mod::{
    lemma_div_is_ordered, lemma_div_multiples_vanish, lemma_fundamental_div_mod,
    lemma_fundamental_div_mod_converse, lemma_mod_bound,
};
use crate::fixed::{FRAC_SCALE, is_unit_frac};

verus! {

/// The two labels a region can carry once the vocabulary is resolved.
#[derive(Clone, Copy, PartialEq, Eq, Structural, Debug)]
pub enum PersonLabel {
    Woman,
    Man,
}

/// Minimum confidence, over [`FRAC_SCALE`], that a region must reach to be
/// cropped: one half.
pub const REQUIRED_CONFIDENCE: u32 = 500000;

/// One annotated bounding box with normalized coordinates, origin top-left.
#[derive(Clone, Copy, PartialEq, Eq, Structural, Debug)]
pub struct Region {
    pub label: PersonLabel,
    pub confidence: u32,
    pub x_min: u32,
    pub x_max: u32,
    pub y_min: u32,
    pub y_max: u32,
}

impl Region {
    /// All fractions lie in the unit interval.
    pub open spec fn wf(&self) -> bool {
        &&& is_unit_frac(self.confidence)
        &&& is_unit_frac(self.x_min)
        &&& is_unit_frac(self.x_max)
        &&& is_unit_frac(self.y_min)
        &&& is_unit_frac(self.y_max)
    }
}

/// A pixel rectangle inside a decoded image.
#[derive(Clone, Copy, PartialEq, Eq, Structural, Debug)]
pub struct CropRect {
    pub x: u32,
    pub y: u32,
    pub width: u32,
    pub height: u32,
}

/// One crop owed for an image: the region's label, the region's position in
/// the image's region list (which names the output file), and the pixel
/// rectangle to cut.
#[derive(Clone, Copy, PartialEq, Eq, Structural, Debug)]
pub struct CropCommand {
    pub label: PersonLabel,
    pub index: usize,
    pub rect: CropRect,
}

/// A normalized extent scaled to a pixel dimension, truncated to whole pixels.
pub open spec fn scaled_floor(frac: int, dim: int) -> int {
    frac * dim / (FRAC_SCALE as int)
}

/// The same extent rounded to the nearest whole pixel.
pub open spec fn scaled_round(frac: int, dim: int) -> int {
    (frac * dim + (FRAC_SCALE as int) / 2) / (FRAC_SCALE as int)
}

/// The pixel rectangle of a region inside a `w` by `h` image: the left edge
/// and the width come from the X coordinates alone, the top edge and the
/// height from the Y coordinates alone. An inverted extent yields zero size.
pub open spec fn spec_crop_rect(r: Region, w: u32, h: u32) -> CropRect {
    CropRect {
        x: scaled_floor(r.x_min as int, w as int) as u32,
        y: scaled_floor(r.y_min as int, h as int) as u32,
        width: if r.x_min <= r.x_max {
            scaled_floor(r.x_max - r.x_min, w as int) as u32
        } else {
            0
        },
        height: if r.y_min <= r.y_max {
            scaled_floor(r.y_max - r.y_min, h as int) as u32
        } else {
            0
        },
    }
}

/// Whether a region's confidence reaches the cropping threshold.
pub open spec fn region_qualifies(r: Region) -> bool {
    r.confidence >= REQUIRED_CONFIDENCE
}

/// The crops owed for a region list inside a `w` by `h` image: the
/// qualifying regions in list order, each under its list position.
pub open spec fn spec_plan_crops(rs: Seq<Region>, w: u32, h: u32) -> Seq<CropCommand>
    decreases rs.len(),
{
    if rs.len() == 0 {
        Seq::<CropCommand>::empty()
    } else {
        let prefix = spec_plan_crops(rs.drop_last(), w, h);
        if region_qualifies(rs.last()) {
            prefix.push(
                CropCommand {
                    label: rs.last().label,
                    index: (rs.len() - 1) as usize,
                    rect: spec_crop_rect(rs.last(), w, h),
                },
            )
        } else {
            prefix
        }
    }
}

/// Scales a unit fraction to a pixel dimension, truncating to whole pixels.
fn scale_dim(frac: u32, dim: u32) -> (r: u32)
    requires
        is_unit_frac(frac),
    ensures
        r == scaled_floor(frac as int, dim as int),
        r <= dim,
{
    proof {
        assert((frac as int) * (dim as int) <= (FRAC_SCALE as int) * (dim as int)) by (
        nonlinear_arith)
            requires
                0 <= frac as int <= FRAC_SCALE as int,
                0 <= dim as int,
        ;
        assert((FRAC_SCALE as int) * (dim as int) <= (FRAC_SCALE as int) * (u32::MAX as int)) by (
        nonlinear_arith)
            requires
                0 <= dim as int <= u32::MAX as int,
        ;
    }
    let p: u64 = (frac as u64) * (dim as u64);
    let q: u64 = p / (FRAC_SCALE as u64);
    proof {
        lemma_div_is_ordered(
            (frac as int) * (dim as int),
            (FRAC_SCALE as int) * (dim as int),
            FRAC_SCALE as int,
        );
        lemma_div_multiples_vanish(dim as int, FRAC_SCALE as int);
    }
    q as u32
}

/// Computes the pixel rectangle of one region inside a `w` by `h` image.
pub fn crop_rect(region: &Region, w: u32, h: u32) -> (r: CropRect)
    requires
        region.wf(),
    ensures
        r == spec_crop_rect(*region, w, h),
        r.x <= w,
        r.y <= h,
        r.width <= w,
        r.height <= h,
{
    let x = scale_dim(region.x_min, w);
    let y = scale_dim(region.y_min, h);
    let width = if region.x_min <= region.x_max {
        scale_dim(region.x_max - region.x_min, w)
    } else {
        0
    };
    let height = if region.y_min <= region.y_max {
        scale_dim(region.y_max - region.y_min, h)
    } else {
        0
    };
    CropRect { x, y, width, height }
}

/// Plans the crops for one image: one command per qualifying region, in
/// region-list order, each carrying its region's list position and pixel
/// rectangle.
pub fn plan_crops(regions: &Vec<Region>, w: u32, h: u32) -> (plan: Vec<CropCommand>)
    requires
        forall|i: int| 0 <= i < regions@.len() ==> (#[trigger] regions@[i]).wf(),
    ensures
        plan@ == spec_plan_crops(regions@, w, h),
{
    let mut plan: Vec<CropCommand> = Vec::new();
    let mut i: usize = 0;
    while i < regions.len()
        invariant
            0 <= i <= regions@.len(),
            forall|k: int| 0 <= k < regions@.len() ==> (#[trigger] regions@[k]).wf(),
            plan@ == spec_plan_crops(regions@.take(i as int), w, h),
        decreases regions@.len() - i,
    {
        let region = regions[i];
        proof {
            assert(regions@.take(i + 1).drop_last() =~= regions@.take(i as int));
            assert(regions@.take(i + 1).last() == regions@[i as int]);
        }
        if region.confidence >= REQUIRED_CONFIDENCE {
            let rect = crop_rect(&region, w, h);
            plan.push(CropCommand { label: region.label, index: i, rect });
        }
        i = i + 1;
    }
    proof {
        assert(regions@.take(regions@.len() as int) =~= regions@);
    }
    plan
}

/// Every planned crop points at a qualifying region and carries exactly that
/// region's label and pixel rectangle: a region below the confidence
/// threshold never yields a command.
pub proof fn lemma_plan_crops_sound(rs: Seq<Region>, w: u32, h: u32)
    requires
        rs.len() <= usize::MAX,
    ensures
        forall|j: int|
            0 <= j < spec_plan_crops(rs, w, h).len() ==> {
                let c = #[trigger] spec_plan_crops(rs, w, h)[j];
                &&& 0 <= c.index < rs.len()
                &&& region_qualifies(rs[c.index as int])
                &&& c.label == rs[c.index as int].label
                &&& c.rect == spec_crop_rect(rs[c.index as int], w, h)
            },
    decreases rs.len(),
{
    if rs.len() > 0 {
        lemma_plan_crops_sound(rs.drop_last(), w, h);
        assert forall|j: int| 0 <= j < spec_plan_crops(rs, w, h).len() implies {
            let c = #[trigger] spec_plan_crops(rs, w, h)[j];
            &&& 0 <= c.index < rs.len()
            &&& region_qualifies(rs[c.index as int])
            &&& c.label == rs[c.index as int].label
            &&& c.rect == spec_crop_rect(rs[c.index as int], w, h)
        } by {
            let plan = spec_plan_crops(rs, w, h);
            let prefix = spec_plan_crops(rs.drop_last(), w, h);
            if j < prefix.len() {
                assert(plan[j] == prefix[j]);
                assert(rs.drop_last()[prefix[j].index as int] == rs[prefix[j].index as int]);
            } else {
                assert(region_qualifies(rs.last()));
                assert(plan[j] == plan.last());
                assert(rs[rs.len() - 1] == rs.last());
            }
        }
    }
}

/// A region whose confidence is below the threshold contributes no crop
/// command at all.
pub proof fn lemma_low_confidence_not_cropped(rs: Seq<Region>, w: u32, h: u32, i: int)
    requires
        rs.len() <= usize::MAX,
        0 <= i < rs.len(),
        rs[i].confidence < REQUIRED_CONFIDENCE,
    ensures
        forall|j: int|
            0 <= j < spec_plan_crops(rs, w, h).len() ==> (#[trigger] spec_plan_crops(rs, w, h)[j]).index
                != i,
{
    lemma_plan_crops_sound(rs, w, h);
}

/// Every region at or above the confidence threshold yields a crop command
/// under its own list position, with its exact pixel rectangle.
pub proof fn lemma_plan_crops_complete(rs: Seq<Region>, w: u32, h: u32, i: int)
    requires
        rs.len() <= usize::MAX,
        0 <= i < rs.len(),
        region_qualifies(rs[i]),
    ensures
        exists|j: int|
            0 <= j < spec_plan_crops(rs, w, h).len() && (#[trigger] spec_plan_crops(rs, w, h)[j])
                == (CropCommand {
                label: rs[i].label,
                index: i as usize,
                rect: spec_crop_rect(rs[i], w, h),
            }),
    decreases rs.len(),
{
    let plan = spec_plan_crops(rs, w, h);
    let prefix = spec_plan_crops(rs.drop_last(), w, h);
    if i == rs.len() - 1 {
        assert(plan[plan.len() - 1] == (CropCommand {
            label: rs[i].label,
            index: i as usize,
            rect: spec_crop_rect(rs[i], w, h),
        }));
    } else {
        assert(rs.drop_last()[i] == rs[i]);
        lemma_plan_crops_complete(rs.drop_last(), w, h, i);
        let j = choose|j: int|
            0 <= j < prefix.len() && prefix[j] == (CropCommand {
                label: rs[i].label,
                index: i as usize,
                rect: spec_crop_rect(rs[i], w, h),
            });
        assert(plan[j] == prefix[j]);
    }
}

/// Truncating and rounding agree whenever the scaled product's remainder is
/// below one half of the scale; the planned rectangles then equal the
/// nearest-pixel rounding of the normalized extents.
pub proof fn lemma_floor_matches_round(frac: int, dim: int)
    requires
        0 <= frac,
        0 <= dim,
        2 * ((frac * dim) % (FRAC_SCALE as int)) < FRAC_SCALE as int,
    ensures
        scaled_floor(frac, dim) == scaled_round(frac, dim),
{
    let s = FRAC_SCALE as int;
    let p = frac * dim;
    lemma_fundamental_div_mod(p, s);
    lemma_mod_bound(p, s);
    let q = p / s;
    let r = p % s;
    assert(p + s / 2 == q * s + (r + s / 2));
    lemma_fundamental_div_mod_converse(p + s / 2, s, q, r + s / 2);
}

/// On regions whose scaled extents leave a remainder below one half of the
/// scale, the planned rectangle is also the nearest-pixel rounding of
/// `(xMin*W, yMin*H, (xMax-xMin)*W, (yMax-yMin)*H)`.
pub proof fn lemma_crop_rect_rounded(r: Region, w: u32, h: u32)
    requires
        r.wf(),
        r.x_min <= r.x_max,
        r.y_min <= r.y_max,
        2 * (((r.x_min as int) * (w as int)) % (FRAC_SCALE as int)) < FRAC_SCALE as int,
        2 * (((r.y_min as int) * (h as int)) % (FRAC_SCALE as int)) < FRAC_SCALE as int,
        2 * (((r.x_max - r.x_min) * (w as int)) % (FRAC_SCALE as int)) < FRAC_SCALE as int,
        2 * (((r.y_max - r.y_min) * (h as int)) % (FRAC_SCALE as int)) < FRAC_SCALE as int,
    ensures
        spec_crop_rect(r, w, h) == (CropRect {
            x: scaled_round(r.x_min as int, w as int) as u32,
            y: scaled_round(r.y_min as int, h as int) as u32,
            width: scaled_round(r.x_max - r.x_min, w as int) as u32,
            height: scaled_round(r.y_max - r.y_min, h as int) as u32,
        }),
{
    lemma_floor_matches_round(r.x_min as int, w as int);
    lemma_floor_matches_round(r.y_min as int, h as int);
    lemma_floor_matches_round(r.x_max - r.x_min, w as int);
    lemma_floor_matches_round(r.y_max - r.y_min, h as int);
}

} // verus!
