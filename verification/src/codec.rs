//! The image codec boundary.
//!
//! Decoding and cropping are done by the `image` crate behind thin trusted
//! wrappers; everything decided here — which regions are cropped, at which
//! pixel rectangles, under which labels — is computed by verified code and
//! handed to the codec as plain numbers. [`crops_from_bytes`] is the piece
//! of the per-image pipeline that runs between fetch and file write: it
//! decodes the fetched bytes and cuts one sub-image per planned crop.

use vstd::prelude::*;
use vstd::string::StringExecFns;
use crate::crop::{CropCommand, PersonLabel, Region, plan_crops, spec_plan_crops};

verus! {

#[verifier::external_type_specification]
#[verifier::external_body]
pub struct ExDynamicImage(image::DynamicImage);

/// Whether the codec decodes these bytes into an image; decoding is a pure
/// function of the bytes.
pub uninterp spec fn decodes_ok(bytes: Seq<u8>) -> bool;

/// Relies on image::load_from_memory: guesses the format and decodes the
/// bytes, succeeding or failing on the bytes alone.
#[verifier::external_body]
fn decode_image(bytes: &Vec<u8>) -> (r: Option<image::DynamicImage>)
    ensures
        r is Some <==> decodes_ok(bytes@),
{
    image::load_from_memory(bytes.as_slice()).ok()
}

/// Relies on image::GenericImageView::dimensions: the pixel width and
/// height of a decoded image.
#[verifier::external_body]
fn image_dimensions(img: &image::DynamicImage) -> (dims: (u32, u32)) {
    image::GenericImageView::dimensions(img)
}

/// Relies on image::DynamicImage::crop_imm: cuts the rectangle out of the
/// image, clamping it to the image bounds, without touching the original.
#[verifier::external_body]
fn crop_image(img: &image::DynamicImage, x: u32, y: u32, width: u32, height: u32) -> (r:
    image::DynamicImage) {
    img.crop_imm(x, y, width, height)
}

/// One cut sub-image together with the command that produced it.
pub struct CropOutput {
    pub image: image::DynamicImage,
    pub command: CropCommand,
}

/// The commands of a crop-output list.
pub open spec fn crop_commands(s: Seq<CropOutput>) -> Seq<CropCommand> {
    s.map_values(|c: CropOutput| c.command)
}

/// Everything cut out of one decoded image, with its dimensions.
pub struct DecodedCrops {
    pub width: u32,
    pub height: u32,
    pub crops: Vec<CropOutput>,
}

/// Decodes fetched bytes and cuts every owed crop: one sub-image per region
/// at or above the confidence threshold, in region order, at the planned
/// pixel rectangle. Yields nothing — and so no crops — exactly when the
/// bytes do not decode.
pub fn crops_from_bytes(bytes: &Vec<u8>, regions: &Vec<Region>) -> (r: Option<DecodedCrops>)
    requires
        forall|i: int| 0 <= i < regions@.len() ==> (#[trigger] regions@[i]).wf(),
    ensures
        r is Some <==> decodes_ok(bytes@),
        match r {
            Some(d) => crop_commands(d.crops@) == spec_plan_crops(regions@, d.width, d.height),
            None => true,
        },
{
    match decode_image(bytes) {
        None => None,
        Some(img) => {
            let (w, h) = image_dimensions(&img);
            let plan = plan_crops(regions, w, h);
            let mut crops: Vec<CropOutput> = Vec::new();
            let mut i: usize = 0;
            proof {
                assert(crop_commands(crops@) =~= plan@.take(0));
            }
            while i < plan.len()
                invariant
                    0 <= i <= plan@.len(),
                    crop_commands(crops@) == plan@.take(i as int),
                decreases plan@.len() - i,
            {
                let cmd = plan[i];
                let ghost old_cmds = crop_commands(crops@);
                let piece = crop_image(&img, cmd.rect.x, cmd.rect.y, cmd.rect.width, cmd.rect.height);
                crops.push(CropOutput { image: piece, command: cmd });
                proof {
                    assert(crop_commands(crops@) =~= old_cmds.push(plan@[i as int]));
                    assert(plan@.take(i + 1) =~= plan@.take(i as int).push(plan@[i as int]));
                }
                i = i + 1;
            }
            proof {
                assert(plan@.take(plan@.len() as int) =~= plan@);
            }
            Some(DecodedCrops { width: w, height: h, crops })
        },
    }
}

/// The output directory name a label selects: `women` for the woman label,
/// `men` for the man label.
pub fn label_dir(label: PersonLabel) -> (s: String)
    ensures
        label is Woman ==> s@ == "women"@,
        label is Man ==> s@ == "men"@,
{
    match label {
        PersonLabel::Woman => String::from_str("women"),
        PersonLabel::Man => String::from_str("men"),
    }
}

} // verus!
