use vstd::prelude::*;

verus! {

#[verifier::external_type_specification]
#[verifier::external_body]
pub struct ExImageError(image::ImageError);

/// Why a tile could not be fetched, decoded or placed.
#[derive(Debug)]
pub enum ZoomError {
    /// The transport failed, or the server answered with a failure status.
    Networking { message: String },
    /// The bytes are not an image in a recognised format.
    Image { source: image::ImageError },
    /// The post-processing transform failed; `message` is its own account.
    PostProcessing { message: String },
    /// The task that decodes a tile did not run to completion.
    TaskFailed { message: String },
    /// A tile could not be drawn at the given place on the canvas.
    TileCopyError { x: u32, y: u32, twidth: u32, theight: u32, width: u32, height: u32 },
}

} // verus!
