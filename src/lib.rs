//! Layered zoom pipeline: downscaled copies of a picture, centred crops of
//! each, and a composite that nests the crops inside one canvas.
pub mod raster;
pub mod slice;
pub mod reconstruct;
pub mod pipeline;
