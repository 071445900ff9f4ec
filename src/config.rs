//! The render configuration and its validation.
use vstd::prelude::*;

verus! {

/// The rectangle of the complex plane that the image covers, in fixed point.
#[derive(Clone, Copy, Debug, PartialEq, Eq, Structural)]
pub struct Bounds {
    pub x_min: i32,
    pub x_max: i32,
    pub y_min: i32,
    pub y_max: i32,
}

/// Everything one render pass depends on.
#[derive(Clone, Copy, Debug)]
pub struct RenderConfig {
    /// Width and height in pixels.
    pub resolution: (u32, u32),
    pub bounds: Bounds,
    /// The iteration cap: points that have not escaped after this many steps
    /// count as inside the set.
    pub max_iterations: u16,
    pub num_workers: u32,
}

/// Why a render did not produce a complete result buffer.
#[derive(Clone, Copy, Debug, PartialEq, Eq, Structural)]
pub enum RenderError {
    /// A zero dimension, more pixels than a `u32` index reaches, no workers,
    /// or a bounding rectangle with min >= max on an axis.
    InvalidConfig,
    /// A worker did not hand back the results of its whole chunk.
    WorkerFailed,
}

/// The number of pixels of the image.
pub open spec fn pixel_count(cfg: RenderConfig) -> nat {
    (cfg.resolution.0 * cfg.resolution.1) as nat
}

/// The pixel count is the product of the dimensions.
pub proof fn lemma_pixel_count(cfg: RenderConfig)
    ensures
        pixel_count(cfg) == cfg.resolution.0 * cfg.resolution.1,
{
    assert(cfg.resolution.0 * cfg.resolution.1 >= 0) by (nonlinear_arith);
}

/// A configuration that a render can run on.
pub open spec fn valid_config(cfg: RenderConfig) -> bool {
    &&& cfg.resolution.0 > 0
    &&& cfg.resolution.1 > 0
    &&& pixel_count(cfg) <= u32::MAX
    &&& cfg.num_workers > 0
    &&& cfg.bounds.x_min < cfg.bounds.x_max
    &&& cfg.bounds.y_min < cfg.bounds.y_max
}

/// Checks a configuration before any work starts.
pub fn validate_config(cfg: &RenderConfig) -> (r: Result<(), RenderError>)
    ensures
        r is Ok <==> valid_config(*cfg),
        r is Err ==> r == Err::<(), RenderError>(RenderError::InvalidConfig),
{
    let (width, height) = cfg.resolution;
    if width == 0 || height == 0 || cfg.num_workers == 0 {
        return Err(RenderError::InvalidConfig);
    }
    assert((width as u64) * (height as u64) <= 0xffff_ffff * 0xffff_ffff) by (nonlinear_arith)
        requires
            width <= 0xffff_ffff,
            height <= 0xffff_ffff,
    ;
    if (width as u64) * (height as u64) > u32::MAX as u64 {
        return Err(RenderError::InvalidConfig);
    }
    if cfg.bounds.x_min >= cfg.bounds.x_max || cfg.bounds.y_min >= cfg.bounds.y_max {
        return Err(RenderError::InvalidConfig);
    }
    Ok(())
}

} // verus!
