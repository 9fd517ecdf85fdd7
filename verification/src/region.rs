//! The region model: a capture rectangle validated against a display's
//! bounds, and the startup configuration built from the user's options.

use vstd::prelude::*;
use crate::coords::Coords;

verus! {

/// A rectangular region of a display: an offset and a size, in pixels.
#[derive(Clone, Copy, Debug, PartialEq, Eq, Structural)]
pub struct Rect {
    /// Horizontal offset of the region's first pixel.
    pub x: usize,
    /// Vertical offset of the region's first pixel.
    pub y: usize,
    /// Width of the region.
    pub w: usize,
    /// Height of the region.
    pub h: usize,
}

impl Rect {
    /// The rectangle lies within a display of the given size.
    pub open spec fn within(self, display_w: usize, display_h: usize) -> bool {
        self.x + self.w <= display_w && self.y + self.h <= display_h
    }
}

/// How the presentation surface maps the logical buffer onto its
/// physical size.
#[derive(Clone, Copy, Debug, PartialEq, Eq, Structural)]
pub enum ScaleMode {
    /// Preserve the source aspect ratio, letterboxing the rest.
    AspectPreserving,
    /// Fill the surface, ignoring the aspect ratio.
    Stretch,
}

/// A rejected configuration: the requested region does not fit the
/// display whose size is carried here.
#[derive(Clone, Copy, Debug, PartialEq, Eq, Structural)]
pub struct ConfigError {
    /// Width of the display the region was checked against.
    pub display_w: usize,
    /// Height of the display the region was checked against.
    pub display_h: usize,
}

/// Everything the capture loop needs, validated once before it starts.
#[derive(Clone, Copy, Debug, PartialEq, Eq, Structural)]
pub struct Config {
    /// The region of the display to capture.
    pub rect: Rect,
    /// Initial width of the presentation window.
    pub window_w: usize,
    /// Initial height of the presentation window.
    pub window_h: usize,
    /// The scaling policy, fixed for the process lifetime.
    pub scale: ScaleMode,
}

/// The first component of an optional pair, or the given default.
pub open spec fn first_or(o: Option<Coords>, d: usize) -> usize {
    match o {
        Some(c) => c.0,
        None => d,
    }
}

/// The second component of an optional pair, or the given default.
pub open spec fn second_or(o: Option<Coords>, d: usize) -> usize {
    match o {
        Some(c) => c.1,
        None => d,
    }
}

/// Builds the validated configuration from a display's size and the
/// user's options. The window size and the focus size default to the
/// whole display; the focus offset defaults to the origin; the stretch
/// flag selects the scaling policy.
///
/// Succeeds exactly when the focus region, offset included, lies within
/// the display; otherwise nothing is built and the error carries the
/// display's size.
pub fn build_config(
    display_w: usize,
    display_h: usize,
    window_size: Option<Coords>,
    focus_size: Option<Coords>,
    focus_coords: Option<Coords>,
    stretch: bool,
) -> (r: Result<Config, ConfigError>)
    ensures
        ({
            let fx = first_or(focus_coords, 0);
            let fy = second_or(focus_coords, 0);
            let fw = first_or(focus_size, display_w);
            let fh = second_or(focus_size, display_h);
            &&& (r matches Ok(c) <==> fx + fw <= display_w && fy + fh <= display_h)
            &&& (r matches Ok(c) ==> c == (Config {
                rect: Rect { x: fx, y: fy, w: fw, h: fh },
                window_w: first_or(window_size, display_w),
                window_h: second_or(window_size, display_h),
                scale: if stretch {
                    ScaleMode::Stretch
                } else {
                    ScaleMode::AspectPreserving
                },
            }))
            &&& (r matches Ok(c) ==> c.rect.within(display_w, display_h))
            &&& (r matches Err(e) ==> e == (ConfigError {
                display_w: display_w,
                display_h: display_h,
            }))
        }),
{
    let (fx, fy) = match focus_coords {
        Some(c) => (c.0, c.1),
        None => (0usize, 0usize),
    };
    let (fw, fh) = match focus_size {
        Some(c) => (c.0, c.1),
        None => (display_w, display_h),
    };
    let x_fits = match fx.checked_add(fw) {
        Some(s) => s <= display_w,
        None => false,
    };
    let y_fits = match fy.checked_add(fh) {
        Some(s) => s <= display_h,
        None => false,
    };
    if !x_fits || !y_fits {
        return Err(ConfigError { display_w, display_h });
    }
    let (ww, wh) = match window_size {
        Some(c) => (c.0, c.1),
        None => (display_w, display_h),
    };
    Ok(Config {
        rect: Rect { x: fx, y: fy, w: fw, h: fh },
        window_w: ww,
        window_h: wh,
        scale: if stretch {
            ScaleMode::Stretch
        } else {
            ScaleMode::AspectPreserving
        },
    })
}

} // verus!
