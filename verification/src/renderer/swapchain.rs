//! The choices made when a swapchain is created or recreated.

use vstd::prelude::*;

verus! {

/// How the window is blended with what lies behind it.
#[derive(Copy, Clone, Debug, PartialEq, Eq, Structural)]
pub enum CompositeAlpha {
    Opaque,
    PreMultiplied,
    PostMultiplied,
    Inherit,
}

/// How finished images are queued for display.
#[derive(Copy, Clone, Debug, PartialEq, Eq, Structural)]
pub enum PresentMode {
    Immediate,
    Mailbox,
    Fifo,
    Relaxed,
}

/// The number of images to ask for: the most the surface allows, and where it
/// names no maximum the fewest it needs. Never fewer than that minimum.
pub fn image_count(min_image_count: u32, max_image_count: Option<u32>) -> (count: u32)
    ensures
        count == match max_image_count {
            Some(max) if max > min_image_count => max,
            _ => min_image_count,
        },
{
    let max = match max_image_count {
        Some(max) => max,
        None => min_image_count,
    };
    if max > min_image_count {
        max
    } else {
        min_image_count
    }
}

/// The extent that a swapchain is first created with: the current extent of
/// the surface, or 1600 by 900 where the surface names none.
pub fn initial_extent(current: Option<[u32; 2]>) -> (extent: [u32; 2])
    ensures
        current.is_some() ==> extent == current.unwrap(),
        current.is_none() ==> extent[0] == 1600 && extent[1] == 900,
{
    match current {
        Some(extent) => extent,
        None => [1600, 900],
    }
}

/// `a` comes before `b` when the widths differ and `a` is narrower, or when
/// the widths agree and `a` is lower.
pub open spec fn extent_below(a: [u32; 2], b: [u32; 2]) -> bool {
    a[0] < b[0] || (a[0] == b[0] && a[1] < b[1])
}

/// The extent that a swapchain is recreated with.
pub open spec fn clamped_extent(
    current: Option<[u32; 2]>,
    min: [u32; 2],
    max: [u32; 2],
) -> [u32; 2] {
    let wanted = match current {
        Some(extent) => extent,
        None => min,
    };
    if extent_below(wanted, min) {
        min
    } else if extent_below(max, wanted) {
        max
    } else {
        wanted
    }
}

/// The dimensions to recreate the swapchain with: the current extent of the
/// surface, or the smallest one where the surface names none, brought back to
/// the smallest extent where it comes before it and to the largest where it
/// comes after it.
pub fn clamp_extent(current: Option<[u32; 2]>, min: [u32; 2], max: [u32; 2]) -> (extent: [u32; 2])
    ensures
        extent == clamped_extent(current, min, max),
{
    let wanted = match current {
        Some(extent) => extent,
        None => min,
    };
    if wanted[0] < min[0] || (wanted[0] == min[0] && wanted[1] < min[1]) {
        min
    } else if max[0] < wanted[0] || (max[0] == wanted[0] && max[1] < wanted[1]) {
        max
    } else {
        wanted
    }
}

/// We prefer a non-transparent window: opaque where the surface supports it,
/// else inherited; else whichever mode the surface lists first, if it lists
/// any.
pub fn choose_composite_alpha(
    supports_opaque: bool,
    supports_inherit: bool,
    first_supported: Option<CompositeAlpha>,
) -> (chosen: Option<CompositeAlpha>)
    ensures
        chosen == if supports_opaque {
            Some(CompositeAlpha::Opaque)
        } else if supports_inherit {
            Some(CompositeAlpha::Inherit)
        } else {
            first_supported
        },
{
    if supports_opaque {
        Some(CompositeAlpha::Opaque)
    } else if supports_inherit {
        Some(CompositeAlpha::Inherit)
    } else {
        first_supported
    }
}

/// We prefer Mailbox, then Fifo; else whichever mode the surface lists first,
/// if it lists any.
pub fn choose_present_mode(
    supports_mailbox: bool,
    supports_fifo: bool,
    first_supported: Option<PresentMode>,
) -> (chosen: Option<PresentMode>)
    ensures
        chosen == if supports_mailbox {
            Some(PresentMode::Mailbox)
        } else if supports_fifo {
            Some(PresentMode::Fifo)
        } else {
            first_supported
        },
{
    if supports_mailbox {
        Some(PresentMode::Mailbox)
    } else if supports_fifo {
        Some(PresentMode::Fifo)
    } else {
        first_supported
    }
}

} // verus!
