//! What other systems ask of the renderer.

use vstd::prelude::*;

verus! {

#[derive(Copy, Clone, Debug, PartialEq, Eq, Structural)]
pub enum RenderEvent {
    WindowResized,
    StopRendering,
    StartRendering,
}

/// What the renderer does about one event.
#[derive(Copy, Clone, Debug, PartialEq, Eq, Structural)]
pub struct RenderDecision {
    /// Whether frames are drawn from now on.
    pub should_render: bool,
    /// Whether the swapchain has to be recreated before anything else.
    pub recreate_swapchain: bool,
}

/// Handles one render event: a resized window calls for a new swapchain and
/// leaves rendering as it was; the other two switch rendering off and on.
pub fn handle_render_event(should_render: bool, event: RenderEvent) -> (decision: RenderDecision)
    ensures
        decision.recreate_swapchain == (event == RenderEvent::WindowResized),
        decision.should_render == match event {
            RenderEvent::WindowResized => should_render,
            RenderEvent::StopRendering => false,
            RenderEvent::StartRendering => true,
        },
{
    match event {
        RenderEvent::WindowResized => RenderDecision { should_render, recreate_swapchain: true },
        RenderEvent::StopRendering => RenderDecision {
            should_render: false,
            recreate_swapchain: false,
        },
        RenderEvent::StartRendering => RenderDecision {
            should_render: true,
            recreate_swapchain: false,
        },
    }
}

} // verus!
