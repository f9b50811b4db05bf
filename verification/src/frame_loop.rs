use vstd::prelude::*;
use crate::frame::{spec_next_mode, StatsDisplayMode};

verus! {

/// What the window's event loop hands the renderer.
#[derive(Debug, Clone, Copy, PartialEq, Eq, Structural)]
pub enum LoopEvent {
    /// The window was resized.
    Resized,
    /// All pending events are handled: time to draw; the window's current
    /// inner size.
    Redraw { width: u32, height: u32 },
    /// The frame asked for was drawn; whether the swapchain turned out to be
    /// out of date.
    Drawn { swapchain_out_of_date: bool },
    /// The statistics key changed state.
    StatsKey { pressed: bool },
    /// The right mouse button changed state.
    RightMouse { pressed: bool },
    CloseRequested,
    LoopDestroyed,
    Other,
}

/// What the renderer asks the loop to do next.
#[derive(Debug, Clone, Copy, PartialEq, Eq, Structural)]
pub enum LoopAction {
    Nothing,
    /// Rebuild the swapchain at this size, then draw.
    RecreateSwapchainAndDraw { width: u32, height: u32 },
    Draw,
    SetCursorVisible(bool),
    Exit,
    /// Wait for the GPU to finish before the loop ends.
    WaitForGpu,
}

/// The renderer's loop state: whether the swapchain must be rebuilt before
/// drawing, and which statistics are shown.
#[derive(Debug, Clone, Copy, PartialEq, Eq, Structural)]
pub struct LoopState {
    pub swapchain_dirty: bool,
    pub stats_mode: StatsDisplayMode,
}

/// The next state and action for event `e`: a resize marks the swapchain
/// dirty; a redraw draws, first rebuilding a dirty swapchain, and skips the
/// frame while the window has no area; the draw's outcome says whether the
/// swapchain is dirty again; a pressed statistics key cycles the display;
/// the cursor hides while the right button is held.
pub open spec fn spec_step(s: LoopState, e: LoopEvent) -> (LoopState, LoopAction) {
    match e {
        LoopEvent::Resized => (LoopState { swapchain_dirty: true, ..s }, LoopAction::Nothing),
        LoopEvent::Redraw { width, height } => if !s.swapchain_dirty {
            (s, LoopAction::Draw)
        } else if width > 0 && height > 0 {
            (s, LoopAction::RecreateSwapchainAndDraw { width, height })
        } else {
            (s, LoopAction::Nothing)
        },
        LoopEvent::Drawn { swapchain_out_of_date } => (
            LoopState { swapchain_dirty: swapchain_out_of_date, ..s },
            LoopAction::Nothing,
        ),
        LoopEvent::StatsKey { pressed } => if pressed {
            (LoopState { stats_mode: spec_next_mode(s.stats_mode), ..s }, LoopAction::Nothing)
        } else {
            (s, LoopAction::Nothing)
        },
        LoopEvent::RightMouse { pressed } => (s, LoopAction::SetCursorVisible(!pressed)),
        LoopEvent::CloseRequested => (s, LoopAction::Exit),
        LoopEvent::LoopDestroyed => (s, LoopAction::WaitForGpu),
        LoopEvent::Other => (s, LoopAction::Nothing),
    }
}

impl LoopState {
    /// A clean swapchain, basic statistics shown.
    pub fn new() -> (s: Self)
        ensures
            !s.swapchain_dirty,
            s.stats_mode == StatsDisplayMode::Basic,
    {
        LoopState { swapchain_dirty: false, stats_mode: StatsDisplayMode::Basic }
    }

    /// Handles one event of the loop.
    pub fn step(self, e: LoopEvent) -> (r: (Self, LoopAction))
        ensures
            r == spec_step(self, e),
    {
        match e {
            LoopEvent::Resized => (LoopState { swapchain_dirty: true, ..self }, LoopAction::Nothing),
            LoopEvent::Redraw { width, height } => {
                if !self.swapchain_dirty {
                    (self, LoopAction::Draw)
                } else if width > 0 && height > 0 {
                    (self, LoopAction::RecreateSwapchainAndDraw { width, height })
                } else {
                    (self, LoopAction::Nothing)
                }
            },
            LoopEvent::Drawn { swapchain_out_of_date } => (
                LoopState { swapchain_dirty: swapchain_out_of_date, ..self },
                LoopAction::Nothing,
            ),
            LoopEvent::StatsKey { pressed } => {
                if pressed {
                    (LoopState { stats_mode: self.stats_mode.next(), ..self }, LoopAction::Nothing)
                } else {
                    (self, LoopAction::Nothing)
                }
            },
            LoopEvent::RightMouse { pressed } => (self, LoopAction::SetCursorVisible(!pressed)),
            LoopEvent::CloseRequested => (self, LoopAction::Exit),
            LoopEvent::LoopDestroyed => (self, LoopAction::WaitForGpu),
            LoopEvent::Other => (self, LoopAction::Nothing),
        }
    }
}

/// After a resize, the next redraw of a window with an area rebuilds the
/// swapchain before drawing.
pub proof fn lemma_resize_then_redraw_rebuilds(s: LoopState, width: u32, height: u32)
    requires
        width > 0,
        height > 0,
    ensures
        spec_step(spec_step(s, LoopEvent::Resized).0, LoopEvent::Redraw { width, height }).1
            == (LoopAction::RecreateSwapchainAndDraw { width, height }),
{
}

} // verus!
