use vstd::prelude::*;

verus! {

/// Least time, in milliseconds, between two redraws that the window asks
/// for on its own.
pub const REDRAW_INTERVAL_MS: u64 = 50;

/// What the window's event loop hands the program.
#[derive(Clone, Copy, Debug, PartialEq, Eq, Structural)]
pub enum WindowEvent {
    /// All pending events were handled; `elapsed_ms` have passed since the
    /// last redraw the program asked for.
    EventsCleared { elapsed_ms: u64 },
    /// The window wants its contents drawn.
    RedrawRequested,
    /// The user closed the window.
    CloseRequested,
    /// A render worker finished a block.
    BlockFinished,
    /// The window now has the given size, in physical pixels.
    Resized { width: u32, height: u32 },
    /// Anything else.
    Other,
}

/// What the program does in answer to an event.
#[derive(Clone, Copy, Debug, PartialEq, Eq, Structural)]
pub enum Action {
    /// Nothing.
    Wait,
    /// Ask the window for a redraw; when `restart_clock` is set, count the
    /// time to the next one from now.
    RequestRedraw { restart_clock: bool },
    /// Show the image in the window, if there is one yet.
    Present,
    /// Leave the event loop.
    Exit,
    /// Rebuild the image, the job queue and the renderer for a picture of
    /// `width * height` pixels.
    Rebuild { width: u16, height: u16 },
}

/// The answer to one event: a redraw at most every
/// [`REDRAW_INTERVAL_MS`] and whenever a block is finished, the image shown
/// on each redraw, and everything rebuilt on a resize (the size taken
/// modulo 2^16, as the image stores it in 16 bits).
pub fn handle_event(event: WindowEvent) -> (action: Action)
    ensures
        action == match event {
            WindowEvent::EventsCleared { elapsed_ms } => if elapsed_ms >= REDRAW_INTERVAL_MS {
                Action::RequestRedraw { restart_clock: true }
            } else {
                Action::Wait
            },
            WindowEvent::RedrawRequested => Action::Present,
            WindowEvent::CloseRequested => Action::Exit,
            WindowEvent::BlockFinished => Action::RequestRedraw { restart_clock: false },
            WindowEvent::Resized { width, height } => Action::Rebuild {
                width: (width % 0x10000) as u16,
                height: (height % 0x10000) as u16,
            },
            WindowEvent::Other => Action::Wait,
        },
{
    match event {
        WindowEvent::EventsCleared { elapsed_ms } => {
            if elapsed_ms >= REDRAW_INTERVAL_MS {
                Action::RequestRedraw { restart_clock: true }
            } else {
                Action::Wait
            }
        },
        WindowEvent::RedrawRequested => Action::Present,
        WindowEvent::CloseRequested => Action::Exit,
        WindowEvent::BlockFinished => Action::RequestRedraw { restart_clock: false },
        WindowEvent::Resized { width, height } => {
            let w: u16 = (width % 0x10000) as u16;
            let h: u16 = (height % 0x10000) as u16;
            Action::Rebuild { width: w, height: h }
        },
        WindowEvent::Other => Action::Wait,
    }
}

} // verus!
