use vstd::prelude::*;

verus! {

/// How triangles are drawn.
#[derive(Clone, Copy, Debug, PartialEq, Eq, Structural)]
pub enum FillMode {
    Wireframe,
    Filled,
    Both,
}

impl FillMode {
    pub open spec fn next_spec(self) -> FillMode {
        match self {
            FillMode::Wireframe => FillMode::Filled,
            FillMode::Filled => FillMode::Both,
            FillMode::Both => FillMode::Wireframe,
        }
    }

    /// The mode that the fill key switches to: wireframe, filled, both, and
    /// round again.
    pub fn next(self) -> (r: FillMode)
        ensures
            r == self.next_spec(),
    {
        match self {
            FillMode::Wireframe => FillMode::Filled,
            FillMode::Filled => FillMode::Both,
            FillMode::Both => FillMode::Wireframe,
        }
    }

    /// Whether each edge is drawn as a line.
    pub fn draws_edges(self) -> (r: bool)
        ensures
            r == (self != FillMode::Filled),
    {
        !matches!(self, FillMode::Filled)
    }

    /// Whether the triangle is filled.
    pub fn draws_fill(self) -> (r: bool)
        ensures
            r == (self != FillMode::Wireframe),
    {
        !matches!(self, FillMode::Wireframe)
    }
}

/// One input event, as far as the viewer tells events apart.
#[derive(Clone, Copy, Debug, PartialEq, Eq, Structural)]
pub enum InputEvent {
    /// The window was asked to close.
    Quit,
    /// The Escape key went down.
    EscapeKey,
    /// The fill-mode key went down.
    FillKey,
    /// The wheel turned by `dy` steps.
    Wheel { dy: i32 },
    /// The pan (middle) mouse button went down.
    PanButtonDown,
    /// The pan (middle) mouse button went up.
    PanButtonUp,
    /// The mouse moved by `dx`, `dy` pixels.
    Motion { dx: i32, dy: i32 },
    /// Anything else.
    Other,
}

/// What the input has done to the view so far: the pan in mouse pixels, the
/// zoom in wheel steps, the fill mode, whether a pan drag is under way and
/// whether the viewer keeps running.
#[derive(Clone, Copy, Debug, PartialEq, Eq, Structural)]
pub struct ViewState {
    pub pan_x: i32,
    pub pan_y: i32,
    pub zoom: i32,
    pub fill: FillMode,
    pub dragging: bool,
    pub running: bool,
}

/// `a + b`, held to the range of `i32`.
pub open spec fn clamped_sum(a: i32, b: i32) -> i32 {
    let s = a + b;
    if s > i32::MAX {
        i32::MAX
    } else if s < i32::MIN {
        i32::MIN
    } else {
        s as i32
    }
}

fn add_clamped(a: i32, b: i32) -> (r: i32)
    ensures
        r == clamped_sum(a, b),
{
    let s = a as i64 + b as i64;
    if s > i32::MAX as i64 {
        i32::MAX
    } else if s < i32::MIN as i64 {
        i32::MIN
    } else {
        s as i32
    }
}

/// The state after event `e`.
pub open spec fn after_event(s: ViewState, e: InputEvent) -> ViewState {
    match e {
        InputEvent::Quit | InputEvent::EscapeKey => ViewState { running: false, ..s },
        InputEvent::FillKey => ViewState { fill: s.fill.next_spec(), ..s },
        InputEvent::Wheel { dy } => ViewState { zoom: clamped_sum(s.zoom, dy), ..s },
        InputEvent::PanButtonDown => ViewState { dragging: true, ..s },
        InputEvent::PanButtonUp => ViewState { dragging: false, ..s },
        InputEvent::Motion { dx, dy } => if s.dragging {
            ViewState { pan_x: clamped_sum(s.pan_x, dx), pan_y: clamped_sum(s.pan_y, dy), ..s }
        } else {
            s
        },
        InputEvent::Other => s,
    }
}

impl ViewState {
    /// A running viewer with no pan or zoom, in wireframe mode.
    pub fn new() -> (r: ViewState)
        ensures
            r == (ViewState {
                pan_x: 0,
                pan_y: 0,
                zoom: 0,
                fill: FillMode::Wireframe,
                dragging: false,
                running: true,
            }),
    {
        ViewState {
            pan_x: 0,
            pan_y: 0,
            zoom: 0,
            fill: FillMode::Wireframe,
            dragging: false,
            running: true,
        }
    }

    /// Applies one input event: quit and Escape stop the viewer, the fill key
    /// cycles the fill mode, the wheel zooms, and mouse motion pans while the
    /// pan button is held.
    pub fn handle_event(&mut self, e: InputEvent)
        ensures
            *final(self) == after_event(*old(self), e),
    {
        match e {
            InputEvent::Quit | InputEvent::EscapeKey => {
                self.running = false;
            },
            InputEvent::FillKey => {
                self.fill = self.fill.next();
            },
            InputEvent::Wheel { dy } => {
                self.zoom = add_clamped(self.zoom, dy);
            },
            InputEvent::PanButtonDown => {
                self.dragging = true;
            },
            InputEvent::PanButtonUp => {
                self.dragging = false;
            },
            InputEvent::Motion { dx, dy } => {
                if self.dragging {
                    self.pan_x = add_clamped(self.pan_x, dx);
                    self.pan_y = add_clamped(self.pan_y, dy);
                }
            },
            InputEvent::Other => {},
        }
    }
}

} // verus!
