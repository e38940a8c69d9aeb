use vstd::prelude::*;

use crate::ids::EntityId;

verus! {

/// The tools a mouse button can hold.
#[derive(Clone, Copy, Debug, PartialEq, Eq, Structural, Hash)]
pub enum ToolKind {
    Move,
    Drag,
    Rotate,
    Box,
    Circle,
    Gear,
    Polygon,
    Plane,
    Spring,
    Fix,
    Axle,
    Tracer,
    Laser,
    Thruster,
    Zoom,
    Pan,
}

/// The name a tool shows: its variant's name.
pub open spec fn tool_name(kind: ToolKind) -> Seq<char> {
    match kind {
        ToolKind::Move => "Move"@,
        ToolKind::Drag => "Drag"@,
        ToolKind::Rotate => "Rotate"@,
        ToolKind::Box => "Box"@,
        ToolKind::Circle => "Circle"@,
        ToolKind::Gear => "Gear"@,
        ToolKind::Polygon => "Polygon"@,
        ToolKind::Plane => "Plane"@,
        ToolKind::Spring => "Spring"@,
        ToolKind::Fix => "Fix"@,
        ToolKind::Axle => "Axle"@,
        ToolKind::Tracer => "Tracer"@,
        ToolKind::Laser => "Laser"@,
        ToolKind::Thruster => "Thruster"@,
        ToolKind::Zoom => "Zoom"@,
        ToolKind::Pan => "Pan"@,
    }
}

impl ToolKind {
    /// The name this tool shows.
    pub fn name(self) -> (r: &'static str)
        ensures
            r@ == tool_name(self),
    {
        match self {
            ToolKind::Move => "Move",
            ToolKind::Drag => "Drag",
            ToolKind::Rotate => "Rotate",
            ToolKind::Box => "Box",
            ToolKind::Circle => "Circle",
            ToolKind::Gear => "Gear",
            ToolKind::Polygon => "Polygon",
            ToolKind::Plane => "Plane",
            ToolKind::Spring => "Spring",
            ToolKind::Fix => "Fix",
            ToolKind::Axle => "Axle",
            ToolKind::Tracer => "Tracer",
            ToolKind::Laser => "Laser",
            ToolKind::Thruster => "Thruster",
            ToolKind::Zoom => "Zoom",
            ToolKind::Pan => "Pan",
        }
    }
}

/// A tool on a mouse button, and whether a gesture with it is under way (a drawing
/// overlay, a drag, a pan...). Fix, axle, tracer, laser and thruster clicks carry no
/// gesture, so for them `active` means nothing.
#[derive(Clone, Copy, Debug, PartialEq, Eq, Structural)]
pub struct ToolSlot {
    pub kind: ToolKind,
    pub active: bool,
}

/// Whether a tool of this kind can have a gesture under way.
pub open spec fn has_gesture(kind: ToolKind) -> bool {
    !(kind == ToolKind::Fix || kind == ToolKind::Axle || kind == ToolKind::Tracer || kind
        == ToolKind::Laser || kind == ToolKind::Thruster)
}

/// The tool `kind` with nothing under way.
pub open spec fn idle(kind: ToolKind) -> ToolSlot {
    ToolSlot { kind, active: false }
}

/// Whether `t` is tool `kind` with nothing under way.
pub open spec fn is_idle_tool(t: ToolSlot, kind: ToolKind) -> bool {
    t.kind == kind && (!t.active || !has_gesture(kind))
}

/// Whether `t` is tool `kind` with a gesture under way.
pub open spec fn is_busy_tool(t: ToolSlot, kind: ToolKind) -> bool {
    t.kind == kind && t.active && has_gesture(kind)
}

impl ToolSlot {
    /// The tool `kind` with nothing under way.
    pub fn idle(kind: ToolKind) -> (r: ToolSlot)
        ensures
            r == idle(kind),
    {
        ToolSlot { kind, active: false }
    }

    /// Whether this is tool `kind` with nothing under way.
    pub fn is_idle(&self, kind: ToolKind) -> (r: bool)
        ensures
            r == is_idle_tool(*self, kind),
    {
        self.kind == kind && (!self.active || !tool_has_gesture(kind))
    }

    /// Whether this is tool `kind` with a gesture under way.
    pub fn is_busy(&self, kind: ToolKind) -> (r: bool)
        ensures
            r == is_busy_tool(*self, kind),
    {
        self.kind == kind && self.active && tool_has_gesture(kind)
    }
}

fn tool_has_gesture(kind: ToolKind) -> (r: bool)
    ensures
        r == has_gesture(kind),
{
    match kind {
        ToolKind::Fix | ToolKind::Axle | ToolKind::Tracer | ToolKind::Laser | ToolKind::Thruster => false,
        _ => true,
    }
}

/// The tools the two buttons take when pressed: the left one the toolbox's tool, the
/// right one the rotate tool; while the other button is held, either pans instead.
pub open spec fn tools_on_press(selected: ToolKind, left_held: bool, right_held: bool) -> (
    ToolSlot,
    ToolSlot,
) {
    (
        if right_held { idle(ToolKind::Pan) } else { idle(selected) },
        if left_held { idle(ToolKind::Pan) } else { idle(ToolKind::Rotate) },
    )
}

/// The tools for the left and the right button, given the toolbox's tool and which buttons
/// are already held.
pub fn press_tools(selected: ToolKind, left_held: bool, right_held: bool) -> (r: (ToolSlot, ToolSlot))
    ensures
        r == tools_on_press(selected, left_held, right_held),
{
    let left = if right_held {
        ToolSlot::idle(ToolKind::Pan)
    } else {
        ToolSlot::idle(selected)
    };
    let right = if left_held {
        ToolSlot::idle(ToolKind::Pan)
    } else {
        ToolSlot::idle(ToolKind::Rotate)
    };
    (left, right)
}

/// What a button that is down does on a frame.
#[derive(Clone, Copy, Debug, PartialEq, Eq, Structural)]
pub enum HeldAction {
    /// Nothing to do.
    Nothing,
    /// Pan the camera by the pointer's travel.
    Pan,
    /// Zoom about the click.
    Zoom,
    /// Move the targets of the move gesture by the pointer's travel.
    MoveTargets,
    /// Turn the targets of the rotate gesture and redraw its overlay.
    RotateTargets,
    /// The gesture lost its targets: forget the click and the tool.
    Reset,
    /// Pull the dragged object towards the pointer.
    Drag,
    /// Stretch the spring preview to the pointer.
    SpringPreview,
    /// Redraw the rectangle overlay.
    Rectangle,
    /// Redraw the circle overlay.
    Circle,
    /// Redraw the plane overlay.
    Plane,
    /// The press lasted or moved: start a gesture with the button's tool.
    LongOrMoved(ToolSlot),
    /// The button was just pressed: remember the click and the tool.
    Begin(ToolSlot),
}

/// The step of a button on a frame. `pressed`: the button is down; `held`: a click of it
/// is remembered; `slot`: its tool; `targets_empty`: a move or rotate gesture has lost its
/// targets; `long_or_moved`: the press lasted long enough or the pointer moved;
/// `can_begin`: the button was just pressed, away from the interface's widgets; `tool`:
/// the tool the button takes.
pub open spec fn held_action(
    pressed: bool,
    held: bool,
    slot: Option<ToolSlot>,
    targets_empty: bool,
    long_or_moved: bool,
    can_begin: bool,
    tool: ToolSlot,
) -> HeldAction {
    if !pressed {
        HeldAction::Nothing
    } else if held {
        match slot {
            Some(t) if is_busy_tool(t, ToolKind::Pan) => HeldAction::Pan,
            Some(t) if is_busy_tool(t, ToolKind::Zoom) => HeldAction::Zoom,
            Some(t) if is_busy_tool(t, ToolKind::Move) => if targets_empty {
                HeldAction::Reset
            } else {
                HeldAction::MoveTargets
            },
            Some(t) if is_busy_tool(t, ToolKind::Rotate) => if targets_empty {
                HeldAction::Reset
            } else {
                HeldAction::RotateTargets
            },
            Some(t) if is_busy_tool(t, ToolKind::Drag) => HeldAction::Drag,
            Some(t) if is_busy_tool(t, ToolKind::Spring) => HeldAction::SpringPreview,
            Some(t) if is_busy_tool(t, ToolKind::Box) => HeldAction::Rectangle,
            Some(t) if is_busy_tool(t, ToolKind::Circle) => HeldAction::Circle,
            Some(t) if is_busy_tool(t, ToolKind::Plane) => HeldAction::Plane,
            _ => if long_or_moved {
                HeldAction::LongOrMoved(tool)
            } else {
                HeldAction::Nothing
            },
        }
    } else if can_begin {
        HeldAction::Begin(tool)
    } else {
        HeldAction::Nothing
    }
}

/// What a button does on a frame while it may be down.
pub fn press_step(
    pressed: bool,
    held: bool,
    slot: Option<ToolSlot>,
    targets_empty: bool,
    long_or_moved: bool,
    can_begin: bool,
    tool: ToolSlot,
) -> (r: HeldAction)
    ensures
        r == held_action(pressed, held, slot, targets_empty, long_or_moved, can_begin, tool),
{
    if !pressed {
        return HeldAction::Nothing;
    }
    if !held {
        return if can_begin {
            HeldAction::Begin(tool)
        } else {
            HeldAction::Nothing
        };
    }
    if let Some(t) = slot {
        if t.is_busy(ToolKind::Pan) {
            return HeldAction::Pan;
        } else if t.is_busy(ToolKind::Zoom) {
            return HeldAction::Zoom;
        } else if t.is_busy(ToolKind::Move) {
            return if targets_empty {
                HeldAction::Reset
            } else {
                HeldAction::MoveTargets
            };
        } else if t.is_busy(ToolKind::Rotate) {
            return if targets_empty {
                HeldAction::Reset
            } else {
                HeldAction::RotateTargets
            };
        } else if t.is_busy(ToolKind::Drag) {
            return HeldAction::Drag;
        } else if t.is_busy(ToolKind::Spring) {
            return HeldAction::SpringPreview;
        } else if t.is_busy(ToolKind::Box) {
            return HeldAction::Rectangle;
        } else if t.is_busy(ToolKind::Circle) {
            return HeldAction::Circle;
        } else if t.is_busy(ToolKind::Plane) {
            return HeldAction::Plane;
        }
    }
    if long_or_moved {
        HeldAction::LongOrMoved(tool)
    } else {
        HeldAction::Nothing
    }
}

/// A collider under the pointer, topmost first: its entity, whether it belongs to a body,
/// whether it has a rotation, and whether it is selected.
#[derive(Clone, Copy, Debug, PartialEq, Eq, Structural)]
pub struct PointerHit {
    pub entity: EntityId,
    pub on_body: bool,
    pub rotates: bool,
    pub selected: bool,
}

/// The gesture a lasting or moving press starts.
#[derive(Clone, Copy, Debug, PartialEq, Eq, Structural)]
pub enum Gesture {
    /// No gesture.
    Nothing,
    /// Pan the camera.
    Pan,
    /// Zoom about the click.
    Zoom,
    /// Draw a spring from the given body, or from the sky.
    Spring(Option<EntityId>),
    /// Drag the given object.
    Drag(EntityId),
    /// Rotate the selection about the given object.
    Rotate(EntityId),
    /// Nothing to move or rotate: pan instead.
    PanInstead,
    /// Move the selection, holding the given object.
    Move(EntityId),
    /// Draw a box.
    Box,
    /// Draw a circle.
    Circle,
    /// Draw a gear.
    Gear,
    /// Draw a polygon.
    Polygon,
    /// Draw a plane.
    Plane,
}

/// How a lasting or moving press begins: whether it first selects what lies under the
/// pointer (replacing the selection, with groups expanded), and the gesture it starts.
#[derive(Clone, Copy, Debug, PartialEq, Eq, Structural)]
pub struct GestureStart {
    pub select_under_pointer: bool,
    pub gesture: Gesture,
}

/// The first hit that belongs to a body.
pub open spec fn first_body_hit(hits: Seq<PointerHit>) -> Option<EntityId>
    decreases hits.len(),
{
    if hits.len() == 0 {
        None
    } else if hits[0].on_body {
        Some(hits[0].entity)
    } else {
        first_body_hit(hits.drop_first())
    }
}

/// Whether a press with `tool` first selects the topmost hit: the drag, fix, axle and
/// tracer tools always do; the laser and thruster tools when the hit belongs to no body;
/// the move and rotate tools when the hit is missing or not selected.
pub open spec fn selects_first(tool: ToolSlot, hits: Seq<PointerHit>) -> bool {
    ||| is_idle_tool(tool, ToolKind::Drag)
    ||| tool.kind == ToolKind::Fix
    ||| tool.kind == ToolKind::Axle
    ||| tool.kind == ToolKind::Tracer
    ||| (tool.kind == ToolKind::Laser || tool.kind == ToolKind::Thruster) && hits.len() > 0
        && !hits[0].on_body
    ||| (is_idle_tool(tool, ToolKind::Move) || is_idle_tool(tool, ToolKind::Rotate)) && (hits.len()
        == 0 || !hits[0].selected)
}

/// The gesture a lasting or moving press with `tool` starts over `hits`.
pub open spec fn gesture_for(tool: ToolSlot, hits: Seq<PointerHit>) -> Gesture {
    if is_idle_tool(tool, ToolKind::Spring) {
        Gesture::Spring(first_body_hit(hits))
    } else if is_idle_tool(tool, ToolKind::Drag) && hits.len() > 0 {
        Gesture::Drag(hits[0].entity)
    } else if is_idle_tool(tool, ToolKind::Rotate) && hits.len() > 0 {
        if hits[0].rotates && hits[0].selected {
            Gesture::Rotate(hits[0].entity)
        } else {
            Gesture::Nothing
        }
    } else if (is_idle_tool(tool, ToolKind::Rotate) || is_idle_tool(tool, ToolKind::Move))
        && hits.len() == 0 {
        Gesture::PanInstead
    } else if hits.len() > 0 && hits[0].selected {
        Gesture::Move(hits[0].entity)
    } else if is_idle_tool(tool, ToolKind::Box) {
        Gesture::Box
    } else if is_idle_tool(tool, ToolKind::Circle) {
        Gesture::Circle
    } else if is_idle_tool(tool, ToolKind::Gear) {
        Gesture::Gear
    } else if is_idle_tool(tool, ToolKind::Polygon) {
        Gesture::Polygon
    } else if is_idle_tool(tool, ToolKind::Plane) {
        Gesture::Plane
    } else {
        Gesture::Nothing
    }
}

/// How a lasting or moving press with `tool` begins over `hits`: the pan and zoom tools
/// only take the camera; any other tool may first select the topmost hit, then starts the
/// gesture of `gesture_for`.
pub open spec fn gesture_start(tool: ToolSlot, hits: Seq<PointerHit>) -> GestureStart {
    if is_idle_tool(tool, ToolKind::Pan) {
        GestureStart { select_under_pointer: false, gesture: Gesture::Pan }
    } else if is_idle_tool(tool, ToolKind::Zoom) {
        GestureStart { select_under_pointer: false, gesture: Gesture::Zoom }
    } else {
        GestureStart {
            select_under_pointer: selects_first(tool, hits),
            gesture: gesture_for(tool, hits),
        }
    }
}

fn first_body(hits: &[PointerHit]) -> (r: Option<EntityId>)
    ensures
        r == first_body_hit(hits@),
{
    let mut i: usize = 0;
    assert(hits@.subrange(0, hits@.len() as int) =~= hits@);
    while i < hits.len()
        invariant
            0 <= i <= hits@.len(),
            first_body_hit(hits@) == first_body_hit(hits@.subrange(i as int, hits@.len() as int)),
        decreases hits@.len() - i,
    {
        let ghost rest = hits@.subrange(i as int, hits@.len() as int);
        assert(rest.drop_first() =~= hits@.subrange(i + 1, hits@.len() as int));
        if hits[i].on_body {
            return Some(hits[i].entity);
        }
        i = i + 1;
    }
    None
}

/// How a press with `tool` that lasted or moved begins, over the colliders under the
/// click, topmost first.
pub fn begin_gesture(tool: ToolSlot, hits: &[PointerHit]) -> (r: GestureStart)
    ensures
        r == gesture_start(tool, hits@),
{
    if tool.is_idle(ToolKind::Pan) {
        return GestureStart { select_under_pointer: false, gesture: Gesture::Pan };
    }
    if tool.is_idle(ToolKind::Zoom) {
        return GestureStart { select_under_pointer: false, gesture: Gesture::Zoom };
    }
    let top: Option<PointerHit> = if hits.len() > 0 {
        Some(hits[0])
    } else {
        None
    };
    let select = match top {
        Some(h) => {
            tool.is_idle(ToolKind::Drag) || tool.kind == ToolKind::Fix || tool.kind == ToolKind::Axle
                || tool.kind == ToolKind::Tracer || ((tool.kind == ToolKind::Laser || tool.kind
                == ToolKind::Thruster) && !h.on_body) || ((tool.is_idle(ToolKind::Move)
                || tool.is_idle(ToolKind::Rotate)) && !h.selected)
        },
        None => {
            tool.is_idle(ToolKind::Drag) || tool.kind == ToolKind::Fix || tool.kind == ToolKind::Axle
                || tool.kind == ToolKind::Tracer || tool.is_idle(ToolKind::Move) || tool.is_idle(
                ToolKind::Rotate)
        },
    };
    let gesture = if tool.is_idle(ToolKind::Spring) {
        Gesture::Spring(first_body(hits))
    } else {
        match top {
            Some(h) if tool.is_idle(ToolKind::Drag) => Gesture::Drag(h.entity),
            Some(h) if tool.is_idle(ToolKind::Rotate) => if h.rotates && h.selected {
                Gesture::Rotate(h.entity)
            } else {
                Gesture::Nothing
            },
            None if tool.is_idle(ToolKind::Rotate) || tool.is_idle(ToolKind::Move) => {
                Gesture::PanInstead
            },
            Some(h) if h.selected => Gesture::Move(h.entity),
            _ => if tool.is_idle(ToolKind::Box) {
                Gesture::Box
            } else if tool.is_idle(ToolKind::Circle) {
                Gesture::Circle
            } else if tool.is_idle(ToolKind::Gear) {
                Gesture::Gear
            } else if tool.is_idle(ToolKind::Polygon) {
                Gesture::Polygon
            } else if tool.is_idle(ToolKind::Plane) {
                Gesture::Plane
            } else {
                Gesture::Nothing
            },
        }
    };
    GestureStart { select_under_pointer: select, gesture }
}

/// What releasing a button does.
#[derive(Clone, Copy, Debug, PartialEq, Eq, Structural)]
pub enum ReleaseAction {
    /// Nothing more.
    Nothing,
    /// Settle what was moved: place moved attachments, wake moved bodies.
    CommitMove,
    /// Wake the rotated bodies.
    CommitRotate,
    /// Select what the dragged rectangle encloses, or add a box if it encloses nothing.
    SelectEnclosed,
    /// Add the dragged box.
    AddBox,
    /// Add the dragged circle.
    AddCircle,
    /// Add the dragged plane.
    AddPlane,
    /// Finish the spring at the pointer.
    FinishSpring,
    /// Drop the spring preview of a click that did not move.
    DropSpringPreview,
    /// Add a thruster at the pointer.
    AddThruster,
    /// Add a fix joint at the pointer.
    AddFix,
    /// Add an axle at the pointer.
    AddAxle,
    /// Add a laser pen at the pointer.
    AddLaser,
    /// Add a tracer at the pointer.
    AddTracer,
    /// Select what lies under the pointer.
    SelectUnderPointer,
    /// A pan ended: a zoom still held on the other button restarts from here.
    RebaseZoom,
}

/// The outcome of a frame for a button that may have been released: `ended` when its
/// click is forgotten; `took_tool` when it also held a tool, whose overlays then go; what
/// follows; and the tool the button keeps for its next click.
#[derive(Clone, Copy, Debug, PartialEq, Eq, Structural)]
pub struct ReleaseOutcome {
    pub ended: bool,
    pub took_tool: bool,
    pub action: ReleaseAction,
    pub next: Option<ToolSlot>,
}

/// What a released button's tool does: `moved_far` when the pointer left the click's
/// neighbourhood, `encircle` when rectangles select what they enclose, and `hit_body` for
/// the collider under the pointer (whether it is a body), if any.
pub open spec fn release_of(
    t: ToolSlot,
    moved_far: bool,
    encircle: bool,
    hit_body: Option<bool>,
) -> (ReleaseAction, Option<ToolSlot>) {
    if is_busy_tool(t, ToolKind::Move) {
        (ReleaseAction::CommitMove, None)
    } else if is_busy_tool(t, ToolKind::Rotate) {
        (ReleaseAction::CommitRotate, None)
    } else if is_busy_tool(t, ToolKind::Box) && moved_far {
        (
            if encircle {
                ReleaseAction::SelectEnclosed
            } else {
                ReleaseAction::AddBox
            },
            Some(idle(ToolKind::Box)),
        )
    } else if is_busy_tool(t, ToolKind::Circle) && moved_far {
        (ReleaseAction::AddCircle, Some(idle(ToolKind::Circle)))
    } else if is_busy_tool(t, ToolKind::Plane) {
        (ReleaseAction::AddPlane, Some(idle(ToolKind::Plane)))
    } else if is_idle_tool(t, ToolKind::Plane) {
        (ReleaseAction::Nothing, None)
    } else if is_busy_tool(t, ToolKind::Spring) && moved_far {
        (ReleaseAction::FinishSpring, Some(idle(ToolKind::Spring)))
    } else if is_busy_tool(t, ToolKind::Spring) {
        (ReleaseAction::DropSpringPreview, None)
    } else if t.kind == ToolKind::Thruster {
        (
            match hit_body {
                Some(true) => ReleaseAction::AddThruster,
                Some(false) => ReleaseAction::SelectUnderPointer,
                None => ReleaseAction::Nothing,
            },
            None,
        )
    } else if t.kind == ToolKind::Fix {
        (ReleaseAction::AddFix, None)
    } else if t.kind == ToolKind::Axle {
        (ReleaseAction::AddAxle, None)
    } else if t.kind == ToolKind::Laser {
        (
            if laser_places(hit_body) {
                ReleaseAction::AddLaser
            } else {
                ReleaseAction::SelectUnderPointer
            },
            None,
        )
    } else if t.kind == ToolKind::Tracer {
        (ReleaseAction::AddTracer, None)
    } else if is_busy_tool(t, ToolKind::Pan) {
        (ReleaseAction::RebaseZoom, None)
    } else if is_busy_tool(t, ToolKind::Zoom) || is_busy_tool(t, ToolKind::Drag) {
        (ReleaseAction::Nothing, None)
    } else {
        (ReleaseAction::SelectUnderPointer, None)
    }
}

/// A laser click places a laser on the sky or on a body, and selects anything else.
pub open spec fn laser_places(hit_body: Option<bool>) -> bool {
    match hit_body {
        Some(b) => b,
        None => true,
    }
}

/// The outcome for a button on a frame: nothing while it is down or no click of it is
/// remembered; otherwise its click is forgotten and, if it held a tool, `release_of` says
/// what follows.
pub open spec fn release_outcome(
    pressed: bool,
    held: bool,
    slot: Option<ToolSlot>,
    moved_far: bool,
    encircle: bool,
    hit_body: Option<bool>,
) -> ReleaseOutcome {
    if pressed || !held {
        ReleaseOutcome { ended: false, took_tool: false, action: ReleaseAction::Nothing, next: slot }
    } else {
        match slot {
            None => ReleaseOutcome {
                ended: true,
                took_tool: false,
                action: ReleaseAction::Nothing,
                next: None,
            },
            Some(t) => ReleaseOutcome {
                ended: true,
                took_tool: true,
                action: release_of(t, moved_far, encircle, hit_body).0,
                next: release_of(t, moved_far, encircle, hit_body).1,
            },
        }
    }
}

/// Whether a laser click places a laser, given whether the collider under the pointer is a
/// body (`None` for the sky).
pub fn laser_click_should_place(hit_body: Option<bool>) -> (r: bool)
    ensures
        r == laser_places(hit_body),
{
    match hit_body {
        Some(b) => b,
        None => true,
    }
}

fn released_tool(t: ToolSlot, moved_far: bool, encircle: bool, hit_body: Option<bool>) -> (r: (
    ReleaseAction,
    Option<ToolSlot>,
))
    ensures
        r == release_of(t, moved_far, encircle, hit_body),
{
    if t.is_busy(ToolKind::Move) {
        (ReleaseAction::CommitMove, None)
    } else if t.is_busy(ToolKind::Rotate) {
        (ReleaseAction::CommitRotate, None)
    } else if t.is_busy(ToolKind::Box) && moved_far {
        let action = if encircle {
            ReleaseAction::SelectEnclosed
        } else {
            ReleaseAction::AddBox
        };
        (action, Some(ToolSlot::idle(ToolKind::Box)))
    } else if t.is_busy(ToolKind::Circle) && moved_far {
        (ReleaseAction::AddCircle, Some(ToolSlot::idle(ToolKind::Circle)))
    } else if t.is_busy(ToolKind::Plane) {
        (ReleaseAction::AddPlane, Some(ToolSlot::idle(ToolKind::Plane)))
    } else if t.is_idle(ToolKind::Plane) {
        (ReleaseAction::Nothing, None)
    } else if t.is_busy(ToolKind::Spring) && moved_far {
        (ReleaseAction::FinishSpring, Some(ToolSlot::idle(ToolKind::Spring)))
    } else if t.is_busy(ToolKind::Spring) {
        (ReleaseAction::DropSpringPreview, None)
    } else if t.kind == ToolKind::Thruster {
        let action = match hit_body {
            Some(true) => ReleaseAction::AddThruster,
            Some(false) => ReleaseAction::SelectUnderPointer,
            None => ReleaseAction::Nothing,
        };
        (action, None)
    } else if t.kind == ToolKind::Fix {
        (ReleaseAction::AddFix, None)
    } else if t.kind == ToolKind::Axle {
        (ReleaseAction::AddAxle, None)
    } else if t.kind == ToolKind::Laser {
        let action = if laser_click_should_place(hit_body) {
            ReleaseAction::AddLaser
        } else {
            ReleaseAction::SelectUnderPointer
        };
        (action, None)
    } else if t.kind == ToolKind::Tracer {
        (ReleaseAction::AddTracer, None)
    } else if t.is_busy(ToolKind::Pan) {
        (ReleaseAction::RebaseZoom, None)
    } else if t.is_busy(ToolKind::Zoom) || t.is_busy(ToolKind::Drag) {
        (ReleaseAction::Nothing, None)
    } else {
        (ReleaseAction::SelectUnderPointer, None)
    }
}

/// The outcome for a button on a frame in which it may have been released.
pub fn release_step(
    pressed: bool,
    held: bool,
    slot: Option<ToolSlot>,
    moved_far: bool,
    encircle: bool,
    hit_body: Option<bool>,
) -> (r: ReleaseOutcome)
    ensures
        r == release_outcome(pressed, held, slot, moved_far, encircle, hit_body),
{
    if pressed || !held {
        return ReleaseOutcome {
            ended: false,
            took_tool: false,
            action: ReleaseAction::Nothing,
            next: slot,
        };
    }
    match slot {
        None => ReleaseOutcome {
            ended: true,
            took_tool: false,
            action: ReleaseAction::Nothing,
            next: None,
        },
        Some(t) => {
            let (action, next) = released_tool(t, moved_far, encircle, hit_body);
            ReleaseOutcome { ended: true, took_tool: true, action, next }
        },
    }
}

/// A released button's tool never keeps a gesture under way: the button keeps no tool, or
/// the same tool with nothing under way.
pub proof fn lemma_release_ends_every_gesture(
    slot: Option<ToolSlot>,
    moved_far: bool,
    encircle: bool,
    hit_body: Option<bool>,
)
    ensures
        ({
            let out = release_outcome(false, true, slot, moved_far, encircle, hit_body);
            &&& out.ended
            &&& match out.next {
                Some(n) => slot is Some && n == idle(slot->0.kind),
                None => true,
            }
        }),
{
}

/// An entity of the selection when a move or rotate gesture ends: whether it is an
/// attachment and whether it is a body.
#[derive(Clone, Copy, Debug, PartialEq, Eq, Structural)]
pub struct ReleasedItem {
    pub entity: EntityId,
    pub attachment: bool,
    pub body: bool,
}

/// What ending a gesture does to one entity.
#[derive(Clone, Copy, Debug, PartialEq, Eq, Structural)]
pub enum Commit {
    /// Pin the attachment where it was dropped.
    PlaceAttachment(EntityId),
    /// Let the body move freely again.
    Unfreeze(EntityId),
}

/// What ending a move (or, with `rotate`, a rotate) gesture does to `item`: a moved
/// attachment is placed where it was dropped; a body is let go; anything else stays.
pub open spec fn commit_of(item: ReleasedItem, rotate: bool) -> Option<Commit> {
    if !rotate && item.attachment {
        Some(Commit::PlaceAttachment(item.entity))
    } else if item.body {
        Some(Commit::Unfreeze(item.entity))
    } else {
        None
    }
}

/// The commits for `items`, in order.
pub open spec fn commits_of(items: Seq<ReleasedItem>, rotate: bool) -> Seq<Commit>
    decreases items.len(),
{
    if items.len() == 0 {
        Seq::empty()
    } else {
        let prev = commits_of(items.drop_last(), rotate);
        match commit_of(items.last(), rotate) {
            Some(c) => prev.push(c),
            None => prev,
        }
    }
}

/// What ending a move (or, with `rotate`, a rotate) gesture does to the selection.
pub fn release_commits(items: &[ReleasedItem], rotate: bool) -> (r: Vec<Commit>)
    ensures
        r@ == commits_of(items@, rotate),
{
    let mut out: Vec<Commit> = Vec::new();
    let mut i: usize = 0;
    while i < items.len()
        invariant
            0 <= i <= items@.len(),
            out@ == commits_of(items@.subrange(0, i as int), rotate),
        decreases items@.len() - i,
    {
        let item = items[i];
        proof {
            assert(items@.subrange(0, i + 1).drop_last() =~= items@.subrange(0, i as int));
        }
        if !rotate && item.attachment {
            out.push(Commit::PlaceAttachment(item.entity));
        } else if item.body {
            out.push(Commit::Unfreeze(item.entity));
        }
        i = i + 1;
    }
    proof {
        assert(items@.subrange(0, items@.len() as int) =~= items@);
    }
    out
}

/// Whether a zoom held on the left button restarts from the current view: after a pan
/// gesture ended this frame, while the left button is down with a zoom under way.
pub open spec fn zoom_rebases(pan_ended: bool, left_pressed: bool, left_slot: Option<ToolSlot>) -> bool {
    pan_ended && left_pressed && match left_slot {
        Some(t) => is_busy_tool(t, ToolKind::Zoom),
        None => false,
    }
}

/// Whether the left button's zoom restarts from the current view after a pan ended.
pub fn zoom_should_rebase(pan_ended: bool, left_pressed: bool, left_slot: Option<ToolSlot>) -> (r: bool)
    ensures
        r == zoom_rebases(pan_ended, left_pressed, left_slot),
{
    pan_ended && left_pressed && match left_slot {
        Some(t) => t.is_busy(ToolKind::Zoom),
        None => false,
    }
}

/// Law: a held button keeps driving the gesture under way on it. Pressed and held, a busy
/// pan pans, a zoom zooms, a drag drags, a spring stretches its preview, a box, circle or
/// plane redraws its overlay, and a move or rotate moves or turns its targets, or resets
/// once they are gone; none of these does nothing.
pub proof fn lemma_held_buttons_drive_their_gesture(
    slot: ToolSlot,
    targets_empty: bool,
    long_or_moved: bool,
    can_begin: bool,
    tool: ToolSlot,
)
    requires
        slot.active,
    ensures
        ({
            let r = held_action(true, true, Some(slot), targets_empty, long_or_moved, can_begin, tool);
            &&& slot.kind == ToolKind::Pan ==> r == HeldAction::Pan
            &&& slot.kind == ToolKind::Zoom ==> r == HeldAction::Zoom
            &&& slot.kind == ToolKind::Drag ==> r == HeldAction::Drag
            &&& slot.kind == ToolKind::Spring ==> r == HeldAction::SpringPreview
            &&& slot.kind == ToolKind::Box ==> r == HeldAction::Rectangle
            &&& slot.kind == ToolKind::Circle ==> r == HeldAction::Circle
            &&& slot.kind == ToolKind::Plane ==> r == HeldAction::Plane
            &&& slot.kind == ToolKind::Move ==> r == (if targets_empty {
                HeldAction::Reset
            } else {
                HeldAction::MoveTargets
            })
            &&& slot.kind == ToolKind::Rotate ==> r == (if targets_empty {
                HeldAction::Reset
            } else {
                HeldAction::RotateTargets
            })
        }),
{
}

/// Law: a button that is up does nothing; a fresh press away from the interface begins
/// with the button's tool; a held button with no gesture under way starts one exactly when
/// the press lasted or moved.
pub proof fn lemma_presses_begin_and_start_gestures(
    held: bool,
    slot: Option<ToolSlot>,
    targets_empty: bool,
    long_or_moved: bool,
    can_begin: bool,
    tool: ToolSlot,
)
    ensures
        held_action(false, held, slot, targets_empty, long_or_moved, can_begin, tool) == HeldAction::Nothing,
        held_action(true, false, slot, targets_empty, long_or_moved, can_begin, tool) == (if can_begin {
            HeldAction::Begin(tool)
        } else {
            HeldAction::Nothing
        }),
        (slot is None || !slot->0.active) ==> held_action(true, true, slot, targets_empty, long_or_moved, can_begin, tool)
            == (if long_or_moved {
            HeldAction::LongOrMoved(tool)
        } else {
            HeldAction::Nothing
        }),
{
}

/// Law: each idle drawing tool pressed away from the selection starts its own drawing,
/// without selecting anything first.
pub proof fn lemma_drawing_tools_draw(kind: ToolKind, active: bool, hits: Seq<PointerHit>)
    requires
        hits.len() == 0 || !hits[0].selected,
        !active,
    ensures
        ({
            let g = gesture_start(ToolSlot { kind, active }, hits);
            &&& kind == ToolKind::Box ==> g == (GestureStart { select_under_pointer: false, gesture: Gesture::Box })
            &&& kind == ToolKind::Circle ==> g == (GestureStart { select_under_pointer: false, gesture: Gesture::Circle })
            &&& kind == ToolKind::Gear ==> g == (GestureStart { select_under_pointer: false, gesture: Gesture::Gear })
            &&& kind == ToolKind::Polygon ==> g == (GestureStart { select_under_pointer: false, gesture: Gesture::Polygon })
            &&& kind == ToolKind::Plane ==> g == (GestureStart { select_under_pointer: false, gesture: Gesture::Plane })
        }),
{
}

/// Law: which presses first select what lies under the pointer. The fix, axle and tracer
/// tools always do, the laser and thruster tools only over a collider of no body, the
/// drawing, spring and camera tools never; an attachment tool then moves the selection
/// when the press is on a selected object, and starts nothing otherwise. A move press on
/// an unselected object only selects it, and a rotate press on an object it cannot turn
/// about starts nothing.
pub proof fn lemma_presses_select_by_tool(kind: ToolKind, hits: Seq<PointerHit>)
    ensures
        ({
            let g = gesture_start(ToolSlot { kind, active: false }, hits);
            let attachment = kind == ToolKind::Fix || kind == ToolKind::Axle || kind == ToolKind::Tracer
                || kind == ToolKind::Laser || kind == ToolKind::Thruster;
            &&& (kind == ToolKind::Fix || kind == ToolKind::Axle || kind == ToolKind::Tracer)
                ==> g.select_under_pointer
            &&& (kind == ToolKind::Laser || kind == ToolKind::Thruster) ==> g.select_under_pointer == (
            hits.len() > 0 && !hits[0].on_body)
            &&& (kind == ToolKind::Box || kind == ToolKind::Circle || kind == ToolKind::Gear || kind
                == ToolKind::Polygon || kind == ToolKind::Plane || kind == ToolKind::Spring || kind
                == ToolKind::Pan || kind == ToolKind::Zoom) ==> !g.select_under_pointer
            &&& attachment ==> g.gesture == (if hits.len() > 0 && hits[0].selected {
                Gesture::Move(hits[0].entity)
            } else {
                Gesture::Nothing
            })
            &&& (kind == ToolKind::Move && hits.len() > 0 && !hits[0].selected) ==> g == (GestureStart {
                select_under_pointer: true,
                gesture: Gesture::Nothing,
            })
            &&& (kind == ToolKind::Rotate && hits.len() > 0 && !(hits[0].selected && hits[0].rotates))
                ==> g == (GestureStart { select_under_pointer: !hits[0].selected, gesture: Gesture::Nothing })
        }),
{
}

/// Law: a tool without gestures (fix, axle, tracer, laser, thruster) held down behaves as
/// an idle one, whatever its state says: it starts a gesture exactly when the press lasted
/// or moved.
pub proof fn lemma_tools_without_gestures_stay_idle(
    slot: ToolSlot,
    targets_empty: bool,
    long_or_moved: bool,
    can_begin: bool,
    tool: ToolSlot,
)
    requires
        !has_gesture(slot.kind),
    ensures
        held_action(true, true, Some(slot), targets_empty, long_or_moved, can_begin, tool) == (if long_or_moved {
            HeldAction::LongOrMoved(tool)
        } else {
            HeldAction::Nothing
        }),
{
}

/// Law: the other gestures. An idle pan or zoom takes the camera without selecting; a
/// press on a selected object with any tool but spring, drag and rotate moves the
/// selection holding that object; a drag on an object drags it, after selecting it; a
/// rotate on a selected object that can turn rotates about it; a move or rotate over
/// nothing pans instead; a spring starts on the first body under the pointer.
pub proof fn lemma_gestures_follow_the_tool(kind: ToolKind, hits: Seq<PointerHit>)
    ensures
        ({
            let g = gesture_start(ToolSlot { kind, active: false }, hits);
            &&& kind == ToolKind::Pan ==> g == (GestureStart { select_under_pointer: false, gesture: Gesture::Pan })
            &&& kind == ToolKind::Zoom ==> g == (GestureStart { select_under_pointer: false, gesture: Gesture::Zoom })
            &&& (hits.len() > 0 && hits[0].selected && kind != ToolKind::Pan && kind != ToolKind::Zoom && kind
                != ToolKind::Spring && kind != ToolKind::Drag && kind != ToolKind::Rotate) ==> g.gesture
                == Gesture::Move(hits[0].entity)
            &&& (kind == ToolKind::Drag && hits.len() > 0) ==> g == (GestureStart {
                select_under_pointer: true,
                gesture: Gesture::Drag(hits[0].entity),
            })
            &&& (kind == ToolKind::Rotate && hits.len() > 0 && hits[0].selected && hits[0].rotates) ==> g
                == (GestureStart { select_under_pointer: false, gesture: Gesture::Rotate(hits[0].entity) })
            &&& ((kind == ToolKind::Move || kind == ToolKind::Rotate) && hits.len() == 0) ==> g == (GestureStart {
                select_under_pointer: true,
                gesture: Gesture::PanInstead,
            })
            &&& (kind == ToolKind::Spring && hits.len() > 0 && hits[0].on_body) ==> g.gesture == Gesture::Spring(
                Some(hits[0].entity),
            )
            &&& (kind == ToolKind::Spring && hits.len() == 0) ==> g.gesture == Gesture::Spring(None)
        }),
{
}

/// Law: what releasing each tool does. A released move commits the move and a rotate the
/// rotation; a box, circle or spring dragged beyond the click adds its object (a box may
/// select what it encloses instead) and keeps the tool ready; a plane is always added;
/// a spring that did not move drops its preview; the attachment tools add their
/// attachment, a laser unless it lands on something that is not a body, a thruster only
/// on a body. While the button is down, or without a remembered click, nothing happens.
pub proof fn lemma_releases_finish_their_gesture(
    slot: Option<ToolSlot>,
    moved_far: bool,
    encircle: bool,
    hit_body: Option<bool>,
)
    ensures
        forall|held: bool|
            #![trigger release_outcome(true, held, slot, moved_far, encircle, hit_body)]
            release_outcome(true, held, slot, moved_far, encircle, hit_body) == (ReleaseOutcome {
                ended: false,
                took_tool: false,
                action: ReleaseAction::Nothing,
                next: slot,
            }),
        release_outcome(false, false, slot, moved_far, encircle, hit_body).action == ReleaseAction::Nothing,
        release_outcome(false, false, slot, moved_far, encircle, hit_body).next == slot,
        ({
            let r = release_outcome(false, true, slot, moved_far, encircle, hit_body);
            &&& r.ended
            &&& r.took_tool == slot is Some
            &&& slot matches Some(t) ==> {
                &&& (t.active && t.kind == ToolKind::Move) ==> r.action == ReleaseAction::CommitMove && r.next is None
                &&& (t.active && t.kind == ToolKind::Rotate) ==> r.action == ReleaseAction::CommitRotate && r.next is None
                &&& (t.active && t.kind == ToolKind::Box && moved_far) ==> r.action == (if encircle {
                    ReleaseAction::SelectEnclosed
                } else {
                    ReleaseAction::AddBox
                }) && r.next == Some(ToolSlot { kind: ToolKind::Box, active: false })
                &&& (t.active && t.kind == ToolKind::Circle && moved_far) ==> r.action == ReleaseAction::AddCircle
                    && r.next == Some(ToolSlot { kind: ToolKind::Circle, active: false })
                &&& (t.active && t.kind == ToolKind::Plane) ==> r.action == ReleaseAction::AddPlane && r.next == Some(
                    ToolSlot { kind: ToolKind::Plane, active: false },
                )
                &&& (t.active && t.kind == ToolKind::Spring) ==> r.action == (if moved_far {
                    ReleaseAction::FinishSpring
                } else {
                    ReleaseAction::DropSpringPreview
                })
                &&& t.kind == ToolKind::Fix ==> r.action == ReleaseAction::AddFix
                &&& t.kind == ToolKind::Axle ==> r.action == ReleaseAction::AddAxle
                &&& t.kind == ToolKind::Tracer ==> r.action == ReleaseAction::AddTracer
                &&& t.kind == ToolKind::Laser ==> r.action == (if hit_body == Some(false) {
                    ReleaseAction::SelectUnderPointer
                } else {
                    ReleaseAction::AddLaser
                })
                &&& t.kind == ToolKind::Thruster ==> r.action == (match hit_body {
                    Some(true) => ReleaseAction::AddThruster,
                    Some(false) => ReleaseAction::SelectUnderPointer,
                    None => ReleaseAction::Nothing,
                })
                &&& (t.active && t.kind == ToolKind::Pan) ==> r.action == ReleaseAction::RebaseZoom
                &&& (!t.active && (t.kind == ToolKind::Move || t.kind == ToolKind::Rotate || t.kind
                    == ToolKind::Drag || t.kind == ToolKind::Box)) ==> r.action == ReleaseAction::SelectUnderPointer
            }
        }),
{
}

/// Law: the tools a press takes. The left button takes the toolbox's tool and the right
/// button rotates, both idle; either pans while the other button is held.
pub proof fn lemma_press_tools(selected: ToolKind, left_held: bool, right_held: bool)
    ensures
        tools_on_press(selected, left_held, right_held).0 == (ToolSlot {
            kind: if right_held { ToolKind::Pan } else { selected },
            active: false,
        }),
        tools_on_press(selected, left_held, right_held).1 == (ToolSlot {
            kind: if left_held { ToolKind::Pan } else { ToolKind::Rotate },
            active: false,
        }),
{
}

/// Law: ending a move or rotate touches only the selected entities, with at most one
/// commit each: a move places every attachment and wakes every other body; a rotate only
/// wakes bodies; entities that are neither are left alone.
pub proof fn lemma_release_commits(items: Seq<ReleasedItem>, rotate: bool, e: EntityId)
    ensures
        commits_of(items, rotate).contains(Commit::PlaceAttachment(e)) <==> (!rotate && exists|i: int|
            0 <= i < items.len() && #[trigger] items[i].entity == e && items[i].attachment),
        commits_of(items, rotate).contains(Commit::Unfreeze(e)) <==> (exists|i: int|
            0 <= i < items.len() && #[trigger] items[i].entity == e && items[i].body && (rotate
                || !items[i].attachment)),
        commits_of(items, rotate).len() <= items.len(),
    decreases items.len(),
{
    if items.len() > 0 {
        let p = items.drop_last();
        lemma_release_commits(p, rotate, e);
        let prev = commits_of(p, rotate);
        let last = items.last();
        assert forall|c: Commit| #[trigger] prev.push(c).contains(Commit::PlaceAttachment(e)) <==> prev.contains(
            Commit::PlaceAttachment(e),
        ) || c == Commit::PlaceAttachment(e) by {
            if prev.push(c).contains(Commit::PlaceAttachment(e)) && c != Commit::PlaceAttachment(e) {
                let k = choose|k: int| 0 <= k < prev.push(c).len() && prev.push(c)[k] == Commit::PlaceAttachment(e);
                assert(prev[k] == Commit::PlaceAttachment(e));
            }
            if prev.contains(Commit::PlaceAttachment(e)) {
                let k = choose|k: int| 0 <= k < prev.len() && prev[k] == Commit::PlaceAttachment(e);
                assert(prev.push(c)[k] == Commit::PlaceAttachment(e));
            }
            if c == Commit::PlaceAttachment(e) {
                assert(prev.push(c)[prev.len() as int] == c);
            }
        }
        assert forall|c: Commit| #[trigger] prev.push(c).contains(Commit::Unfreeze(e)) <==> prev.contains(
            Commit::Unfreeze(e),
        ) || c == Commit::Unfreeze(e) by {
            if prev.push(c).contains(Commit::Unfreeze(e)) && c != Commit::Unfreeze(e) {
                let k = choose|k: int| 0 <= k < prev.push(c).len() && prev.push(c)[k] == Commit::Unfreeze(e);
                assert(prev[k] == Commit::Unfreeze(e));
            }
            if prev.contains(Commit::Unfreeze(e)) {
                let k = choose|k: int| 0 <= k < prev.len() && prev[k] == Commit::Unfreeze(e);
                assert(prev.push(c)[k] == Commit::Unfreeze(e));
            }
            if c == Commit::Unfreeze(e) {
                assert(prev.push(c)[prev.len() as int] == c);
            }
        }
        if exists|i: int| 0 <= i < p.len() && #[trigger] p[i].entity == e && p[i].attachment {
            let i = choose|i: int| 0 <= i < p.len() && #[trigger] p[i].entity == e && p[i].attachment;
            assert(items[i] == p[i]);
        }
        if exists|i: int| 0 <= i < p.len() && #[trigger] p[i].entity == e && p[i].body && (rotate || !p[i].attachment) {
            let i = choose|i: int| 0 <= i < p.len() && #[trigger] p[i].entity == e && p[i].body && (rotate || !p[i].attachment);
            assert(items[i] == p[i]);
        }
        if exists|i: int| 0 <= i < items.len() && #[trigger] items[i].entity == e && items[i].attachment {
            let i = choose|i: int| 0 <= i < items.len() && #[trigger] items[i].entity == e && items[i].attachment;
            if i < p.len() {
                assert(p[i] == items[i]);
            }
        }
        if exists|i: int| 0 <= i < items.len() && #[trigger] items[i].entity == e && items[i].body && (rotate
            || !items[i].attachment) {
            let i = choose|i: int| 0 <= i < items.len() && #[trigger] items[i].entity == e && items[i].body && (
            rotate || !items[i].attachment);
            if i < p.len() {
                assert(p[i] == items[i]);
            }
        }
        assert(items[items.len() - 1] == last);
    }
}

} // verus!
