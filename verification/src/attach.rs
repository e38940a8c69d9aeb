use vstd::prelude::*;

use crate::ids::EntityId;
use crate::kind::AttachmentKind;

verus! {

/// A fix joint of the scene: its entity and the two geometries it joins (`None` for the
/// sky).
pub type FixJoint = (EntityId, [Option<EntityId>; 2]);

/// A body under the pointer, topmost first: its entity and whether it is a sensor.
#[derive(Clone, Copy, Debug, PartialEq, Eq, Structural)]
pub struct BodyHit {
    pub entity: EntityId,
    pub sensor: bool,
}

/// Whether fix joint `f` other than `current` already joins `a` and `b`, in either order.
pub open spec fn is_duplicate_fix(f: FixJoint, a: EntityId, b: EntityId, current: Option<EntityId>) -> bool {
    current != Some(f.0) && ((f.1[0] == Some(a) && f.1[1] == Some(b)) || (f.1[0] == Some(b)
        && f.1[1] == Some(a)))
}

/// Whether some fix joint other than `current` already joins `a` and `b`.
pub open spec fn duplicate_fix(
    fixes: Seq<FixJoint>,
    a: EntityId,
    b: EntityId,
    current: Option<EntityId>,
) -> bool {
    exists|i: int| 0 <= i < fixes.len() && is_duplicate_fix(#[trigger] fixes[i], a, b, current)
}

/// Whether a fix joint other than `current` already joins `geom1` and `geom2`, in either
/// order.
pub fn duplicate_fix_exists(
    geom1: EntityId,
    geom2: EntityId,
    current: Option<EntityId>,
    fixes: &[FixJoint],
) -> (r: bool)
    ensures
        r == duplicate_fix(fixes@, geom1, geom2, current),
{
    let mut i: usize = 0;
    while i < fixes.len()
        invariant
            0 <= i <= fixes@.len(),
            forall|j: int| 0 <= j < i ==> !is_duplicate_fix(#[trigger] fixes@[j], geom1, geom2, current),
        decreases fixes@.len() - i,
    {
        let (entity, geoms) = fixes[i];
        let other = match current {
            Some(c) => c != entity,
            None => true,
        };
        let joins = (geoms[0] == Some(geom1) && geoms[1] == Some(geom2)) || (geoms[0] == Some(geom2)
            && geoms[1] == Some(geom1));
        if other && joins {
            assert(is_duplicate_fix(fixes@[i as int], geom1, geom2, current));
            return true;
        }
        i = i + 1;
    }
    false
}

/// Where a joint attaches, given the bodies under its point, topmost first: to the topmost
/// body, and also to the next one, except that a fix joint does not join two bodies that
/// another fix joint (other than `current`, the one being moved) already joins. `None`
/// when no body is there.
pub open spec fn joint_placement(
    kind: AttachmentKind,
    hits: Seq<BodyHit>,
    current: Option<EntityId>,
    fixes: Seq<FixJoint>,
) -> Option<(EntityId, Option<EntityId>)> {
    if hits.len() == 0 {
        None
    } else if hits.len() == 1 || (kind == AttachmentKind::Fix && duplicate_fix(
        fixes,
        hits[0].entity,
        hits[1].entity,
        current,
    )) {
        Some((hits[0].entity, None))
    } else {
        Some((hits[0].entity, Some(hits[1].entity)))
    }
}

/// The bodies a joint attaches to at a point, as `joint_placement` says.
pub fn attachment_placement(
    kind: AttachmentKind,
    hits: &[BodyHit],
    current: Option<EntityId>,
    fixes: &[FixJoint],
) -> (r: Option<(EntityId, Option<EntityId>)>)
    ensures
        r == joint_placement(kind, hits@, current, fixes@),
{
    if hits.len() == 0 {
        return None;
    }
    let first = hits[0].entity;
    if hits.len() == 1 {
        return Some((first, None));
    }
    let second = hits[1].entity;
    if kind == AttachmentKind::Fix && duplicate_fix_exists(first, second, current, fixes) {
        Some((first, None))
    } else {
        Some((first, Some(second)))
    }
}

/// What a click with the fix or axle tool does.
#[derive(Clone, Copy, Debug, PartialEq, Eq, Structural)]
pub enum JointClick {
    /// No body there: nothing.
    Nothing,
    /// The topmost body is a sensor: select it instead.
    Select,
    /// Add the joint on the first body, and on the second if there is one.
    Attach(EntityId, Option<EntityId>),
}

/// What a fix or axle click does over `hits`: nothing without a body, a selection on a
/// sensor, else a new joint placed as `joint_placement` says.
pub open spec fn joint_click(kind: AttachmentKind, hits: Seq<BodyHit>, fixes: Seq<FixJoint>) -> JointClick {
    match joint_placement(kind, hits, None, fixes) {
        None => JointClick::Nothing,
        Some((a, b)) => if hits[0].sensor {
            JointClick::Select
        } else {
            JointClick::Attach(a, b)
        },
    }
}

/// What a click that adds a fix joint or an axle does.
pub fn joint_click_outcome(kind: AttachmentKind, hits: &[BodyHit], fixes: &[FixJoint]) -> (r: JointClick)
    ensures
        r == joint_click(kind, hits@, fixes@),
{
    match attachment_placement(kind, hits, None, fixes) {
        None => JointClick::Nothing,
        Some((a, b)) => if hits[0].sensor {
            JointClick::Select
        } else {
            JointClick::Attach(a, b)
        },
    }
}

/// Where a dropped attachment goes.
#[derive(Clone, Copy, Debug, PartialEq, Eq, Structural)]
pub enum Reattach {
    /// Nothing to hold it: the attachment goes away.
    Remove,
    /// It stays in the scene, fixed to the sky.
    Sky,
    /// It goes on the first body, joined to the second if there is one.
    Body(EntityId, Option<EntityId>),
}

/// Where attachment `current` of `kind` goes when dropped over `hits`: a laser goes on the
/// topmost body or the sky; a thruster or tracer on the topmost body, or away; a fix joint
/// or axle where `joint_placement` says, or away.
pub open spec fn reattach(
    kind: AttachmentKind,
    current: EntityId,
    hits: Seq<BodyHit>,
    fixes: Seq<FixJoint>,
) -> Reattach {
    if kind == AttachmentKind::Laser {
        if hits.len() == 0 {
            Reattach::Sky
        } else {
            Reattach::Body(hits[0].entity, None)
        }
    } else if kind == AttachmentKind::Thruster || kind == AttachmentKind::Tracer {
        if hits.len() == 0 {
            Reattach::Remove
        } else {
            Reattach::Body(hits[0].entity, None)
        }
    } else {
        match joint_placement(kind, hits, Some(current), fixes) {
            None => Reattach::Remove,
            Some((a, b)) => Reattach::Body(a, b),
        }
    }
}

/// Where attachment `current` goes when it is dropped over `hits`, as `reattach` says.
pub fn reattach_target(
    kind: AttachmentKind,
    current: EntityId,
    hits: &[BodyHit],
    fixes: &[FixJoint],
) -> (r: Reattach)
    ensures
        r == reattach(kind, current, hits@, fixes@),
{
    match kind {
        AttachmentKind::Laser => if hits.len() == 0 {
            Reattach::Sky
        } else {
            Reattach::Body(hits[0].entity, None)
        },
        AttachmentKind::Thruster | AttachmentKind::Tracer => if hits.len() == 0 {
            Reattach::Remove
        } else {
            Reattach::Body(hits[0].entity, None)
        },
        _ => match attachment_placement(kind, hits, Some(current), fixes) {
            None => Reattach::Remove,
            Some((a, b)) => Reattach::Body(a, b),
        },
    }
}

/// A fix joint placed where another already joins the same two bodies joins only the
/// topmost one: two fix joints never join the same pair twice through placement.
pub proof fn lemma_fix_placement_never_duplicates(
    hits: Seq<BodyHit>,
    current: Option<EntityId>,
    fixes: Seq<FixJoint>,
)
    ensures
        match joint_placement(AttachmentKind::Fix, hits, current, fixes) {
            Some((a, Some(b))) => !duplicate_fix(fixes, a, b, current),
            _ => true,
        },
{
}

/// Law: a dropped attachment is only ever held by what lies under it. Only a laser can be
/// left on the sky, and only when no body is there; anything else dropped over no body is
/// removed; otherwise it goes on the topmost body, and a second body is only ever the next
/// one under the point.
pub proof fn lemma_dropped_attachments_need_a_holder(
    kind: AttachmentKind,
    current: EntityId,
    hits: Seq<BodyHit>,
    fixes: Seq<FixJoint>,
)
    ensures
        reattach(kind, current, hits, fixes) == Reattach::Sky ==> kind == AttachmentKind::Laser
            && hits.len() == 0,
        hits.len() == 0 && kind != AttachmentKind::Laser ==> reattach(kind, current, hits, fixes)
            == Reattach::Remove,
        hits.len() > 0 ==> (reattach(kind, current, hits, fixes) matches Reattach::Body(a, b) && a
            == hits[0].entity && (b is Some ==> hits.len() > 1 && b->0 == hits[1].entity)),
{
}

/// Law: how many bodies a dropped attachment holds on to. A laser, thruster or tracer
/// dropped over a body goes on the topmost body alone, and a laser dropped over no body
/// stays on the sky. An axle over two bodies or more joins the topmost two; a fix joint
/// over two bodies or more joins the topmost two unless another fix joint already joins
/// them, in which case it goes on the topmost alone.
pub proof fn lemma_dropped_attachments_hold_their_bodies(
    kind: AttachmentKind,
    current: EntityId,
    hits: Seq<BodyHit>,
    fixes: Seq<FixJoint>,
)
    ensures
        kind == AttachmentKind::Laser && hits.len() == 0 ==> reattach(kind, current, hits, fixes)
            == Reattach::Sky,
        (kind == AttachmentKind::Laser || kind == AttachmentKind::Thruster || kind
            == AttachmentKind::Tracer) && hits.len() > 0 ==> reattach(kind, current, hits, fixes)
            == Reattach::Body(hits[0].entity, None),
        kind == AttachmentKind::Axle && hits.len() > 1 ==> reattach(kind, current, hits, fixes)
            == Reattach::Body(hits[0].entity, Some(hits[1].entity)),
        kind == AttachmentKind::Fix && hits.len() > 1 ==> reattach(kind, current, hits, fixes)
            == Reattach::Body(
            hits[0].entity,
            if duplicate_fix(fixes, hits[0].entity, hits[1].entity, Some(current)) {
                None
            } else {
                Some(hits[1].entity)
            },
        ),
{
}

/// Law: a fix or axle click acts on the topmost body under the pointer: nothing without a
/// body, a selection when that body is a sensor, otherwise a joint on it, joined to the
/// next body under the point at most.
pub proof fn lemma_joint_clicks_act_on_the_topmost_body(
    kind: AttachmentKind,
    hits: Seq<BodyHit>,
    fixes: Seq<FixJoint>,
)
    ensures
        hits.len() == 0 <==> joint_click(kind, hits, fixes) == JointClick::Nothing,
        hits.len() > 0 && hits[0].sensor ==> joint_click(kind, hits, fixes) == JointClick::Select,
        hits.len() > 0 && !hits[0].sensor ==> (joint_click(kind, hits, fixes) matches JointClick::Attach(a, b)
            && a == hits[0].entity && (b is Some ==> hits.len() > 1 && b->0 == hits[1].entity)),
        hits.len() > 1 && !hits[0].sensor && kind == AttachmentKind::Axle ==> joint_click(kind, hits, fixes)
            == JointClick::Attach(hits[0].entity, Some(hits[1].entity)),
{
}

} // verus!
