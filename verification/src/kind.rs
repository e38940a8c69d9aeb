use vstd::prelude::*;

use crate::text::{decimal, usize_text};

verus! {

/// The attachments that can be pinned to a body.
#[derive(Clone, Copy, Debug, PartialEq, Eq, Structural, Hash)]
pub enum AttachmentKind {
    Fix,
    Axle,
    Laser,
    Thruster,
    Tracer,
}

/// The kinds of scene objects the interface names.
#[derive(Clone, Copy, Debug, PartialEq, Eq, Structural, Hash)]
pub enum ObjectKind {
    Polygon,
    Box,
    Circle,
    Plane,
    Spring,
    FixJoint,
    Axle,
    Tracer,
    LaserPen,
    Thruster,
}

/// The name of one object of a kind.
pub open spec fn singular_name(kind: ObjectKind) -> Seq<char> {
    match kind {
        ObjectKind::Polygon => "Polygon"@,
        ObjectKind::Box => "Box"@,
        ObjectKind::Circle => "Circle"@,
        ObjectKind::Plane => "Plane"@,
        ObjectKind::Spring => "Spring"@,
        ObjectKind::FixJoint => "Fix joint"@,
        ObjectKind::Axle => "Axle"@,
        ObjectKind::Tracer => "Tracer"@,
        ObjectKind::LaserPen => "Laser pen"@,
        ObjectKind::Thruster => "Thruster"@,
    }
}

/// The name of several objects of a kind.
pub open spec fn plural_name(kind: ObjectKind) -> Seq<char> {
    match kind {
        ObjectKind::Polygon => "polygons"@,
        ObjectKind::Box => "boxes"@,
        ObjectKind::Circle => "circles"@,
        ObjectKind::Plane => "planes"@,
        ObjectKind::Spring => "springs"@,
        ObjectKind::FixJoint => "fix joints"@,
        ObjectKind::Axle => "axles"@,
        ObjectKind::Tracer => "tracers"@,
        ObjectKind::LaserPen => "laser pens"@,
        ObjectKind::Thruster => "thrusters"@,
    }
}

/// Polygons, boxes, circles and planes are geometry; the rest attach to geometry.
pub open spec fn is_geometry_kind(kind: ObjectKind) -> bool {
    kind == ObjectKind::Polygon || kind == ObjectKind::Box || kind == ObjectKind::Circle || kind
        == ObjectKind::Plane
}

/// "`count` `plural`", or the singular name for a single object.
pub open spec fn title_text(kind: ObjectKind, count: nat) -> Seq<char> {
    if count == 1 {
        singular_name(kind)
    } else {
        decimal(count) + " "@ + plural_name(kind)
    }
}

/// The window title for a selection of objects of the given kinds plus `unknown` objects of
/// no known kind: the kind's title when all share one kind, "N geometries" when all are
/// geometry, otherwise "Object" or "N objects".
pub open spec fn selection_title_text(kinds: Seq<ObjectKind>, unknown: nat) -> Seq<char> {
    let count = kinds.len() + unknown;
    if count == 0 {
        "Object"@
    } else if unknown == 0 && (forall|i: int| 0 <= i < kinds.len() ==> #[trigger] kinds[i] == kinds[0]) {
        title_text(kinds[0], count)
    } else if unknown == 0 && (forall|i: int|
        0 <= i < kinds.len() ==> is_geometry_kind(#[trigger] kinds[i])) {
        decimal(count) + " geometries"@
    } else if count == 1 {
        "Object"@
    } else {
        decimal(count) + " objects"@
    }
}

impl ObjectKind {
    /// The name of one object of this kind.
    pub fn singular(self) -> (r: &'static str)
        ensures
            r@ == singular_name(self),
    {
        match self {
            ObjectKind::Polygon => "Polygon",
            ObjectKind::Box => "Box",
            ObjectKind::Circle => "Circle",
            ObjectKind::Plane => "Plane",
            ObjectKind::Spring => "Spring",
            ObjectKind::FixJoint => "Fix joint",
            ObjectKind::Axle => "Axle",
            ObjectKind::Tracer => "Tracer",
            ObjectKind::LaserPen => "Laser pen",
            ObjectKind::Thruster => "Thruster",
        }
    }

    /// The name of several objects of this kind.
    pub fn plural(self) -> (r: &'static str)
        ensures
            r@ == plural_name(self),
    {
        match self {
            ObjectKind::Polygon => "polygons",
            ObjectKind::Box => "boxes",
            ObjectKind::Circle => "circles",
            ObjectKind::Plane => "planes",
            ObjectKind::Spring => "springs",
            ObjectKind::FixJoint => "fix joints",
            ObjectKind::Axle => "axles",
            ObjectKind::Tracer => "tracers",
            ObjectKind::LaserPen => "laser pens",
            ObjectKind::Thruster => "thrusters",
        }
    }

    /// Whether this kind is geometry (polygon, box, circle or plane).
    pub fn is_geometry(self) -> (r: bool)
        ensures
            r == is_geometry_kind(self),
    {
        match self {
            ObjectKind::Polygon | ObjectKind::Box | ObjectKind::Circle | ObjectKind::Plane => true,
            _ => false,
        }
    }

    /// "Box" for one box, "3 boxes" for three.
    pub fn title(self, count: usize) -> (r: String)
        ensures
            r@ == title_text(self, count as nat),
    {
        if count == 1 {
            self.singular().to_owned()
        } else {
            let mut text = usize_text(count);
            text.append(" ");
            text.append(self.plural());
            text
        }
    }
}

/// The window title for a selection (see `selection_title_text`).
pub fn selection_title(kinds: &[ObjectKind], unknown_objects: usize) -> (r: String)
    requires
        kinds@.len() + unknown_objects <= usize::MAX,
    ensures
        r@ == selection_title_text(kinds@, unknown_objects as nat),
{
    let count: usize = kinds.len() + unknown_objects;
    if count == 0 {
        return "Object".to_owned();
    }
    if unknown_objects == 0 {
        let first = kinds[0];
        let mut same = true;
        let mut geometry = true;
        let mut i: usize = 0;
        while i < kinds.len()
            invariant
                0 <= i <= kinds@.len(),
                kinds@.len() > 0,
                first == kinds@[0],
                same == (forall|j: int| 0 <= j < i ==> #[trigger] kinds@[j] == first),
                geometry == (forall|j: int| 0 <= j < i ==> is_geometry_kind(#[trigger] kinds@[j])),
            decreases kinds@.len() - i,
        {
            let k = kinds[i];
            if k != first {
                same = false;
            }
            if !k.is_geometry() {
                geometry = false;
            }
            proof {
                if !same {
                    assert(!(forall|j: int| 0 <= j < i + 1 ==> #[trigger] kinds@[j] == first));
                }
            }
            i = i + 1;
        }
        if same {
            return first.title(count);
        }
        if geometry {
            let mut text = usize_text(count);
            text.append(" geometries");
            return text;
        }
    }
    if count == 1 {
        "Object".to_owned()
    } else {
        let mut text = usize_text(count);
        text.append(" objects");
        text
    }
}

/// Which of the components that decide an object's kind an entity carries.
#[derive(Clone, Copy, Debug)]
pub struct ObjectComponents {
    pub attachment: Option<AttachmentKind>,
    pub spring: bool,
    pub spring_end: bool,
    pub plane: bool,
    pub polygon: bool,
    /// For a box-or-circle visual: whether its radius is positive (a circle).
    pub circle_with_radius: Option<bool>,
    pub axle: bool,
    pub fix: bool,
}

/// The kind of an object from its components: attachments first, then springs (a spring's
/// end handle has no kind), axles, fix joints, planes, polygons, and circles versus boxes.
pub open spec fn kind_of(c: ObjectComponents) -> Option<ObjectKind> {
    if c.attachment is Some {
        Some(
            match c.attachment->0 {
                AttachmentKind::Fix => ObjectKind::FixJoint,
                AttachmentKind::Axle => ObjectKind::Axle,
                AttachmentKind::Laser => ObjectKind::LaserPen,
                AttachmentKind::Thruster => ObjectKind::Thruster,
                AttachmentKind::Tracer => ObjectKind::Tracer,
            },
        )
    } else if c.spring {
        Some(ObjectKind::Spring)
    } else if c.spring_end {
        None
    } else if c.axle {
        Some(ObjectKind::Axle)
    } else if c.fix {
        Some(ObjectKind::FixJoint)
    } else if c.plane {
        Some(ObjectKind::Plane)
    } else if c.polygon {
        Some(ObjectKind::Polygon)
    } else {
        match c.circle_with_radius {
            Some(round) => Some(if round { ObjectKind::Circle } else { ObjectKind::Box }),
            None => None,
        }
    }
}

impl ObjectComponents {
    /// The kind these components make (see `kind_of`).
    pub fn kind(&self) -> (r: Option<ObjectKind>)
        ensures
            r == kind_of(*self),
    {
        if let Some(attachment) = self.attachment {
            return Some(
                match attachment {
                    AttachmentKind::Fix => ObjectKind::FixJoint,
                    AttachmentKind::Axle => ObjectKind::Axle,
                    AttachmentKind::Laser => ObjectKind::LaserPen,
                    AttachmentKind::Thruster => ObjectKind::Thruster,
                    AttachmentKind::Tracer => ObjectKind::Tracer,
                },
            );
        }
        if self.spring {
            return Some(ObjectKind::Spring);
        }
        if self.spring_end {
            return None;
        }
        if self.axle {
            return Some(ObjectKind::Axle);
        }
        if self.fix {
            return Some(ObjectKind::FixJoint);
        }
        if self.plane {
            return Some(ObjectKind::Plane);
        }
        if self.polygon {
            return Some(ObjectKind::Polygon);
        }
        match self.circle_with_radius {
            Some(round) => Some(if round { ObjectKind::Circle } else { ObjectKind::Box }),
            None => None,
        }
    }
}

/// The kinds of the known objects among `objects`, in order (entities that are not scene
/// objects, `None`, are skipped).
pub open spec fn known_kinds(objects: Seq<Option<ObjectComponents>>) -> Seq<ObjectKind>
    decreases objects.len(),
{
    if objects.len() == 0 {
        Seq::empty()
    } else {
        let rest = known_kinds(objects.drop_last());
        match objects.last() {
            Some(c) => match kind_of(c) {
                Some(k) => rest.push(k),
                None => rest,
            },
            None => rest,
        }
    }
}

/// How many of `objects` are scene objects of no known kind (spring end handles excluded).
pub open spec fn unknown_count(objects: Seq<Option<ObjectComponents>>) -> nat
    decreases objects.len(),
{
    if objects.len() == 0 {
        0
    } else {
        let rest = unknown_count(objects.drop_last());
        match objects.last() {
            Some(c) => if kind_of(c) is None && !c.spring_end {
                rest + 1
            } else {
                rest
            },
            None => rest,
        }
    }
}

proof fn lemma_counts_bounded(objects: Seq<Option<ObjectComponents>>)
    ensures
        known_kinds(objects).len() + unknown_count(objects) <= objects.len(),
    decreases objects.len(),
{
    if objects.len() > 0 {
        lemma_counts_bounded(objects.drop_last());
    }
}

/// The window title for the selected entities, given what each one carries (`None` for
/// an entity that is not a scene object).
pub fn objects_selection_title(objects: &[Option<ObjectComponents>]) -> (r: String)
    ensures
        r@ == selection_title_text(known_kinds(objects@), unknown_count(objects@)),
{
    let mut kinds: Vec<ObjectKind> = Vec::new();
    let mut unknown_objects: usize = 0;
    let mut i: usize = 0;
    while i < objects.len()
        invariant
            0 <= i <= objects@.len(),
            kinds@ == known_kinds(objects@.subrange(0, i as int)),
            unknown_objects == unknown_count(objects@.subrange(0, i as int)),
            kinds@.len() + unknown_objects <= i,
        decreases objects@.len() - i,
    {
        proof {
            assert(objects@.subrange(0, i + 1).drop_last() =~= objects@.subrange(0, i as int));
            lemma_counts_bounded(objects@.subrange(0, i + 1));
        }
        match objects[i] {
            Some(c) => match c.kind() {
                Some(k) => {
                    kinds.push(k);
                },
                None => {
                    if !c.spring_end {
                        unknown_objects = unknown_objects + 1;
                    }
                },
            },
            None => {},
        }
        i = i + 1;
    }
    proof {
        assert(objects@.subrange(0, objects@.len() as int) =~= objects@);
    }
    selection_title(kinds.as_slice(), unknown_objects)
}

} // verus!
