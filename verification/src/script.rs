use std::collections::HashMap;

use vstd::prelude::*;

use crate::ids::EntityId;
use crate::text::{decimal, i32_text};

verus! {

/// The kinds of error a host function reports to a script.
#[derive(Clone, Copy, Debug, PartialEq, Eq, Structural)]
pub enum HostErrorKind {
    Intrinsic,
    InvalidType,
    UnknownObject,
    UnknownProperty,
    Other,
}

/// An error a host function reports to a script: its kind and its message.
#[derive(Clone, Debug)]
pub struct HostError {
    pub kind: HostErrorKind,
    pub message: String,
}

/// The message of a value of the wrong type: "`name` expects `expected`".
pub open spec fn type_message(name: Seq<char>, expected: Seq<char>) -> Seq<char> {
    name + " expects "@ + expected
}

/// The message of a missing object: "missing `name`".
pub open spec fn missing_message(name: Seq<char>) -> Seq<char> {
    "missing "@ + name
}

/// The error for a value given to `name` that is not a `expected`.
pub fn type_error(name: &str, expected: &str) -> (e: HostError)
    ensures
        e.kind == HostErrorKind::InvalidType,
        e.message@ == type_message(name@, expected@),
{
    let mut message = name.to_owned();
    message.append(" expects ");
    message.append(expected);
    HostError { kind: HostErrorKind::InvalidType, message }
}

/// The error for an object `name` that is not there.
pub fn object_error(name: &str) -> (e: HostError)
    ensures
        e.kind == HostErrorKind::UnknownObject,
        e.message@ == missing_message(name@),
{
    let mut message = String::from_str("missing ");
    message.append(name);
    HostError { kind: HostErrorKind::UnknownObject, message }
}

/// A count that must be at least two (the axes of a grid, the teeth of a gear): the value
/// itself, or a type error for `name`.
pub fn int_at_least_two(value: i32, name: &str) -> (r: Result<u32, HostError>)
    ensures
        match r {
            Ok(v) => value >= 2 && v == value,
            Err(e) => value < 2 && e.kind == HostErrorKind::InvalidType && e.message@
                == type_message(name@, "int >= 2"@),
        },
{
    if value >= 2 {
        Ok(value as u32)
    } else {
        Err(type_error(name, "int >= 2"))
    }
}

/// The two ids a scene file gives its objects while it loads.
#[derive(Clone, Copy, Debug, PartialEq, Eq, Structural, Hash)]
pub enum LoadId {
    /// `entityID`: names an object, for joints and lookups.
    Entity,
    /// `geomID`: names a geometry, for the ends of hinges.
    Geometry,
}

/// The property that sets a load id of `kind`.
pub open spec fn load_id_name(kind: LoadId) -> Seq<char> {
    match kind {
        LoadId::Entity => "entityID"@,
        LoadId::Geometry => "geomID"@,
    }
}

/// The load id that property `name` sets, if it sets one.
pub fn load_id(name: &str) -> (r: Option<LoadId>)
    ensures
        match r {
            Some(k) => name@ == load_id_name(k),
            None => name@ != load_id_name(LoadId::Entity) && name@ != load_id_name(LoadId::Geometry),
        },
{
    let entity_name = "entityID";
    let geometry_name = "geomID";
    proof {
        reveal_strlit("entityID");
        reveal_strlit("geomID");
    }
    if str_equal(name, entity_name) {
        Some(LoadId::Entity)
    } else if str_equal(name, geometry_name) {
        Some(LoadId::Geometry)
    } else {
        None
    }
}

fn str_equal(a: &str, b: &str) -> (r: bool)
    ensures
        r == (a@ == b@),
{
    let n = a.unicode_len();
    if n != b.unicode_len() {
        return false;
    }
    let mut i: usize = 0;
    while i < n
        invariant
            n == a@.len(),
            n == b@.len(),
            0 <= i <= n,
            forall|j: int| 0 <= j < i ==> a@[j] == b@[j],
        decreases n - i,
    {
        if a.get_char(i) != b.get_char(i) {
            return false;
        }
        i = i + 1;
    }
    assert(a@ =~= b@);
    true
}

/// The ids a loading scene has given its objects: for each kind, which object an id
/// names, and which id each object was last given.
pub struct SceneLoad {
    loading: bool,
    entities: HashMap<i32, EntityId>,
    geometries: HashMap<i32, EntityId>,
    entity_ids: HashMap<EntityId, i32>,
    geometry_ids: HashMap<EntityId, i32>,
}

/// What a `SceneLoad` holds, as plain values.
pub struct SceneLoadModel {
    pub loading: bool,
    /// For each kind, the object each id names.
    pub named: Map<LoadId, Map<i32, EntityId>>,
    /// For each kind, the id each object was last given.
    pub given: Map<LoadId, Map<EntityId, i32>>,
}

impl View for SceneLoad {
    type V = SceneLoadModel;

    closed spec fn view(&self) -> SceneLoadModel {
        SceneLoadModel {
            loading: self.loading,
            named: map![LoadId::Entity => self.entities@, LoadId::Geometry => self.geometries@],
            given: map![LoadId::Entity => self.entity_ids@, LoadId::Geometry => self.geometry_ids@],
        }
    }
}

impl SceneLoadModel {
    /// Both kinds have a table.
    pub open spec fn wf(self) -> bool {
        &&& self.named.contains_key(LoadId::Entity)
        &&& self.named.contains_key(LoadId::Geometry)
        &&& self.given.contains_key(LoadId::Entity)
        &&& self.given.contains_key(LoadId::Geometry)
    }

    /// The object id `id` of `kind` names, if any.
    pub open spec fn lookup(self, kind: LoadId, id: i32) -> Option<EntityId> {
        if self.named[kind].contains_key(id) {
            Some(self.named[kind][id])
        } else {
            None
        }
    }

    /// Giving object `e` the id `id` of `kind`: the id names `e`, and the id `e` had before
    /// stops naming it (unless something else took it over since).
    pub open spec fn given_id(self, e: EntityId, kind: LoadId, id: i32) -> SceneLoadModel {
        let named = self.named[kind];
        let given = self.given[kind];
        let released = if given.contains_key(e) && named.contains_key(given[e]) && named[given[e]]
            == e {
            named.remove(given[e])
        } else {
            named
        };
        SceneLoadModel {
            named: self.named.insert(kind, released.insert(id, e)),
            given: self.given.insert(kind, given.insert(e, id)),
            ..self
        }
    }
}

/// No ids at all, and not loading.
pub open spec fn empty_load(loading: bool) -> SceneLoadModel {
    SceneLoadModel {
        loading,
        named: map![LoadId::Entity => Map::empty(), LoadId::Geometry => Map::empty()],
        given: map![LoadId::Entity => Map::empty(), LoadId::Geometry => Map::empty()],
    }
}

impl SceneLoad {
    /// No scene loading, no ids.
    pub fn new() -> (r: SceneLoad)
        ensures
            r@ == empty_load(false),
    {
        SceneLoad {
            loading: false,
            entities: HashMap::new(),
            geometries: HashMap::new(),
            entity_ids: HashMap::new(),
            geometry_ids: HashMap::new(),
        }
    }

    /// Whether a scene is loading.
    pub fn loading(&self) -> (r: bool)
        ensures
            r == self@.loading,
    {
        self.loading
    }

    /// A scene starts loading: the tables of ids start empty; ids given to objects earlier
    /// are still remembered.
    pub fn begin_scene_load(&mut self)
        ensures
            final(self)@ == (SceneLoadModel {
                loading: true,
                named: empty_load(true).named,
                given: old(self)@.given,
            }),
    {
        self.loading = true;
        self.entities.clear();
        self.geometries.clear();
        proof {
            assert(self@.named =~= empty_load(true).named);
            assert(self@.given =~= old(self)@.given);
        }
    }

    /// A scene has loaded: every id is forgotten.
    pub fn end_scene_load(&mut self)
        ensures
            final(self)@ == empty_load(false),
    {
        self.loading = false;
        self.entities.clear();
        self.geometries.clear();
        self.entity_ids.clear();
        self.geometry_ids.clear();
        proof {
            assert(self@.named =~= empty_load(false).named);
            assert(self@.given =~= empty_load(false).given);
        }
    }

    /// The object that id `id` of `kind` names.
    pub fn load_entity(&self, kind: LoadId, id: i32) -> (r: Option<EntityId>)
        ensures
            r == self@.lookup(kind, id),
    {
        broadcast use vstd::std_specs::hash::group_hash_axioms;

        let table = match kind {
            LoadId::Entity => &self.entities,
            LoadId::Geometry => &self.geometries,
        };
        match table.get(&id) {
            Some(e) => Some(*e),
            None => None,
        }
    }

    /// Gives the object of a script instance the id `id` of `kind`; an instance of no
    /// object has no id to take, and nothing changes.
    pub fn set_load_id(&mut self, entity: Option<EntityId>, kind: LoadId, id: i32) -> (r: Result<
        (),
        HostError,
    >)
        ensures
            match entity {
                Some(e) => r is Ok && final(self)@ == old(self)@.given_id(e, kind, id),
                None => r matches Err(err) && err.kind == HostErrorKind::UnknownObject
                    && err.message@ == missing_message("ID"@) && final(self)@ == old(self)@,
            },
    {
        broadcast use vstd::std_specs::hash::group_hash_axioms;

        let e = match entity {
            Some(e) => e,
            None => {
                proof {
                    reveal_strlit("ID");
                }
                return Err(object_error("ID"));
            },
        };
        let ghost before = self@;
        match kind {
            LoadId::Entity => {
                let old_id = self.entity_ids.insert(e, id);
                if let Some(o) = old_id {
                    let holder = match self.entities.get(&o) {
                        Some(h) => Some(*h),
                        None => None,
                    };
                    if holder == Some(e) {
                        self.entities.remove(&o);
                    }
                }
                self.entities.insert(id, e);
            },
            LoadId::Geometry => {
                let old_id = self.geometry_ids.insert(e, id);
                if let Some(o) = old_id {
                    let holder = match self.geometries.get(&o) {
                        Some(h) => Some(*h),
                        None => None,
                    };
                    if holder == Some(e) {
                        self.geometries.remove(&o);
                    }
                }
                self.geometries.insert(id, e);
            },
        }
        proof {
            let want = before.given_id(e, kind, id);
            assert(self@.named =~= want.named);
            assert(self@.given =~= want.given);
        }
        Ok(())
    }
}

/// The geometry a script id stands for while a scene may be loading: the object the
/// loading scene gave that `geomID`, else the object `found` by the raw id.
pub open spec fn geometry_candidate(load: SceneLoadModel, id: i32, found: Option<EntityId>) -> Option<
    EntityId,
> {
    if load.loading && load.lookup(LoadId::Geometry, id) is Some {
        load.lookup(LoadId::Geometry, id)
    } else {
        found
    }
}

impl SceneLoad {
    /// The object that script id `id` stands for as a geometry, before it is checked to be
    /// one: a `geomID` of the loading scene wins over the object `found` by that raw id.
    pub fn geometry_candidate(&self, id: i32, found: Option<EntityId>) -> (r: Option<EntityId>)
        ensures
            r == geometry_candidate(self@, id, found),
    {
        if self.loading {
            if let Some(e) = self.load_entity(LoadId::Geometry, id) {
                return Some(e);
            }
        }
        found
    }
}

/// How a script's geometry id resolves: id 0 is the sky (`None`); otherwise the candidate
/// object if it is a geometry, else an error naming the missing geometry.
pub fn resolve_geometry(id: i32, candidate: Option<EntityId>, candidate_is_geometry: bool) -> (r:
    Result<Option<EntityId>, HostError>)
    ensures
        id == 0 ==> r matches Ok(None),
        id != 0 ==> match r {
            Ok(g) => candidate is Some && candidate_is_geometry && g == candidate,
            Err(e) => !(candidate is Some && candidate_is_geometry) && e.kind
                == HostErrorKind::UnknownObject && e.message@ == missing_message(
                "geometry "@ + (if id < 0 {
                    seq!['-'] + decimal((-id) as nat)
                } else {
                    decimal(id as nat)
                }),
            ),
        },
{
    if id == 0 {
        return Ok(None);
    }
    match candidate {
        Some(e) if candidate_is_geometry => Ok(Some(e)),
        _ => {
            let mut name = String::from_str("geometry ");
            let digits = i32_text(id);
            name.append(digits.as_str());
            Err(object_error(name.as_str()))
        },
    }
}

/// Law: a load id reads back the object it was last given to, and ids given to other
/// objects or of the other kind are untouched.
pub proof fn lemma_load_id_reads_back(m: SceneLoadModel, e: EntityId, kind: LoadId, id: i32)
    requires
        m.wf(),
    ensures
        m.given_id(e, kind, id).wf(),
        m.given_id(e, kind, id).lookup(kind, id) == Some(e),
        forall|k: LoadId, other: i32|
            #![trigger m.given_id(e, kind, id).lookup(k, other)]
            (k != kind || (other != id && m.lookup(k, other) != Some(e))) ==> m.given_id(
                e,
                kind,
                id,
            ).lookup(k, other) == m.lookup(k, other),
{
}

/// Law: giving an object a new id of a kind retires its previous one: the old id no longer
/// names the object.
pub proof fn lemma_new_load_id_retires_the_old(
    m: SceneLoadModel,
    e: EntityId,
    kind: LoadId,
    old_id: i32,
    id: i32,
)
    requires
        m.wf(),
        old_id != id,
    ensures
        m.given_id(e, kind, old_id).given_id(e, kind, id).lookup(kind, old_id) is None,
{
}

/// The ids of the native objects scripts see: a counter for fresh ids, and the object
/// already made for each scene entity.
pub struct InstanceIds {
    next_id: u64,
    entities: HashMap<EntityId, u64>,
}

/// What an `InstanceIds` holds, as plain values.
pub struct InstanceIdsModel {
    pub next_id: nat,
    pub entities: Map<EntityId, u64>,
}

impl View for InstanceIds {
    type V = InstanceIdsModel;

    closed spec fn view(&self) -> InstanceIdsModel {
        InstanceIdsModel { next_id: self.next_id as nat, entities: self.entities@ }
    }
}

impl InstanceIdsModel {
    /// Every entity's object has an id handed out already, and no two entities share one.
    pub open spec fn wf(self) -> bool {
        &&& forall|e: EntityId| #[trigger] self.entities.contains_key(e) ==> self.entities[e]
            < self.next_id
        &&& forall|a: EntityId, b: EntityId|
            #![trigger self.entities[a], self.entities[b]]
            self.entities.contains_key(a) && self.entities.contains_key(b) && a != b
                ==> self.entities[a] != self.entities[b]
    }
}

impl InstanceIds {
    /// No object made yet.
    pub fn new() -> (r: InstanceIds)
        ensures
            r@.wf(),
            r@.next_id == 0,
            r@.entities == Map::<EntityId, u64>::empty(),
    {
        InstanceIds { next_id: 0, entities: HashMap::new() }
    }

    /// A fresh id for a new object (a global, a namespace or a scene entity's object).
    pub fn allocate(&mut self) -> (id: u64)
        requires
            old(self)@.wf(),
            old(self)@.next_id < u64::MAX,
        ensures
            final(self)@.wf(),
            id == old(self)@.next_id,
            final(self)@.next_id == old(self)@.next_id + 1,
            final(self)@.entities == old(self)@.entities,
    {
        let id = self.next_id;
        self.next_id = self.next_id + 1;
        proof {
            assert(self@.entities == old(self)@.entities);
            assert forall|x: EntityId| #[trigger] self@.entities.contains_key(x) implies self@.entities[x]
                < self@.next_id by {
                assert(old(self)@.entities.contains_key(x));
            }
        }
        id
    }

    /// The id of the object for scene entity `e`: the one made before, or a fresh one,
    /// then remembered; `fresh` tells which.
    pub fn ensure_entity(&mut self, e: EntityId) -> (r: (u64, bool))
        requires
            old(self)@.wf(),
            old(self)@.next_id < u64::MAX,
        ensures
            final(self)@.wf(),
            old(self)@.entities.contains_key(e) ==> r == (old(self)@.entities[e], false)
                && final(self)@ == old(self)@,
            !old(self)@.entities.contains_key(e) ==> r == (old(self)@.next_id as u64, true)
                && final(self)@.next_id == old(self)@.next_id + 1 && final(self)@.entities
                == old(self)@.entities.insert(e, r.0),
    {
        broadcast use vstd::std_specs::hash::group_hash_axioms;

        match self.entities.get(&e) {
            Some(id) => {
                let id = *id;
                (id, false)
            },
            None => {
                let id = self.allocate();
                self.entities.insert(e, id);
                proof {
                    assert(self@.entities == old(self)@.entities.insert(e, id));
                }
                (id, true)
            },
        }
    }

    /// The id of the object made for scene entity `e`, if one was made.
    pub fn entity_object(&self, e: EntityId) -> (r: Option<u64>)
        ensures
            r == (if self@.entities.contains_key(e) {
                Some(self@.entities[e])
            } else {
                None
            }),
    {
        broadcast use vstd::std_specs::hash::group_hash_axioms;

        match self.entities.get(&e) {
            Some(id) => Some(*id),
            None => None,
        }
    }
}

/// Law: each scene entity has one object, and no two entities share an object.
pub proof fn lemma_entity_objects_are_unique(m: InstanceIdsModel, a: EntityId, b: EntityId)
    requires
        m.wf(),
        m.entities.contains_key(a),
        m.entities.contains_key(b),
    ensures
        m.entities[a] == m.entities[b] <==> a == b,
{
}

/// A hinge built by a script names its two geometries by id; naming none (both 0, the sky)
/// is an error.
pub fn check_hinge_geometries(geom_ids: [i32; 2]) -> (r: Result<(), HostError>)
    ensures
        match r {
            Ok(()) => geom_ids[0] != 0 || geom_ids[1] != 0,
            Err(e) => geom_ids[0] == 0 && geom_ids[1] == 0 && e.kind == HostErrorKind::UnknownObject
                && e.message@ == missing_message("addHinge geometry"@),
        },
{
    if geom_ids[0] == 0 && geom_ids[1] == 0 {
        Err(object_error("addHinge geometry"))
    } else {
        Ok(())
    }
}

/// How a hinge's anchors are completed: which anchor is put at its geometry's origin when
/// the script gave none, and which one is derived from the other so both mark one point.
#[derive(Clone, Copy, Debug, PartialEq, Eq, Structural)]
pub struct AnchorPlan {
    pub zeroed: Option<usize>,
    pub derived: Option<usize>,
}

/// With no anchor given, the first geometry's anchor (the second's, when the first end is
/// the sky) goes at its origin; then a missing anchor is derived from the present one.
pub open spec fn anchor_plan(geoms: [Option<EntityId>; 2], given: [bool; 2]) -> AnchorPlan {
    let zeroed: Option<usize> = if !given[0] && !given[1] {
        Some(if geoms[0] is Some { 0usize } else { 1usize })
    } else {
        None
    };
    let has0 = given[0] || zeroed == Some(0usize);
    let has1 = given[1] || zeroed == Some(1usize);
    AnchorPlan {
        zeroed,
        derived: if has0 && !has1 {
            Some(1usize)
        } else if has1 && !has0 {
            Some(0usize)
        } else {
            None
        },
    }
}

/// How the anchors of a script's hinge are completed, given its geometries (`None` for the
/// sky) and which anchors the script set.
pub fn hinge_anchor_plan(geoms: [Option<EntityId>; 2], given: [bool; 2]) -> (r: AnchorPlan)
    ensures
        r == anchor_plan(geoms, given),
        r.derived is Some ==> r.derived->0 < 2 && !given[r.derived->0 as int],
        (given[0] && given[1]) ==> r == (AnchorPlan { zeroed: None, derived: None }),
{
    let zeroed: Option<usize> = if !given[0] && !given[1] {
        Some(if geoms[0].is_some() { 0usize } else { 1usize })
    } else {
        None
    };
    let has0 = given[0] || zeroed == Some(0usize);
    let has1 = given[1] || zeroed == Some(1usize);
    let derived: Option<usize> = if has0 && !has1 {
        Some(1usize)
    } else if has1 && !has0 {
        Some(0usize)
    } else {
        None
    };
    AnchorPlan { zeroed, derived }
}

/// The error for polygon vertex data a script left out.
pub open spec fn vertex_data_error(surface_lengths: Option<Seq<usize>>, vecs_length: Option<usize>) -> Option<
    Seq<char>,
> {
    match surface_lengths {
        Some(ls) => if ls.len() == 0 || (exists|i: int| 0 <= i < ls.len() && #[trigger] ls[i] < 3) {
            Some("invalid vertex data"@)
        } else {
            None
        },
        None => match vecs_length {
            Some(n) => if n < 3 {
                Some("invalid vertex data"@)
            } else {
                None
            },
            None => Some("missing vertex data"@),
        },
    }
}

/// Checks the vertex data of a script's polygon by its shape: the surfaces (their lengths)
/// win over a single outline (`vecs`); without either the data is missing; without a surface
/// or with one of fewer than three points it is invalid.
pub fn check_vertex_data(surface_lengths: Option<&[usize]>, vecs_length: Option<usize>) -> (r: Result<
    (),
    HostError,
>)
    ensures
        match r {
            Ok(()) => vertex_data_error(
                match surface_lengths {
                    Some(ls) => Some(ls@),
                    None => None,
                },
                vecs_length,
            ) is None,
            Err(e) => e.kind == HostErrorKind::Intrinsic && vertex_data_error(
                match surface_lengths {
                    Some(ls) => Some(ls@),
                    None => None,
                },
                vecs_length,
            ) == Some(e.message@),
        },
{
    let invalid = match surface_lengths {
        Some(ls) => {
            let mut bad = ls.len() == 0;
            let mut i: usize = 0;
            while i < ls.len()
                invariant
                    0 <= i <= ls@.len(),
                    bad == (ls@.len() == 0 || exists|j: int| 0 <= j < i && #[trigger] ls@[j] < 3),
                decreases ls@.len() - i,
            {
                if ls[i] < 3 {
                    bad = true;
                }
                i = i + 1;
            }
            bad
        },
        None => match vecs_length {
            Some(n) => n < 3,
            None => {
                return Err(
                    HostError { kind: HostErrorKind::Intrinsic, message: "missing vertex data".to_owned() },
                );
            },
        },
    };
    if invalid {
        Err(HostError { kind: HostErrorKind::Intrinsic, message: "invalid vertex data".to_owned() })
    } else {
        Ok(())
    }
}

/// An event handed to a script's handler: whether a handler marked it handled, and the
/// native object it happened to.
#[derive(Clone, Copy, Debug, PartialEq, Eq, Structural)]
pub struct ScriptEvent {
    pub handled: bool,
    pub this: u64,
}

/// A fresh event for the object `this`, not yet handled.
pub fn event_object(this: u64) -> (r: ScriptEvent)
    ensures
        r == (ScriptEvent { handled: false, this }),
{
    ScriptEvent { handled: false, this }
}

/// A value a script passes to a host function, as far as the host reads it.
#[derive(Clone, Debug)]
pub enum ScriptArgument {
    Text(String),
    Other,
}

/// The path a script's `Scene.open` or `Scene.import` asks to load: its argument must be
/// text; anything else is a type error for `scene path`.
pub fn queue_scene(argument: &ScriptArgument) -> (r: Result<String, HostError>)
    ensures
        match argument {
            ScriptArgument::Text(p) => r matches Ok(q) && q@ == p@,
            ScriptArgument::Other => r matches Err(e) && e.kind == HostErrorKind::InvalidType
                && e.message@ == type_message("scene path"@, "string"@),
        },
{
    match argument {
        ScriptArgument::Text(path) => Ok(path.clone()),
        ScriptArgument::Other => Err(type_error("scene path", "string")),
    }
}

/// `bevy_ecs::entity::Entity::from_raw_u32`, read back with `Entity::index_u32`: the
/// crate's source makes an entity of that index unless the index is `u32::MAX`.
#[verifier::external_body]
fn raw_entity_index(index: u32) -> (r: Option<u32>)
    ensures
        r == (if index == u32::MAX {
            None::<u32>
        } else {
            Some(index)
        }),
{
    bevy_ecs::entity::Entity::from_raw_u32(index).map(|entity| entity.index_u32())
}

/// The entity index a script's id names: the id's bits, except for -1, whose bits are the
/// one index no entity can have.
pub open spec fn script_entity_index(id: i32) -> Option<u32> {
    if id == -1 {
        None
    } else {
        Some(id as u32)
    }
}

/// The entity index a script's id names (see `script_entity_index`). Whether a live entity
/// holds that index is for the world to say.
pub fn real_entity(id: i32) -> (r: Option<u32>)
    ensures
        r == script_entity_index(id),
{
    let index = id as u32;
    assert(index == u32::MAX <==> id == -1) by (bit_vector)
        requires
            index == id as u32,
    ;
    raw_entity_index(index)
}

/// The id scripts see for the entity at `index`: the index's bits as a signed number.
pub fn entity_script_id(index: u32) -> (r: i32)
    ensures
        r == index as i32,
{
    index as i32
}

/// Law: entity ids round-trip through a lookup. The id a script sees for an entity names
/// that entity's index again.
pub proof fn lemma_entity_ids_round_trip(index: u32)
    requires
        index != u32::MAX,
    ensures
        script_entity_index(index as i32) == Some(index),
{
    assert((index as i32) as u32 == index) by (bit_vector);
    assert(index != u32::MAX ==> index as i32 != -1i32) by (bit_vector);
}

/// The id of method `member` of native class `class`: the class in the high half, the
/// member in the low half.
pub open spec fn intrinsic_of(class: u32, member: u32) -> u64 {
    ((class as u64) << 32u64) | (member as u64)
}

/// The id of method `member` of native class `class`.
pub fn intrinsic_id(class: u32, member: u32) -> (r: u64)
    ensures
        r == intrinsic_of(class, member),
{
    ((class as u64) << 32u64) | (member as u64)
}

/// The class (high half) and member (low half) a method id names.
pub fn intrinsic_parts(raw: u64) -> (r: (u64, u32))
    ensures
        r == (raw >> 32u64, raw as u32),
{
    (raw >> 32u64, raw as u32)
}

/// Law: a method id names back the class and member it was made of.
pub proof fn lemma_intrinsic_ids_round_trip(class: u32, member: u32)
    ensures
        intrinsic_of(class, member) >> 32u64 == class as u64,
        intrinsic_of(class, member) as u32 == member,
{
    let c = class as u64;
    let m = member as u64;
    assert((((c << 32u64) | m) >> 32u64) == c) by (bit_vector)
        requires
            c < 0x1_0000_0000u64,
            m < 0x1_0000_0000u64,
    ;
    assert((((c << 32u64) | m) as u32) == member) by (bit_vector)
        requires
            c < 0x1_0000_0000u64,
            m == member as u64,
    ;
}

/// The native method a call reaches: the receiver (the object the method was read from)
/// must exist and be of the class the method id names. Errors: no receiver, an unknown
/// receiver, or a receiver of another class.
pub fn intrinsic_target(receiver: Option<u64>, receiver_class: Option<u64>, raw: u64) -> (r: Result<
    (u64, u32),
    HostError,
>)
    ensures
        match r {
            Ok(t) => receiver is Some && receiver_class == Some(raw >> 32u64) && t == (
                raw >> 32u64,
                raw as u32,
            ),
            Err(e) => {
                &&& receiver is None ==> e.kind == HostErrorKind::Intrinsic && e.message@
                    == "missing method receiver"@
                &&& (receiver is Some && receiver_class is None) ==> e.kind
                    == HostErrorKind::UnknownObject && e.message@ == "unknown object"@
                &&& (receiver is Some && receiver_class is Some && receiver_class->0 != raw >> 32u64) ==> e.kind
                    == HostErrorKind::Intrinsic && e.message@ == "invalid method receiver"@
                &&& receiver is None || receiver_class != Some(raw >> 32u64)
            },
        },
{
    if receiver.is_none() {
        return Err(
            HostError { kind: HostErrorKind::Intrinsic, message: "missing method receiver".to_owned() },
        );
    }
    let class = match receiver_class {
        Some(c) => c,
        None => {
            return Err(
                HostError { kind: HostErrorKind::UnknownObject, message: "unknown object".to_owned() },
            );
        },
    };
    let (wanted, member) = intrinsic_parts(raw);
    if class != wanted {
        return Err(
            HostError { kind: HostErrorKind::Intrinsic, message: "invalid method receiver".to_owned() },
        );
    }
    Ok((wanted, member))
}

/// What writing a native property does.
#[derive(Clone, Copy, Debug, PartialEq, Eq, Structural)]
pub enum PropertyWrite {
    /// While a scene loads, `entityID` and `geomID` record the object's load id.
    LoadId(LoadId, i32),
    /// Otherwise the property's setter runs.
    Setter,
}

/// Whether a script may write a property: it has a setter, or it is a load id while a
/// scene loads.
pub open spec fn writable(name: Seq<char>, has_setter: bool, loading: bool) -> bool {
    has_setter || (loading && (name == load_id_name(LoadId::Entity) || name == load_id_name(
        LoadId::Geometry,
    )))
}

/// Whether a script may write property `name`.
pub fn property_writable(name: &str, has_setter: bool, loading: bool) -> (r: bool)
    ensures
        r == writable(name@, has_setter, loading),
{
    has_setter || (loading && load_id(name).is_some())
}

/// How a script's write of `value_int` (the value, when it is an integer) to property
/// `name` goes: while a scene loads, a load id takes an integer (else a type error);
/// otherwise a property without a setter is read-only.
pub fn property_write(name: &str, has_setter: bool, loading: bool, value_int: Option<i32>) -> (r:
    Result<PropertyWrite, HostError>)
    ensures
        loading && name@ == load_id_name(LoadId::Entity) ==> match value_int {
            Some(id) => r == Ok::<PropertyWrite, HostError>(PropertyWrite::LoadId(LoadId::Entity, id)),
            None => r matches Err(e) && e.kind == HostErrorKind::InvalidType && e.message@
                == type_message(name@, "int"@),
        },
        loading && name@ == load_id_name(LoadId::Geometry) ==> match value_int {
            Some(id) => r == Ok::<PropertyWrite, HostError>(PropertyWrite::LoadId(LoadId::Geometry, id)),
            None => r matches Err(e) && e.kind == HostErrorKind::InvalidType && e.message@
                == type_message(name@, "int"@),
        },
        !(loading && (name@ == load_id_name(LoadId::Entity) || name@ == load_id_name(
            LoadId::Geometry,
        ))) ==> if has_setter {
            r == Ok::<PropertyWrite, HostError>(PropertyWrite::Setter)
        } else {
            r matches Err(e) && e.kind == HostErrorKind::Other && e.message@ == name@ + " is read-only"@
        },
{
    proof {
        reveal_strlit("entityID");
        reveal_strlit("geomID");
        assert(load_id_name(LoadId::Entity).len() != load_id_name(LoadId::Geometry).len());
    }
    if loading {
        if let Some(kind) = load_id(name) {
            return match value_int {
                Some(id) => Ok(PropertyWrite::LoadId(kind, id)),
                None => Err(type_error(name, "int")),
            };
        }
    }
    if has_setter {
        Ok(PropertyWrite::Setter)
    } else {
        let mut message = name.to_owned();
        message.append(" is read-only");
        Err(HostError { kind: HostErrorKind::Other, message })
    }
}

/// What reading a native property gives.
#[derive(Clone, Copy, Debug, PartialEq, Eq, Structural)]
pub enum PropertyRead {
    /// While a scene loads, `entityID` and `geomID` read the object's load id (`None`:
    /// undefined, none given yet).
    LoadId(Option<i32>),
    /// Otherwise the property's getter runs.
    Getter,
}

/// How a script's read of property `name` goes: while a scene loads, a load id reads the
/// id the object was given (`entity_id` or `geometry_id`); otherwise the getter runs.
pub fn property_read(name: &str, loading: bool, entity_id: Option<i32>, geometry_id: Option<i32>) -> (r:
    PropertyRead)
    ensures
        r == (if loading && name@ == load_id_name(LoadId::Entity) {
            PropertyRead::LoadId(entity_id)
        } else if loading && name@ == load_id_name(LoadId::Geometry) {
            PropertyRead::LoadId(geometry_id)
        } else {
            PropertyRead::Getter
        }),
{
    proof {
        reveal_strlit("entityID");
        reveal_strlit("geomID");
        assert(load_id_name(LoadId::Entity).len() != load_id_name(LoadId::Geometry).len());
    }
    if loading {
        match load_id(name) {
            Some(LoadId::Entity) => PropertyRead::LoadId(entity_id),
            Some(LoadId::Geometry) => PropertyRead::LoadId(geometry_id),
            None => PropertyRead::Getter,
        }
    } else {
        PropertyRead::Getter
    }
}

/// What a scene object's member of some name is, for editing it across a selection.
#[derive(Clone, Copy, Debug, PartialEq, Eq, Structural)]
pub enum MemberKind {
    /// An event handler slot (such as `onClick`).
    Event,
    /// A property, with or without a setter.
    Property { has_setter: bool },
    /// No member of that name.
    Unknown,
}

/// The message of an edit of `name` across a selection that cannot be made, or `None`
/// when it can: an unknown member, a read-only property, or no selected object that has
/// it (`targets` counts the selected objects that do).
pub open spec fn selection_edit_error(name: Seq<char>, member: MemberKind, targets: nat) -> Option<
    Seq<char>,
> {
    match member {
        MemberKind::Unknown => Some("unknown property "@ + name),
        MemberKind::Property { has_setter } if !has_setter => Some(name + " is read-only"@),
        _ => if targets == 0 {
            Some("no selected object has "@ + name)
        } else {
            None
        },
    }
}

/// Checks an edit of member `name` across a selection before the new value is evaluated.
pub fn check_selection_edit(name: &str, member: MemberKind, targets: usize) -> (r: Result<(), String>)
    ensures
        match r {
            Ok(()) => selection_edit_error(name@, member, targets as nat) is None,
            Err(m) => selection_edit_error(name@, member, targets as nat) == Some(m@),
        },
{
    match member {
        MemberKind::Unknown => {
            let mut m = String::from_str("unknown property ");
            m.append(name);
            return Err(m);
        },
        MemberKind::Property { has_setter } => {
            if !has_setter {
                let mut m = name.to_owned();
                m.append(" is read-only");
                return Err(m);
            }
        },
        MemberKind::Event => {},
    }
    if targets == 0 {
        let mut m = String::from_str("no selected object has ");
        m.append(name);
        Err(m)
    } else {
        Ok(())
    }
}

} // verus!
