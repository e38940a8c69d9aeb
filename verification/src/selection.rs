use vstd::prelude::*;

use crate::ids::{
    contains_id, dedup, lemma_pushed, lemma_pushed_all, no_dup, push_all_unique, push_unique, pushed,
    pushed_all, EntityId,
};

verus! {

/// How a pick combines with what is already selected.
#[derive(Clone, Copy, Debug, PartialEq, Eq, Structural)]
pub enum SelectionMode {
    Replace,
    Toggle,
}

/// A request to change the selection.
pub struct SelectEvent {
    pub entities: Vec<EntityId>,
    pub mode: SelectionMode,
    pub open_menu: bool,
    /// Direct object picks expand selection groups. Area-selection events leave
    /// this false so an enclosure selects exactly the objects it contains.
    pub expand_groups: bool,
}

/// Selection preferences.
pub struct SelectionConfig {
    pub select_by_encircling: bool,
}

impl Default for SelectionConfig {
    fn default() -> (r: Self)
        ensures
            r.select_by_encircling,
    {
        SelectionConfig { select_by_encircling: true }
    }
}

/// Marks `entity` selected (`select`) or not.
#[derive(Clone, Copy, Debug, PartialEq, Eq, Structural)]
pub struct SelectionCommand {
    pub entity: EntityId,
    pub select: bool,
}

/// The selected set after applying `cmds` in order to `set`.
pub open spec fn apply_commands(set: Set<EntityId>, cmds: Seq<SelectionCommand>) -> Set<EntityId>
    decreases cmds.len(),
{
    if cmds.len() == 0 {
        set
    } else {
        let s = apply_commands(set, cmds.drop_last());
        if cmds.last().select {
            s.insert(cmds.last().entity)
        } else {
            s.remove(cmds.last().entity)
        }
    }
}

/// `s` without any occurrence of `e`.
pub open spec fn without(s: Seq<EntityId>, e: EntityId) -> Seq<EntityId>
    decreases s.len(),
{
    if s.len() == 0 {
        s
    } else if s.last() == e {
        without(s.drop_last(), e)
    } else {
        without(s.drop_last(), e).push(s.last())
    }
}

/// `s` without any of `es`, removed one after another.
pub open spec fn without_all(s: Seq<EntityId>, es: Seq<EntityId>) -> Seq<EntityId>
    decreases es.len(),
{
    if es.len() == 0 {
        s
    } else {
        without(without_all(s, es.drop_last()), es.last())
    }
}

/// Commands that deselect each of `s`, in order.
pub open spec fn deselect_all(s: Seq<EntityId>) -> Seq<SelectionCommand> {
    s.map_values(|e: EntityId| SelectionCommand { entity: e, select: false })
}

/// Commands that select each of `s`, in order.
pub open spec fn select_all(s: Seq<EntityId>) -> Seq<SelectionCommand> {
    s.map_values(|e: EntityId| SelectionCommand { entity: e, select: true })
}

/// Toggling each of `es` in turn against the evolving list `a`: a present entity is
/// deselected and dropped, a missing one is selected and appended.
pub open spec fn toggled(a: Seq<EntityId>, es: Seq<EntityId>) -> (Seq<EntityId>, Seq<SelectionCommand>)
    decreases es.len(),
{
    if es.len() == 0 {
        (a, Seq::empty())
    } else {
        let (cur, cmds) = toggled(a, es.drop_last());
        let e = es.last();
        if cur.contains(e) {
            (without(cur, e), cmds.push(SelectionCommand { entity: e, select: false }))
        } else {
            (pushed(cur, e), cmds.push(SelectionCommand { entity: e, select: true }))
        }
    }
}

/// Whether some entity of `members` belongs to group `g`, per the `(entity, group)` pairs.
pub open spec fn group_is_touched(
    groups: Seq<(EntityId, EntityId)>,
    members: Seq<EntityId>,
    g: EntityId,
) -> bool {
    exists|i: int| 0 <= i < groups.len() && groups[i].1 == g && members.contains(#[trigger] groups[i].0)
}

/// `acc` with the entity of each pair of `pairs` whose group is touched by `members`
/// appended, skipping those already present.
pub open spec fn grown_by_groups(
    acc: Seq<EntityId>,
    pairs: Seq<(EntityId, EntityId)>,
    groups: Seq<(EntityId, EntityId)>,
    members: Seq<EntityId>,
) -> Seq<EntityId>
    decreases pairs.len(),
{
    if pairs.len() == 0 {
        acc
    } else {
        let a = grown_by_groups(acc, pairs.drop_last(), groups, members);
        if group_is_touched(groups, members, pairs.last().1) {
            pushed(a, pairs.last().0)
        } else {
            a
        }
    }
}

/// The groups of the pairs in `pairs` whose entity is among `members`, in order.
pub open spec fn touched_ids(pairs: Seq<(EntityId, EntityId)>, members: Seq<EntityId>) -> Seq<EntityId>
    decreases pairs.len(),
{
    if pairs.len() == 0 {
        Seq::empty()
    } else if members.contains(pairs.last().0) {
        touched_ids(pairs.drop_last(), members).push(pairs.last().1)
    } else {
        touched_ids(pairs.drop_last(), members)
    }
}

proof fn lemma_touched_ids(pairs: Seq<(EntityId, EntityId)>, members: Seq<EntityId>)
    ensures
        forall|g: EntityId| #[trigger] touched_ids(pairs, members).contains(g) <==> exists|j: int|
            0 <= j < pairs.len() && pairs[j].1 == g && members.contains(pairs[j].0),
    decreases pairs.len(),
{
    if pairs.len() > 0 {
        let p = pairs.drop_last();
        lemma_touched_ids(p, members);
        assert forall|g: EntityId| #[trigger] touched_ids(pairs, members).contains(g) <==> exists|j: int|
            0 <= j < pairs.len() && pairs[j].1 == g && members.contains(pairs[j].0) by {
            let t = touched_ids(p, members);
            if touched_ids(pairs, members).contains(g) {
                let k = choose|k: int| 0 <= k < touched_ids(pairs, members).len() && touched_ids(pairs, members)[k] == g;
                if k < t.len() {
                    assert(t[k] == g);
                    assert(t.contains(g));
                    let j = choose|j: int| 0 <= j < p.len() && p[j].1 == g && members.contains(p[j].0);
                    assert(pairs[j] == p[j]);
                } else {
                    assert(pairs[pairs.len() - 1].1 == g);
                }
            }
            if exists|j: int| 0 <= j < pairs.len() && pairs[j].1 == g && members.contains(pairs[j].0) {
                let j = choose|j: int| 0 <= j < pairs.len() && pairs[j].1 == g && members.contains(pairs[j].0);
                if j < pairs.len() - 1 {
                    assert(p[j] == pairs[j]);
                    assert(t.contains(g));
                    let k = choose|k: int| 0 <= k < t.len() && t[k] == g;
                    assert(touched_ids(pairs, members)[k] == g);
                } else {
                    let tt = touched_ids(pairs, members);
                    assert(tt[tt.len() - 1] == g);
                }
            }
        }
    }
}

/// The picked entities, each once, followed by every other member of a group that one of
/// them belongs to.
pub open spec fn expanded_by_groups(
    entities: Seq<EntityId>,
    groups: Seq<(EntityId, EntityId)>,
) -> Seq<EntityId> {
    grown_by_groups(dedup(entities), groups, groups, dedup(entities))
}

/// The entity of each `(handle, spring)` pair whose spring is `spring`, in order.
pub open spec fn handles_of(handles: Seq<(EntityId, EntityId)>, spring: EntityId) -> Seq<EntityId>
    decreases handles.len(),
{
    if handles.len() == 0 {
        Seq::empty()
    } else if handles.last().1 == spring {
        handles_of(handles.drop_last(), spring).push(handles.last().0)
    } else {
        handles_of(handles.drop_last(), spring)
    }
}

/// Each picked entity once, a picked spring followed by its end handles.
pub open spec fn normalized(
    entities: Seq<EntityId>,
    springs: Seq<EntityId>,
    handles: Seq<(EntityId, EntityId)>,
) -> Seq<EntityId>
    decreases entities.len(),
{
    if entities.len() == 0 {
        Seq::empty()
    } else {
        let e = entities.last();
        let a = pushed(normalized(entities.drop_last(), springs, handles), e);
        if springs.contains(e) {
            pushed_all(a, handles_of(handles, e))
        } else {
            a
        }
    }
}

/// The entities a pick stands for: groups expanded for direct picks, then normalized.
pub open spec fn picked(
    ev_entities: Seq<EntityId>,
    expand_groups: bool,
    groups: Seq<(EntityId, EntityId)>,
    springs: Seq<EntityId>,
    handles: Seq<(EntityId, EntityId)>,
) -> Seq<EntityId> {
    normalized(
        if expand_groups {
            expanded_by_groups(ev_entities, groups)
        } else {
            ev_entities
        },
        springs,
        handles,
    )
}

/// The selection commands and the resulting selection list of a pick, given the selection
/// `before`:
/// - Replace deselects everything, then selects the picked entities.
/// - Toggle with nothing picked deselects everything.
/// - A direct toggle (groups expanded) acts on the whole group at once: when the first
///   picked entity was selected, the group is deselected, otherwise it is selected.
/// - An area toggle flips each picked entity on its own.
pub open spec fn select_outcome(
    ev_entities: Seq<EntityId>,
    mode: SelectionMode,
    expand_groups: bool,
    before: Seq<EntityId>,
    groups: Seq<(EntityId, EntityId)>,
    springs: Seq<EntityId>,
    handles: Seq<(EntityId, EntityId)>,
) -> (Seq<SelectionCommand>, Seq<EntityId>) {
    let es = picked(ev_entities, expand_groups, groups, springs, handles);
    let removes = expand_groups && ev_entities.len() > 0 && before.contains(ev_entities[0]);
    match mode {
        SelectionMode::Replace => (deselect_all(before) + select_all(es), es),
        SelectionMode::Toggle => if es.len() == 0 {
            (deselect_all(before), Seq::empty())
        } else if expand_groups {
            if removes {
                (deselect_all(es), without_all(before, es))
            } else {
                (select_all(es), pushed_all(before, es))
            }
        } else {
            let (after, cmds) = toggled(before, es);
            (cmds, after)
        },
    }
}

/// What a pick changes: the commands to apply in order, and the resulting selection, which
/// a context menu opened by the pick targets.
pub struct SelectOutcome {
    pub commands: Vec<SelectionCommand>,
    pub selected_after: Vec<EntityId>,
    pub menu: Option<WindowSelectionTarget>,
}

/// The entities a window acts on, and its title.
pub struct WindowSelectionTarget {
    pub entities: Vec<EntityId>,
    pub title: Option<String>,
}

impl WindowSelectionTarget {
    /// The window's title, if one was given.
    pub open spec fn title_text(&self) -> Option<Seq<char>> {
        match self.title {
            Some(t) => Some(t@),
            None => None,
        }
    }

    /// A target over `entities`, each once, untitled.
    pub fn from_entities(entities: &[EntityId]) -> (r: Self)
        ensures
            r.entities@ == dedup(entities@),
            r.title_text() is None,
    {
        let mut acc: Vec<EntityId> = Vec::new();
        push_all_unique(&mut acc, entities);
        WindowSelectionTarget { entities: acc, title: None }
    }

    /// The same target with a title.
    pub fn with_title(self, title: String) -> (r: Self)
        ensures
            r.entities@ == self.entities@,
            r.title_text() == Some(title@),
    {
        WindowSelectionTarget { entities: self.entities, title: Some(title) }
    }

    /// The title, or `fallback` for an untitled target.
    pub fn title_or<'a>(&'a self, fallback: &'a str) -> (r: &'a str)
        ensures
            r@ == (match self.title_text() {
                Some(t) => t,
                None => fallback@,
            }),
    {
        match &self.title {
            Some(t) => t.as_str(),
            None => fallback,
        }
    }

    /// The target's entities, in order.
    pub fn iter(&self) -> (r: Vec<EntityId>)
        ensures
            r@ == self.entities@,
    {
        self.entities.clone()
    }
}

/// The title of a window's target, or `fallback`.
pub fn window_title<'a>(target: Option<&'a WindowSelectionTarget>, fallback: &'a str) -> (r: &'a str)
    ensures
        r@ == (match target {
            Some(t) => match t.title_text() {
                Some(s) => s,
                None => fallback@,
            },
            None => fallback@,
        }),
{
    match target {
        Some(t) => t.title_or(fallback),
        None => fallback,
    }
}

/// The entities a window edits: its target's entities if it has any, else its parent.
pub fn window_target_entities(
    target: Option<&WindowSelectionTarget>,
    parent: Option<EntityId>,
) -> (r: Vec<EntityId>)
    ensures
        r@ == (match target {
            Some(t) if t.entities@.len() > 0 => t.entities@,
            _ => match parent {
                Some(p) => seq![p],
                None => Seq::empty(),
            },
        }),
{
    if let Some(t) = target {
        if t.entities.len() > 0 {
            return t.iter();
        }
    }
    let mut r: Vec<EntityId> = Vec::new();
    if let Some(p) = parent {
        r.push(p);
    }
    proof {
        if parent is Some {
            assert(r@ =~= seq![parent->0]);
        }
    }
    r
}

/// Whether a window targeting entities should close because all of them are gone: it has
/// targets, and none of `alive` (one flag per target, in order) holds.
pub fn window_targets_gone(target: &WindowSelectionTarget, alive: &[bool]) -> (r: bool)
    requires
        alive@.len() == target.entities@.len(),
    ensures
        r == (target.entities@.len() > 0 && forall|i: int| 0 <= i < alive@.len() ==> !#[trigger] alive@[i]),
{
    if target.entities.len() == 0 {
        return false;
    }
    let mut i: usize = 0;
    while i < alive.len()
        invariant
            0 <= i <= alive@.len(),
            forall|j: int| 0 <= j < i ==> !#[trigger] alive@[j],
        decreases alive@.len() - i,
    {
        if alive[i] {
            return false;
        }
        i = i + 1;
    }
    true
}

/// The picked entities, each once, plus every other member of their selection groups.
pub fn expand_selection_groups(
    entities: &[EntityId],
    groups: &[(EntityId, EntityId)],
) -> (r: Vec<EntityId>)
    ensures
        r@ == expanded_by_groups(entities@, groups@),
{
    let mut expanded: Vec<EntityId> = Vec::new();
    push_all_unique(&mut expanded, entities);
    let ghost base = expanded@;
    let mut group_ids: Vec<EntityId> = Vec::new();
    let mut i: usize = 0;
    while i < groups.len()
        invariant
            0 <= i <= groups@.len(),
            expanded@ == base,
            group_ids@ == touched_ids(groups@.subrange(0, i as int), base),
        decreases groups@.len() - i,
    {
        proof {
            assert(groups@.subrange(0, i + 1).drop_last() =~= groups@.subrange(0, i as int));
        }
        let (e, g) = groups[i];
        if contains_id(expanded.as_slice(), e) {
            group_ids.push(g);
        }
        i = i + 1;
    }
    proof {
        assert(groups@.subrange(0, groups@.len() as int) =~= groups@);
        lemma_touched_ids(groups@, base);
        assert forall|g: EntityId| #[trigger] group_ids@.contains(g) <==> group_is_touched(groups@, base, g) by {
            if group_ids@.contains(g) {
                let j = choose|j: int| 0 <= j < groups@.len() && groups@[j].1 == g && base.contains(groups@[j].0);
                assert(base.contains(groups@[j].0));
            }
        }
    }
    let mut k: usize = 0;
    while k < groups.len()
        invariant
            0 <= k <= groups@.len(),
            base == dedup(entities@),
            forall|g: EntityId| #[trigger] group_ids@.contains(g) <==> group_is_touched(groups@, base, g),
            expanded@ == grown_by_groups(base, groups@.subrange(0, k as int), groups@, base),
        decreases groups@.len() - k,
    {
        proof {
            assert(groups@.subrange(0, k + 1).drop_last() =~= groups@.subrange(0, k as int));
            assert(groups@.subrange(0, k + 1).last() == groups@[k as int]);
        }
        let (e, g) = groups[k];
        if contains_id(group_ids.as_slice(), g) {
            push_unique(&mut expanded, e);
        }
        k = k + 1;
    }
    proof {
        assert(groups@.subrange(0, groups@.len() as int) =~= groups@);
    }
    expanded
}

/// The end handles of `spring`, in order.
fn spring_handles(handles: &[(EntityId, EntityId)], spring: EntityId) -> (r: Vec<EntityId>)
    ensures
        r@ == handles_of(handles@, spring),
{
    let mut r: Vec<EntityId> = Vec::new();
    let mut i: usize = 0;
    while i < handles.len()
        invariant
            0 <= i <= handles@.len(),
            r@ == handles_of(handles@.subrange(0, i as int), spring),
        decreases handles@.len() - i,
    {
        proof {
            assert(handles@.subrange(0, i + 1).drop_last() =~= handles@.subrange(0, i as int));
        }
        let (h, s) = handles[i];
        if s == spring {
            r.push(h);
        }
        i = i + 1;
    }
    proof {
        assert(handles@.subrange(0, handles@.len() as int) =~= handles@);
    }
    r
}

/// Each entity once; a spring brings its end handles along.
pub fn normalize_selection(
    entities: &[EntityId],
    springs: &[EntityId],
    handles: &[(EntityId, EntityId)],
) -> (r: Vec<EntityId>)
    ensures
        r@ == normalized(entities@, springs@, handles@),
{
    let mut out: Vec<EntityId> = Vec::new();
    let mut i: usize = 0;
    while i < entities.len()
        invariant
            0 <= i <= entities@.len(),
            out@ == normalized(entities@.subrange(0, i as int), springs@, handles@),
        decreases entities@.len() - i,
    {
        proof {
            assert(entities@.subrange(0, i + 1).drop_last() =~= entities@.subrange(0, i as int));
        }
        let e = entities[i];
        push_unique(&mut out, e);
        if contains_id(springs, e) {
            let hs = spring_handles(handles, e);
            push_all_unique(&mut out, hs.as_slice());
        }
        i = i + 1;
    }
    proof {
        assert(entities@.subrange(0, entities@.len() as int) =~= entities@);
    }
    out
}

/// `v` without any occurrence of `e`.
fn remove_id(v: &Vec<EntityId>, e: EntityId) -> (r: Vec<EntityId>)
    ensures
        r@ == without(v@, e),
{
    let mut r: Vec<EntityId> = Vec::new();
    let mut i: usize = 0;
    while i < v.len()
        invariant
            0 <= i <= v@.len(),
            r@ == without(v@.subrange(0, i as int), e),
        decreases v@.len() - i,
    {
        proof {
            assert(v@.subrange(0, i + 1).drop_last() =~= v@.subrange(0, i as int));
        }
        if v[i] != e {
            r.push(v[i]);
        }
        i = i + 1;
    }
    proof {
        assert(v@.subrange(0, v@.len() as int) =~= v@);
    }
    r
}

/// Appends a command for each of `s`.
fn push_commands(cmds: &mut Vec<SelectionCommand>, s: &[EntityId], select: bool)
    ensures
        final(cmds)@ == old(cmds)@ + s@.map_values(|e: EntityId| SelectionCommand { entity: e, select: select }),
{
    let mut i: usize = 0;
    while i < s.len()
        invariant
            0 <= i <= s@.len(),
            cmds@ == old(cmds)@ + s@.subrange(0, i as int).map_values(|e: EntityId| SelectionCommand { entity: e, select: select }),
        decreases s@.len() - i,
    {
        cmds.push(SelectionCommand { entity: s[i], select });
        i = i + 1;
        proof {
            assert(s@.subrange(0, i as int).map_values(|e: EntityId| SelectionCommand { entity: e, select: select })
                =~= s@.subrange(0, i - 1).map_values(|e: EntityId| SelectionCommand { entity: e, select: select }).push(
                SelectionCommand { entity: s@[i - 1], select: select }));
        }
    }
    proof {
        assert(s@.subrange(0, s@.len() as int) =~= s@);
    }
}

/// Applies a pick to the selection `before` (the currently selected entities, in query
/// order), given the `(entity, group)` pairs of selection groups, the springs, and the
/// `(handle, spring)` pairs of spring end handles. Returns the commands to apply in order,
/// the resulting selection, and, when the pick opens a context menu, its target.
pub fn process_select(
    event: &SelectEvent,
    before: &[EntityId],
    groups: &[(EntityId, EntityId)],
    springs: &[EntityId],
    handles: &[(EntityId, EntityId)],
) -> (r: SelectOutcome)
    ensures
        (r.commands@, r.selected_after@) == select_outcome(
            event.entities@,
            event.mode,
            event.expand_groups,
            before@,
            groups@,
            springs@,
            handles@,
        ),
        event.open_menu ==> r.menu is Some && r.menu->0.entities@ == dedup(r.selected_after@)
            && r.menu->0.title_text() is None,
        !event.open_menu ==> r.menu is None,
{
    let direct_toggle_removes = event.expand_groups && event.entities.len() > 0 && contains_id(
        before,
        event.entities[0],
    );
    let entities = if event.expand_groups {
        expand_selection_groups(event.entities.as_slice(), groups)
    } else {
        event.entities.clone()
    };
    let entities = normalize_selection(entities.as_slice(), springs, handles);
    let mut commands: Vec<SelectionCommand> = Vec::new();
    let after: Vec<EntityId> = match event.mode {
        SelectionMode::Replace => {
            push_commands(&mut commands, before, false);
            push_commands(&mut commands, entities.as_slice(), true);
            entities
        },
        SelectionMode::Toggle => {
            if entities.len() == 0 {
                push_commands(&mut commands, before, false);
                Vec::new()
            } else if event.expand_groups {
                let mut after: Vec<EntityId> = vstd::slice::slice_to_vec(before);
                let mut i: usize = 0;
                while i < entities.len()
                    invariant
                        0 <= i <= entities@.len(),
                        entities@.len() > 0,
                        direct_toggle_removes ==> commands@ == deselect_all(entities@.subrange(0, i as int))
                            && after@ == without_all(before@, entities@.subrange(0, i as int)),
                        !direct_toggle_removes ==> commands@ == select_all(entities@.subrange(0, i as int))
                            && after@ == pushed_all(before@, entities@.subrange(0, i as int)),
                    decreases entities@.len() - i,
                {
                    proof {
                        assert(entities@.subrange(0, i + 1).drop_last() =~= entities@.subrange(0, i as int));
                        assert(deselect_all(entities@.subrange(0, i + 1)) =~= deselect_all(entities@.subrange(0, i as int)).push(
                            SelectionCommand { entity: entities@[i as int], select: false }));
                        assert(select_all(entities@.subrange(0, i + 1)) =~= select_all(entities@.subrange(0, i as int)).push(
                            SelectionCommand { entity: entities@[i as int], select: true }));
                    }
                    let e = entities[i];
                    if direct_toggle_removes {
                        commands.push(SelectionCommand { entity: e, select: false });
                        after = remove_id(&after, e);
                    } else {
                        commands.push(SelectionCommand { entity: e, select: true });
                        push_unique(&mut after, e);
                    }
                    i = i + 1;
                }
                proof {
                    assert(entities@.subrange(0, entities@.len() as int) =~= entities@);
                }
                after
            } else {
                let mut after: Vec<EntityId> = vstd::slice::slice_to_vec(before);
                let mut i: usize = 0;
                while i < entities.len()
                    invariant
                        0 <= i <= entities@.len(),
                        (after@, commands@) == toggled(before@, entities@.subrange(0, i as int)),
                    decreases entities@.len() - i,
                {
                    proof {
                        assert(entities@.subrange(0, i + 1).drop_last() =~= entities@.subrange(0, i as int));
                    }
                    let e = entities[i];
                    if contains_id(after.as_slice(), e) {
                        commands.push(SelectionCommand { entity: e, select: false });
                        after = remove_id(&after, e);
                    } else {
                        commands.push(SelectionCommand { entity: e, select: true });
                        push_unique(&mut after, e);
                    }
                    i = i + 1;
                }
                proof {
                    assert(entities@.subrange(0, entities@.len() as int) =~= entities@);
                }
                after
            }
        },
    };
    let menu = if event.open_menu {
        Some(WindowSelectionTarget::from_entities(after.as_slice()))
    } else {
        None
    };
    proof {
        assert(deselect_all(before@) =~= before@.map_values(|e: EntityId| SelectionCommand { entity: e, select: false }));
    }
    SelectOutcome { commands, selected_after: after, menu }
}

/// The selection group of `e`: the group of its first `(entity, group)` pair.
pub open spec fn group_lookup(groups: Seq<(EntityId, EntityId)>, e: EntityId) -> Option<EntityId>
    decreases groups.len(),
{
    if groups.len() == 0 {
        None
    } else if groups[0].0 == e {
        Some(groups[0].1)
    } else {
        group_lookup(groups.drop_first(), e)
    }
}

/// Whether every member of group `g` is selected.
pub open spec fn group_fully_selected(
    groups: Seq<(EntityId, EntityId)>,
    g: EntityId,
    selected: Seq<EntityId>,
) -> bool {
    forall|i: int| 0 <= i < groups.len() && #[trigger] groups[i].1 == g ==> selected.contains(groups[i].0)
}

/// A right click on an already selected object (not a spring handle) keeps the selection
/// for its context menu.
pub open spec fn keeps_selection(
    clicked: Option<EntityId>,
    mode: SelectionMode,
    open_menu: bool,
    selected: Seq<EntityId>,
    spring_handles: Seq<EntityId>,
) -> bool {
    open_menu && mode == SelectionMode::Replace && clicked is Some && selected.contains(clicked->0)
        && !spring_handles.contains(clicked->0)
}

/// What a click under the pointer does.
pub enum UnderMouseAction {
    /// Open the context menu on this target without changing the selection.
    OpenMenu(WindowSelectionTarget),
    /// Change the selection.
    Select(SelectEvent),
}

fn find_group(groups: &[(EntityId, EntityId)], e: EntityId) -> (r: Option<EntityId>)
    ensures
        r == group_lookup(groups@, e),
{
    let mut i: usize = 0;
    proof {
        assert(groups@.subrange(0, groups@.len() as int) =~= groups@);
    }
    while i < groups.len()
        invariant
            0 <= i <= groups@.len(),
            group_lookup(groups@, e) == group_lookup(groups@.subrange(i as int, groups@.len() as int), e),
        decreases groups@.len() - i,
    {
        proof {
            assert(groups@.subrange(i as int, groups@.len() as int).drop_first() =~= groups@.subrange(
                i + 1,
                groups@.len() as int,
            ));
        }
        if groups[i].0 == e {
            return Some(groups[i].1);
        }
        i = i + 1;
    }
    None
}

/// Handles a click under the pointer on `clicked` (the topmost object there, if any), given
/// the current selection, the `(entity, group)` pairs of selection groups and the spring end
/// handles. A right click on a selected object keeps the selection: when its whole group is
/// selected the context menu opens on the selection, otherwise the click is added to it.
/// Every other click picks just the clicked object, expanding its group.
pub fn process_select_under_mouse(
    clicked: Option<EntityId>,
    mode: SelectionMode,
    open_menu: bool,
    selected: &[EntityId],
    groups: &[(EntityId, EntityId)],
    spring_handles: &[EntityId],
) -> (r: UnderMouseAction)
    ensures
        match r {
            UnderMouseAction::OpenMenu(t) => {
                &&& keeps_selection(clicked, mode, open_menu, selected@, spring_handles@)
                &&& match group_lookup(groups@, clicked->0) {
                    Some(g) => group_fully_selected(groups@, g, selected@),
                    None => true,
                }
                &&& t.entities@ == dedup(selected@)
                &&& t.title_text() is None
            },
            UnderMouseAction::Select(ev) => {
                &&& ev.mode == mode
                &&& ev.open_menu == open_menu
                &&& ev.expand_groups
                &&& if keeps_selection(clicked, mode, open_menu, selected@, spring_handles@) {
                    &&& group_lookup(groups@, clicked->0) matches Some(g) && !group_fully_selected(groups@, g, selected@)
                    &&& ev.entities@ == selected@.push(clicked->0)
                } else {
                    ev.entities@ == match clicked {
                        Some(c) => seq![c],
                        None => Seq::empty(),
                    }
                }
            },
        },
{
    let keep = match clicked {
        Some(c) => open_menu && mode == SelectionMode::Replace && contains_id(selected, c) && !contains_id(spring_handles, c),
        None => false,
    };
    if keep {
        let c = clicked.unwrap();
        let fully = match find_group(groups, c) {
            Some(g) => {
                let mut all = true;
                let mut i: usize = 0;
                while i < groups.len()
                    invariant
                        0 <= i <= groups@.len(),
                        all == (forall|j: int| 0 <= j < i && #[trigger] groups@[j].1 == g ==> selected@.contains(groups@[j].0)),
                    decreases groups@.len() - i,
                {
                    if groups[i].1 == g && !contains_id(selected, groups[i].0) {
                        all = false;
                    }
                    i = i + 1;
                }
                all
            },
            None => true,
        };
        if fully {
            return UnderMouseAction::OpenMenu(WindowSelectionTarget::from_entities(selected));
        }
        let mut entities = vstd::slice::slice_to_vec(selected);
        entities.push(c);
        return UnderMouseAction::Select(SelectEvent { entities, mode, open_menu, expand_groups: true });
    }
    let mut entities: Vec<EntityId> = Vec::new();
    if let Some(c) = clicked {
        entities.push(c);
    }
    proof {
        if clicked is Some {
            assert(entities@ =~= seq![clicked->0]);
        }
    }
    UnderMouseAction::Select(SelectEvent { entities, mode, open_menu, expand_groups: true })
}

/// The state of a checkbox that edits several objects: on, off, or mixed.
#[derive(Clone, Copy, Debug, PartialEq, Eq, Structural)]
pub enum TriState {
    Off,
    On,
    Mixed,
}

/// The checkbox state for the values of several objects: `None` with no objects, the shared
/// value when all agree, `Mixed` otherwise.
pub fn shared_bool(values: &[bool]) -> (r: Option<TriState>)
    ensures
        values@.len() == 0 ==> r is None,
        values@.len() > 0 ==> r == Some(
            if (forall|i: int| 0 <= i < values@.len() ==> #[trigger] values@[i] == values@[0]) {
                if values@[0] { TriState::On } else { TriState::Off }
            } else {
                TriState::Mixed
            },
        ),
{
    if values.len() == 0 {
        return None;
    }
    let first = values[0];
    let mut i: usize = 1;
    while i < values.len()
        invariant
            1 <= i <= values@.len(),
            first == values@[0],
            forall|j: int| 0 <= j < i ==> #[trigger] values@[j] == first,
        decreases values@.len() - i,
    {
        if values[i] != first {
            return Some(TriState::Mixed);
        }
        i = i + 1;
    }
    Some(if first { TriState::On } else { TriState::Off })
}

/// Which end of a spring a rotation pivots on.
#[derive(Clone, Copy, Debug, PartialEq, Eq, Structural)]
pub enum SpringPivotEnd {
    /// The end on the selected body.
    Selected,
    /// The spring's other end.
    Other,
}

/// The end of a spring that bounds a rotation of the selection, for a spring whose
/// `selected_end` is on a body (`Some(body)`; `None` for an end in the sky):
/// none unless that body is selected; the selected end when the spring itself is not
/// selected; the other end when the spring is selected and the other end is not on a
/// selected body.
pub fn spring_boundary_pivot_end(
    selected: &[EntityId],
    spring_entity: EntityId,
    selected_end: Option<EntityId>,
    other_end: Option<EntityId>,
) -> (r: Option<SpringPivotEnd>)
    ensures
        r == (match selected_end {
            None => None,
            Some(body) => if !selected@.contains(body) {
                None
            } else if !selected@.contains(spring_entity) {
                Some(SpringPivotEnd::Selected)
            } else if other_end matches Some(other) && selected@.contains(other) {
                None
            } else {
                Some(SpringPivotEnd::Other)
            },
        }),
{
    let body = match selected_end {
        Some(body) => body,
        None => {
            return None;
        },
    };
    if !contains_id(selected, body) {
        return None;
    }
    if !contains_id(selected, spring_entity) {
        return Some(SpringPivotEnd::Selected);
    }
    if let Some(other) = other_end {
        if contains_id(selected, other) {
            return None;
        }
    }
    Some(SpringPivotEnd::Other)
}

proof fn lemma_without_set(s: Seq<EntityId>, e: EntityId)
    ensures
        without(s, e).to_set() == s.to_set().remove(e),
    decreases s.len(),
{
    if s.len() > 0 {
        lemma_without_set(s.drop_last(), e);
        assert(s =~= s.drop_last().push(s.last()));
        assert(s.to_set() =~= s.drop_last().to_set().insert(s.last())) by {
            assert forall|x: EntityId| s.to_set().contains(x) <==> s.drop_last().to_set().insert(s.last()).contains(x) by {
                if s.contains(x) && x != s.last() {
                    let i = choose|i: int| 0 <= i < s.len() && s[i] == x;
                    assert(s.drop_last()[i] == x);
                }
                if s.drop_last().contains(x) {
                    let i = choose|i: int| 0 <= i < s.drop_last().len() && s.drop_last()[i] == x;
                    assert(s[i] == x);
                }
                if x == s.last() {
                    assert(s[s.len() - 1] == x);
                }
            }
        }
        if s.last() == e {
            assert(without(s, e).to_set() =~= s.to_set().remove(e));
        } else {
            let w = without(s.drop_last(), e);
            assert(w.push(s.last()).to_set() =~= w.to_set().insert(s.last())) by {
                assert forall|x: EntityId| w.push(s.last()).to_set().contains(x) <==> w.to_set().insert(s.last()).contains(x) by {
                    if w.push(s.last()).contains(x) && x != s.last() {
                        let i = choose|i: int| 0 <= i < w.push(s.last()).len() && w.push(s.last())[i] == x;
                        assert(w[i] == x);
                    }
                    if w.contains(x) {
                        let i = choose|i: int| 0 <= i < w.len() && w[i] == x;
                        assert(w.push(s.last())[i] == x);
                    }
                    if x == s.last() {
                        assert(w.push(s.last())[w.len() as int] == x);
                    }
                }
            }
            assert(without(s, e).to_set() =~= s.to_set().remove(e));
        }
    } else {
        assert(s.to_set() =~= Set::<EntityId>::empty());
        assert(without(s, e).to_set() =~= s.to_set().remove(e));
    }
}

proof fn lemma_pushed_set(a: Seq<EntityId>, e: EntityId)
    ensures
        pushed(a, e).to_set() == a.to_set().insert(e),
{
    lemma_pushed(a, e);
    assert(pushed(a, e).to_set() =~= a.to_set().insert(e));
}

proof fn lemma_apply_append(set: Set<EntityId>, c1: Seq<SelectionCommand>, c2: Seq<SelectionCommand>)
    ensures
        apply_commands(set, c1 + c2) == apply_commands(apply_commands(set, c1), c2),
    decreases c2.len(),
{
    if c2.len() == 0 {
        assert(c1 + c2 =~= c1);
    } else {
        assert((c1 + c2).drop_last() =~= c1 + c2.drop_last());
        lemma_apply_append(set, c1, c2.drop_last());
    }
}

proof fn lemma_apply_deselect_all(set: Set<EntityId>, s: Seq<EntityId>)
    ensures
        apply_commands(set, deselect_all(s)) == set.difference(s.to_set()),
    decreases s.len(),
{
    if s.len() == 0 {
        assert(set.difference(s.to_set()) =~= set);
    } else {
        assert(deselect_all(s).drop_last() =~= deselect_all(s.drop_last()));
        lemma_apply_deselect_all(set, s.drop_last());
        assert(s =~= s.drop_last().push(s.last()));
        assert(apply_commands(set, deselect_all(s)) =~= set.difference(s.to_set())) by {
            assert forall|x: EntityId| s.contains(x) <==> s.drop_last().contains(x) || x == s.last() by {
                if s.contains(x) && x != s.last() {
                    let i = choose|i: int| 0 <= i < s.len() && s[i] == x;
                    assert(s.drop_last()[i] == x);
                }
                if s.drop_last().contains(x) {
                    let i = choose|i: int| 0 <= i < s.drop_last().len() && s.drop_last()[i] == x;
                    assert(s[i] == x);
                }
                if x == s.last() {
                    assert(s[s.len() - 1] == x);
                }
            }
        }
    }
}

proof fn lemma_apply_select_all(set: Set<EntityId>, s: Seq<EntityId>)
    ensures
        apply_commands(set, select_all(s)) == set.union(s.to_set()),
    decreases s.len(),
{
    if s.len() == 0 {
        assert(set.union(s.to_set()) =~= set);
    } else {
        assert(select_all(s).drop_last() =~= select_all(s.drop_last()));
        lemma_apply_select_all(set, s.drop_last());
        assert(apply_commands(set, select_all(s)) =~= set.union(s.to_set())) by {
            assert forall|x: EntityId| s.contains(x) <==> s.drop_last().contains(x) || x == s.last() by {
                if s.contains(x) && x != s.last() {
                    let i = choose|i: int| 0 <= i < s.len() && s[i] == x;
                    assert(s.drop_last()[i] == x);
                }
                if s.drop_last().contains(x) {
                    let i = choose|i: int| 0 <= i < s.drop_last().len() && s.drop_last()[i] == x;
                    assert(s[i] == x);
                }
                if x == s.last() {
                    assert(s[s.len() - 1] == x);
                }
            }
        }
    }
}

proof fn lemma_without_all_set(before: Seq<EntityId>, es: Seq<EntityId>)
    ensures
        without_all(before, es).to_set() == before.to_set().difference(es.to_set()),
    decreases es.len(),
{
    if es.len() == 0 {
        assert(before.to_set().difference(es.to_set()) =~= before.to_set());
    } else {
        lemma_without_all_set(before, es.drop_last());
        lemma_without_set(without_all(before, es.drop_last()), es.last());
        assert(without_all(before, es).to_set() =~= before.to_set().difference(es.to_set())) by {
            assert forall|x: EntityId| es.contains(x) <==> es.drop_last().contains(x) || x == es.last() by {
                if es.contains(x) && x != es.last() {
                    let i = choose|i: int| 0 <= i < es.len() && es[i] == x;
                    assert(es.drop_last()[i] == x);
                }
                if es.drop_last().contains(x) {
                    let i = choose|i: int| 0 <= i < es.drop_last().len() && es.drop_last()[i] == x;
                    assert(es[i] == x);
                }
                if x == es.last() {
                    assert(es[es.len() - 1] == x);
                }
            }
        }
    }
}

proof fn lemma_toggled_set(a: Seq<EntityId>, es: Seq<EntityId>)
    ensures
        toggled(a, es).0.to_set() == apply_commands(a.to_set(), toggled(a, es).1),
    decreases es.len(),
{
    if es.len() > 0 {
        lemma_toggled_set(a, es.drop_last());
        let (cur, cmds) = toggled(a, es.drop_last());
        let e = es.last();
        if cur.contains(e) {
            lemma_without_set(cur, e);
            assert(cmds.push(SelectionCommand { entity: e, select: false }).drop_last() =~= cmds);
        } else {
            lemma_pushed_set(cur, e);
            assert(cmds.push(SelectionCommand { entity: e, select: true }).drop_last() =~= cmds);
        }
    }
}

/// Law: the selection list a pick reports (and that an opened context menu targets) is
/// exactly what applying its commands in order to the current selection leaves selected.
pub proof fn lemma_commands_yield_the_reported_selection(
    ev_entities: Seq<EntityId>,
    mode: SelectionMode,
    expand_groups: bool,
    before: Seq<EntityId>,
    groups: Seq<(EntityId, EntityId)>,
    springs: Seq<EntityId>,
    handles: Seq<(EntityId, EntityId)>,
)
    ensures
        ({
            let (cmds, after) = select_outcome(
                ev_entities,
                mode,
                expand_groups,
                before,
                groups,
                springs,
                handles,
            );
            apply_commands(before.to_set(), cmds) == after.to_set()
        }),
{
    let es = picked(ev_entities, expand_groups, groups, springs, handles);
    let b = before.to_set();
    match mode {
        SelectionMode::Replace => {
            lemma_apply_append(b, deselect_all(before), select_all(es));
            lemma_apply_deselect_all(b, before);
            lemma_apply_select_all(b.difference(b), es);
            assert(b.difference(b).union(es.to_set()) =~= es.to_set());
        },
        SelectionMode::Toggle => {
            if es.len() == 0 {
                lemma_apply_deselect_all(b, before);
                assert(b.difference(b) =~= Seq::<EntityId>::empty().to_set());
            } else if expand_groups {
                if expand_groups && ev_entities.len() > 0 && before.contains(ev_entities[0]) {
                    lemma_apply_deselect_all(b, es);
                    lemma_without_all_set(before, es);
                } else {
                    lemma_apply_select_all(b, es);
                    lemma_pushed_all(before, es);
                    assert(pushed_all(before, es).to_set() =~= b.union(es.to_set()));
                }
            } else {
                lemma_toggled_set(before, es);
            }
        },
    }
}

/// An entity belongs to a group that a pick of `members` touches.
pub open spec fn in_touched_group(
    groups: Seq<(EntityId, EntityId)>,
    members: Seq<EntityId>,
    x: EntityId,
) -> bool {
    exists|j: int| 0 <= j < groups.len() && groups[j].0 == x && #[trigger] group_is_touched(groups, members, groups[j].1)
}

proof fn lemma_grown_contains(
    acc: Seq<EntityId>,
    pairs: Seq<(EntityId, EntityId)>,
    groups: Seq<(EntityId, EntityId)>,
    members: Seq<EntityId>,
    x: EntityId,
)
    ensures
        grown_by_groups(acc, pairs, groups, members).contains(x) <==> acc.contains(x) || exists|j: int|
            0 <= j < pairs.len() && pairs[j].0 == x && #[trigger] group_is_touched(groups, members, pairs[j].1),
    decreases pairs.len(),
{
    if pairs.len() > 0 {
        let p = pairs.drop_last();
        lemma_grown_contains(acc, p, groups, members, x);
        let a = grown_by_groups(acc, p, groups, members);
        lemma_pushed(a, pairs.last().0);
        if exists|j: int| 0 <= j < p.len() && p[j].0 == x && #[trigger] group_is_touched(groups, members, p[j].1) {
            let j = choose|j: int| 0 <= j < p.len() && p[j].0 == x && #[trigger] group_is_touched(groups, members, p[j].1);
            assert(pairs[j] == p[j]);
        }
        if exists|j: int| 0 <= j < pairs.len() && pairs[j].0 == x && #[trigger] group_is_touched(groups, members, pairs[j].1) {
            let j = choose|j: int| 0 <= j < pairs.len() && pairs[j].0 == x && #[trigger] group_is_touched(groups, members, pairs[j].1);
            if j < pairs.len() - 1 {
                assert(p[j] == pairs[j]);
            }
        }
    }
}

proof fn lemma_touched_same_members(
    groups: Seq<(EntityId, EntityId)>,
    m1: Seq<EntityId>,
    m2: Seq<EntityId>,
    g: EntityId,
)
    requires
        forall|x: EntityId| m1.contains(x) <==> m2.contains(x),
    ensures
        group_is_touched(groups, m1, g) == group_is_touched(groups, m2, g),
{
    if group_is_touched(groups, m1, g) {
        let i = choose|i: int| 0 <= i < groups.len() && groups[i].1 == g && m1.contains(#[trigger] groups[i].0);
        assert(m2.contains(groups[i].0));
    }
    if group_is_touched(groups, m2, g) {
        let i = choose|i: int| 0 <= i < groups.len() && groups[i].1 == g && m2.contains(#[trigger] groups[i].0);
        assert(m1.contains(groups[i].0));
    }
}

proof fn lemma_normalized_without_springs(entities: Seq<EntityId>, handles: Seq<(EntityId, EntityId)>)
    ensures
        normalized(entities, Seq::empty(), handles) == dedup(entities),
    decreases entities.len(),
{
    if entities.len() > 0 {
        lemma_normalized_without_springs(entities.drop_last(), handles);
    }
}

/// Law: direct picks select whole groups, area picks exactly what they name. Without
/// springs among the picks, a replacing pick selects the picked entities, and, when groups
/// are expanded, every member of a group one of them belongs to — nothing else.
pub proof fn lemma_direct_picks_select_whole_groups(
    ev_entities: Seq<EntityId>,
    expand_groups: bool,
    before: Seq<EntityId>,
    groups: Seq<(EntityId, EntityId)>,
    handles: Seq<(EntityId, EntityId)>,
    x: EntityId,
)
    ensures
        ({
            let after = select_outcome(
                ev_entities,
                SelectionMode::Replace,
                expand_groups,
                before,
                groups,
                Seq::empty(),
                handles,
            ).1;
            after.contains(x) <==> ev_entities.contains(x) || (expand_groups && in_touched_group(
                groups,
                ev_entities,
                x,
            ))
        }),
{
    let d = dedup(ev_entities);
    lemma_pushed_all(Seq::empty(), ev_entities);
    if expand_groups {
        let ex = expanded_by_groups(ev_entities, groups);
        lemma_normalized_without_springs(ex, handles);
        lemma_pushed_all(Seq::empty(), ex);
        lemma_grown_contains(d, groups, groups, d, x);
        assert forall|g: EntityId| group_is_touched(groups, d, g) == group_is_touched(groups, ev_entities, g) by {
            lemma_touched_same_members(groups, d, ev_entities, g);
        }
        if in_touched_group(groups, ev_entities, x) {
            let j = choose|j: int| 0 <= j < groups.len() && groups[j].0 == x && #[trigger] group_is_touched(groups, ev_entities, groups[j].1);
            assert(group_is_touched(groups, d, groups[j].1));
        }
        if exists|j: int| 0 <= j < groups.len() && groups[j].0 == x && #[trigger] group_is_touched(groups, d, groups[j].1) {
            let j = choose|j: int| 0 <= j < groups.len() && groups[j].0 == x && #[trigger] group_is_touched(groups, d, groups[j].1);
            assert(group_is_touched(groups, ev_entities, groups[j].1));
        }
    } else {
        lemma_normalized_without_springs(ev_entities, handles);
    }
}

/// Law: a direct toggle changes a group as one unit. Toggling a pick with groups expanded
/// leaves every picked entity (its whole group included) selected, or every one of them
/// unselected: unselected exactly when the first picked entity was selected before.
pub proof fn lemma_direct_toggle_moves_groups_as_one(
    ev_entities: Seq<EntityId>,
    before: Seq<EntityId>,
    groups: Seq<(EntityId, EntityId)>,
    springs: Seq<EntityId>,
    handles: Seq<(EntityId, EntityId)>,
    x: EntityId,
)
    requires
        ev_entities.len() > 0,
        picked(ev_entities, true, groups, springs, handles).contains(x),
    ensures
        select_outcome(ev_entities, SelectionMode::Toggle, true, before, groups, springs, handles).1.contains(
            x,
        ) == !before.contains(ev_entities[0]),
{
    let es = picked(ev_entities, true, groups, springs, handles);
    if before.contains(ev_entities[0]) {
        lemma_without_all_set(before, es);
        assert(es.to_set().contains(x));
        assert(!without_all(before, es).to_set().contains(x));
    } else {
        lemma_pushed_all(before, es);
    }
}

/// What an area selection does with the objects it encloses (topmost last).
pub enum EnclosedOutcome {
    /// Change the selection to exactly the enclosed objects, groups not expanded.
    Select(SelectEvent),
    /// Nothing is enclosed: add the object that was being drawn instead.
    AddFallback,
}

/// An area selection selects the enclosed objects without expanding groups; when it
/// encloses nothing it adds the fallback object if there is one, and otherwise selects
/// nothing.
pub fn select_enclosed_outcome(
    enclosed: Vec<EntityId>,
    mode: SelectionMode,
    open_menu: bool,
    has_fallback: bool,
) -> (r: EnclosedOutcome)
    ensures
        match r {
            EnclosedOutcome::Select(ev) => (enclosed@.len() > 0 || !has_fallback) && ev.entities@
                == enclosed@ && ev.mode == mode && ev.open_menu == open_menu && !ev.expand_groups,
            EnclosedOutcome::AddFallback => enclosed@.len() == 0 && has_fallback,
        },
{
    if enclosed.len() == 0 && has_fallback {
        EnclosedOutcome::AddFallback
    } else {
        EnclosedOutcome::Select(SelectEvent { entities: enclosed, mode, open_menu, expand_groups: false })
    }
}

/// After a gesture grew the selection along fix joints, the selection becomes the grown
/// list (groups not expanded again) — unless it did not grow.
pub fn select_expanded(expanded: &[EntityId], selected_count: usize) -> (r: Option<SelectEvent>)
    ensures
        match r {
            Some(ev) => expanded@.len() != selected_count && ev.entities@ == expanded@ && ev.mode
                == SelectionMode::Replace && !ev.open_menu && !ev.expand_groups,
            None => expanded@.len() == selected_count,
        },
{
    if expanded.len() != selected_count {
        Some(
            SelectEvent {
                entities: vstd::slice::slice_to_vec(expanded),
                mode: SelectionMode::Replace,
                open_menu: false,
                expand_groups: false,
            },
        )
    } else {
        None
    }
}

proof fn lemma_toggled_keeps_unpicked(a: Seq<EntityId>, es: Seq<EntityId>, x: EntityId)
    requires
        !es.contains(x),
    ensures
        toggled(a, es).0.contains(x) == a.contains(x),
    decreases es.len(),
{
    if es.len() > 0 {
        let p = es.drop_last();
        assert(!p.contains(x)) by {
            if p.contains(x) {
                let i = choose|i: int| 0 <= i < p.len() && p[i] == x;
                assert(es[i] == x);
            }
        }
        assert(es.last() != x) by {
            assert(es[es.len() - 1] == es.last());
        }
        lemma_toggled_keeps_unpicked(a, p, x);
        let cur = toggled(a, p).0;
        let e = es.last();
        if cur.contains(e) {
            lemma_without_set(cur, e);
            assert(without(cur, e).to_set().contains(x) == cur.to_set().contains(x));
        } else {
            lemma_pushed(cur, e);
        }
    }
}

/// Law: a toggle pick only changes the picked entities. Every entity outside the pick
/// keeps its selection state, whether the pick is direct (groups expanded) or an area
/// pick; only a toggle that picks nothing clears the selection.
pub proof fn lemma_toggle_keeps_unpicked(
    ev_entities: Seq<EntityId>,
    expand_groups: bool,
    before: Seq<EntityId>,
    groups: Seq<(EntityId, EntityId)>,
    springs: Seq<EntityId>,
    handles: Seq<(EntityId, EntityId)>,
    x: EntityId,
)
    requires
        picked(ev_entities, expand_groups, groups, springs, handles).len() > 0,
        !picked(ev_entities, expand_groups, groups, springs, handles).contains(x),
    ensures
        select_outcome(ev_entities, SelectionMode::Toggle, expand_groups, before, groups, springs, handles).1.contains(
            x,
        ) == before.contains(x),
        apply_commands(
            before.to_set(),
            select_outcome(ev_entities, SelectionMode::Toggle, expand_groups, before, groups, springs, handles).0,
        ).contains(x) == before.contains(x),
{
    let es = picked(ev_entities, expand_groups, groups, springs, handles);
    lemma_commands_yield_the_reported_selection(
        ev_entities,
        SelectionMode::Toggle,
        expand_groups,
        before,
        groups,
        springs,
        handles,
    );
    if expand_groups {
        if ev_entities.len() > 0 && before.contains(ev_entities[0]) {
            lemma_without_all_set(before, es);
            assert(without_all(before, es).to_set().contains(x) == before.to_set().contains(x));
        } else {
            lemma_pushed_all(before, es);
        }
    } else {
        lemma_toggled_keeps_unpicked(before, es, x);
    }
}

proof fn lemma_toggled_flips_picked(a: Seq<EntityId>, es: Seq<EntityId>, x: EntityId)
    requires
        es.no_duplicates(),
        es.contains(x),
    ensures
        toggled(a, es).0.contains(x) == !a.contains(x),
    decreases es.len(),
{
    let p = es.drop_last();
    let e = es.last();
    let cur = toggled(a, p).0;
    assert(p.no_duplicates());
    if e == x {
        assert(!p.contains(x)) by {
            if p.contains(x) {
                let i = choose|i: int| 0 <= i < p.len() && p[i] == x;
                assert(es[i] == es[es.len() - 1]);
            }
        }
        lemma_toggled_keeps_unpicked(a, p, x);
        if cur.contains(e) {
            lemma_without_set(cur, e);
            assert(!without(cur, e).to_set().contains(x));
        } else {
            lemma_pushed(cur, e);
        }
    } else {
        assert(p.contains(x)) by {
            let i = choose|i: int| 0 <= i < es.len() && es[i] == x;
            assert(i < es.len() - 1);
            assert(p[i] == x);
        }
        lemma_toggled_flips_picked(a, p, x);
        if cur.contains(e) {
            lemma_without_set(cur, e);
            assert(without(cur, e).to_set().contains(x) == cur.to_set().contains(x));
        } else {
            lemma_pushed(cur, e);
        }
    }
}

/// Law: a replacing pick leaves exactly the picked entities selected, and an area toggle
/// (groups not expanded) flips each picked entity, when each is picked once.
pub proof fn lemma_replace_and_area_toggle(
    ev_entities: Seq<EntityId>,
    before: Seq<EntityId>,
    groups: Seq<(EntityId, EntityId)>,
    springs: Seq<EntityId>,
    handles: Seq<(EntityId, EntityId)>,
    expand_groups: bool,
    x: EntityId,
)
    ensures
        select_outcome(ev_entities, SelectionMode::Replace, expand_groups, before, groups, springs, handles).1
            == picked(ev_entities, expand_groups, groups, springs, handles),
        (picked(ev_entities, false, groups, springs, handles).no_duplicates() && picked(
            ev_entities,
            false,
            groups,
            springs,
            handles,
        ).contains(x)) ==> select_outcome(
            ev_entities,
            SelectionMode::Toggle,
            false,
            before,
            groups,
            springs,
            handles,
        ).1.contains(x) == !before.contains(x),
{
    let es = picked(ev_entities, false, groups, springs, handles);
    if es.no_duplicates() && es.contains(x) {
        lemma_toggled_flips_picked(before, es, x);
    }
}


/// `x` is the end handle of a spring that is picked.
pub open spec fn handle_of_picked_spring(
    entities: Seq<EntityId>,
    springs: Seq<EntityId>,
    handles: Seq<(EntityId, EntityId)>,
    x: EntityId,
) -> bool {
    exists|j: int|
        0 <= j < handles.len() && handles[j].0 == x && springs.contains(#[trigger] handles[j].1)
            && entities.contains(handles[j].1)
}

proof fn lemma_handles_of_contains(handles: Seq<(EntityId, EntityId)>, spring: EntityId, x: EntityId)
    ensures
        handles_of(handles, spring).contains(x) <==> exists|j: int|
            0 <= j < handles.len() && #[trigger] handles[j] == (x, spring),
    decreases handles.len(),
{
    if handles.len() > 0 {
        let p = handles.drop_last();
        lemma_handles_of_contains(p, spring, x);
        let h = handles_of(p, spring);
        if handles.last().1 == spring {
            assert(h.push(handles.last().0).contains(x) <==> h.contains(x) || handles.last().0 == x) by {
                if h.push(handles.last().0).contains(x) {
                    let i = choose|i: int| 0 <= i < h.len() + 1 && h.push(handles.last().0)[i] == x;
                    if i < h.len() {
                        assert(h[i] == x);
                    }
                }
                if h.contains(x) {
                    let i = choose|i: int| 0 <= i < h.len() && h[i] == x;
                    assert(h.push(handles.last().0)[i] == x);
                }
                assert(h.push(handles.last().0)[h.len() as int] == handles.last().0);
            }
        }
        if exists|j: int| 0 <= j < handles.len() && #[trigger] handles[j] == (x, spring) {
            let j = choose|j: int| 0 <= j < handles.len() && #[trigger] handles[j] == (x, spring);
            if j < handles.len() - 1 {
                assert(p[j] == (x, spring));
            } else {
                assert(handles.last() == (x, spring));
            }
        }
        if exists|j: int| 0 <= j < p.len() && #[trigger] p[j] == (x, spring) {
            let j = choose|j: int| 0 <= j < p.len() && #[trigger] p[j] == (x, spring);
            assert(handles[j] == (x, spring));
        }
        if handles.last() == (x, spring) {
            assert(handles[handles.len() - 1] == (x, spring));
        }
    }
}

/// Law: normalizing a pick keeps every picked entity, adds the end handles of the picked
/// springs and nothing else, and lists each entity once.
pub proof fn lemma_normalized_adds_spring_handles(
    entities: Seq<EntityId>,
    springs: Seq<EntityId>,
    handles: Seq<(EntityId, EntityId)>,
    x: EntityId,
)
    ensures
        normalized(entities, springs, handles).contains(x) <==> entities.contains(x)
            || handle_of_picked_spring(entities, springs, handles, x),
        no_dup(normalized(entities, springs, handles)),
    decreases entities.len(),
{
    if entities.len() > 0 {
        let d = entities.drop_last();
        let e = entities.last();
        lemma_normalized_adds_spring_handles(d, springs, handles, x);
        let n = normalized(d, springs, handles);
        let a = pushed(n, e);
        lemma_pushed(n, e);
        lemma_pushed_all(a, handles_of(handles, e));
        lemma_handles_of_contains(handles, e, x);
        assert(entities.contains(x) <==> d.contains(x) || x == e) by {
            if entities.contains(x) && x != e {
                let i = choose|i: int| 0 <= i < entities.len() && entities[i] == x;
                assert(d[i] == x);
            }
            if d.contains(x) {
                let i = choose|i: int| 0 <= i < d.len() && d[i] == x;
                assert(entities[i] == x);
            }
            assert(entities[entities.len() - 1] == e);
        }
        if handle_of_picked_spring(entities, springs, handles, x) {
            let j = choose|j: int|
                0 <= j < handles.len() && handles[j].0 == x && springs.contains(#[trigger] handles[j].1)
                    && entities.contains(handles[j].1);
            let sp = handles[j].1;
            let k = choose|k: int| 0 <= k < entities.len() && entities[k] == sp;
            if k < entities.len() - 1 {
                assert(d[k] == sp);
                assert(handle_of_picked_spring(d, springs, handles, x));
            } else {
                assert(sp == e);
                assert(handles[j] == (x, e));
            }
        }
        if handle_of_picked_spring(d, springs, handles, x) {
            let j = choose|j: int|
                0 <= j < handles.len() && handles[j].0 == x && springs.contains(#[trigger] handles[j].1)
                    && d.contains(handles[j].1);
            let k = choose|k: int| 0 <= k < d.len() && d[k] == handles[j].1;
            assert(entities[k] == handles[j].1);
            assert(handle_of_picked_spring(entities, springs, handles, x));
        }
        if springs.contains(e) && handles_of(handles, e).contains(x) {
            let j = choose|j: int| 0 <= j < handles.len() && #[trigger] handles[j] == (x, e);
            assert(entities[entities.len() - 1] == e);
            assert(handles[j].0 == x && springs.contains(handles[j].1) && entities.contains(handles[j].1));
        }
    }
}

/// Law: a pick of nothing leaves nothing selected, in either mode, and its commands
/// deselect every entity that was selected.
pub proof fn lemma_empty_pick_clears(
    ev_entities: Seq<EntityId>,
    mode: SelectionMode,
    expand_groups: bool,
    before: Seq<EntityId>,
    groups: Seq<(EntityId, EntityId)>,
    springs: Seq<EntityId>,
    handles: Seq<(EntityId, EntityId)>,
)
    requires
        picked(ev_entities, expand_groups, groups, springs, handles).len() == 0,
    ensures
        select_outcome(ev_entities, mode, expand_groups, before, groups, springs, handles).1.len() == 0,
        apply_commands(
            before.to_set(),
            select_outcome(ev_entities, mode, expand_groups, before, groups, springs, handles).0,
        ) == Set::<EntityId>::empty(),
{
    lemma_commands_yield_the_reported_selection(ev_entities, mode, expand_groups, before, groups, springs, handles);
    assert(select_outcome(ev_entities, mode, expand_groups, before, groups, springs, handles).1.to_set()
        =~= Set::<EntityId>::empty());
}

} // verus!
