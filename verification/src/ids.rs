use vstd::prelude::*;

verus! {

/// An entity of the scene, by the bits of its id.
pub type EntityId = u64;

/// `acc` with `e` appended unless it already holds it.
pub open spec fn pushed(acc: Seq<EntityId>, e: EntityId) -> Seq<EntityId> {
    if acc.contains(e) {
        acc
    } else {
        acc.push(e)
    }
}

/// `acc` with each of `s` appended in order, skipping those already present.
pub open spec fn pushed_all(acc: Seq<EntityId>, s: Seq<EntityId>) -> Seq<EntityId>
    decreases s.len(),
{
    if s.len() == 0 {
        acc
    } else {
        pushed(pushed_all(acc, s.drop_last()), s.last())
    }
}

/// The entities of `s`, each once, in the order of first occurrence.
pub open spec fn dedup(s: Seq<EntityId>) -> Seq<EntityId> {
    pushed_all(Seq::empty(), s)
}

/// No entity occurs twice.
pub open spec fn no_dup(s: Seq<EntityId>) -> bool {
    forall|i: int, j: int| 0 <= i < j < s.len() ==> s[i] != s[j]
}

pub proof fn lemma_pushed(acc: Seq<EntityId>, e: EntityId)
    ensures
        forall|x: EntityId| #[trigger] pushed(acc, e).contains(x) <==> acc.contains(x) || x == e,
        no_dup(acc) ==> no_dup(pushed(acc, e)),
        pushed(acc, e).len() <= acc.len() + 1,
        pushed(acc, e).subrange(0, acc.len() as int) == acc,
{
    if !acc.contains(e) {
        assert forall|x: EntityId| #[trigger] acc.push(e).contains(x) <==> acc.contains(x) || x
            == e by {
            if x == e {
                assert(acc.push(e)[acc.len() as int] == e);
            }
            if acc.push(e).contains(x) && x != e {
                let i = choose|i: int| 0 <= i < acc.push(e).len() && acc.push(e)[i] == x;
                assert(acc[i] == x);
            }
            if acc.contains(x) {
                let i = choose|i: int| 0 <= i < acc.len() && acc[i] == x;
                assert(acc.push(e)[i] == x);
            }
        }
        assert(acc.push(e).subrange(0, acc.len() as int) =~= acc);
    } else {
        assert(acc.subrange(0, acc.len() as int) =~= acc);
    }
}

pub proof fn lemma_pushed_all(acc: Seq<EntityId>, s: Seq<EntityId>)
    ensures
        forall|x: EntityId| #[trigger] pushed_all(acc, s).contains(x) <==> acc.contains(x)
            || s.contains(x),
        no_dup(acc) ==> no_dup(pushed_all(acc, s)),
        pushed_all(acc, s).len() <= acc.len() + s.len(),
    decreases s.len(),
{
    if s.len() > 0 {
        lemma_pushed_all(acc, s.drop_last());
        lemma_pushed(pushed_all(acc, s.drop_last()), s.last());
        assert forall|x: EntityId| #[trigger] s.contains(x) <==> s.drop_last().contains(x) || x
            == s.last() by {
            if s.contains(x) && x != s.last() {
                let i = choose|i: int| 0 <= i < s.len() && s[i] == x;
                assert(s.drop_last()[i] == x);
            }
            if s.drop_last().contains(x) {
                let i = choose|i: int| 0 <= i < s.drop_last().len() && s.drop_last()[i] == x;
                assert(s[i] == x);
            }
            if x == s.last() {
                assert(s[s.len() - 1] == x);
            }
        }
    }
}

/// The entities of the first `i + 1` items are those of the first `i` and the `i`-th.
pub proof fn lemma_prefix_set(s: Seq<EntityId>, i: int)
    requires
        0 <= i < s.len(),
    ensures
        s.subrange(0, i + 1).to_set() == s.subrange(0, i).to_set().insert(s[i]),
{
    let a = s.subrange(0, i + 1);
    let b = s.subrange(0, i);
    assert forall|x: EntityId| a.contains(x) <==> b.contains(x) || x == s[i] by {
        if a.contains(x) {
            let j = choose|j: int| 0 <= j < a.len() && #[trigger] a[j] == x;
            if j < i {
                assert(b[j] == x);
            }
        }
        if b.contains(x) {
            let j = choose|j: int| 0 <= j < b.len() && #[trigger] b[j] == x;
            assert(a[j] == x);
        }
        if x == s[i] {
            assert(a[i] == x);
        }
    }
    assert(a.to_set() =~= b.to_set().insert(s[i]));
}

/// Whether `s` holds `x`.
pub fn contains_id(s: &[EntityId], x: EntityId) -> (r: bool)
    ensures
        r == s@.contains(x),
{
    let mut i: usize = 0;
    while i < s.len()
        invariant
            0 <= i <= s@.len(),
            forall|j: int| 0 <= j < i ==> s@[j] != x,
        decreases s@.len() - i,
    {
        if s[i] == x {
            return true;
        }
        i = i + 1;
    }
    false
}

/// Appends `entity` unless the list already holds it.
pub fn push_unique(entities: &mut Vec<EntityId>, entity: EntityId)
    ensures
        final(entities)@ == pushed(old(entities)@, entity),
{
    if !contains_id(entities.as_slice(), entity) {
        entities.push(entity);
    }
}

/// Appends each of `s` in order, skipping those already present.
pub fn push_all_unique(entities: &mut Vec<EntityId>, s: &[EntityId])
    ensures
        final(entities)@ == pushed_all(old(entities)@, s@),
{
    let mut i: usize = 0;
    while i < s.len()
        invariant
            0 <= i <= s@.len(),
            entities@ == pushed_all(old(entities)@, s@.subrange(0, i as int)),
        decreases s@.len() - i,
    {
        proof {
            assert(s@.subrange(0, i + 1).drop_last() =~= s@.subrange(0, i as int));
        }
        push_unique(entities, s[i]);
        i = i + 1;
    }
    proof {
        assert(s@.subrange(0, s@.len() as int) =~= s@);
    }
}

} // verus!
