use std::collections::HashMap;
use std::hash::BuildHasherDefault;

use nohash_hasher::{BuildNoHashHasher, NoHashHasher};
use vstd::prelude::*;
use vstd::std_specs::hash::spec_keys_iter;
use vstd::std_specs::iter::IteratorSpec;

verus! {

broadcast use vstd::std_specs::hash::group_hash_axioms;

#[verifier::external_type_specification]
#[verifier::external_body]
#[verifier::reject_recursive_types(T)]
pub struct ExNoHashHasher<T>(NoHashHasher<T>);

#[verifier::external_type_specification]
#[verifier::external_body]
#[verifier::reject_recursive_types(H)]
pub struct ExBuildHasherDefault<H>(BuildHasherDefault<H>);

/// An entity: an opaque identifier that components are attached to.
#[derive(Clone, Copy, Debug, PartialEq, Eq, Hash, Structural)]
pub struct Entity(pub u64);

/// The components of one type, keyed by the id of the entity they belong to.
pub type ComponentTable<V> = HashMap<u64, V, BuildNoHashHasher<u64>>;

/// All component tables, keyed by component type.
pub type EcsTable<V> = HashMap<u64, ComponentTable<V>>;

/// The table seen as a map from component type to a map from entity id to component.
pub open spec fn table_model<V>(t: EcsTable<V>) -> Map<u64, Map<u64, V>> {
    Map::new(|k: u64| t@.contains_key(k), |k: u64| t@[k]@)
}

/// Some component table holds a component of entity `id`.
pub open spec fn table_contains_spec<V>(m: Map<u64, Map<u64, V>>, id: u64) -> bool {
    exists|k: u64| #[trigger] m.contains_key(k) && m[k].contains_key(id)
}

/// The table after component `comp.1` of type `comp.0` is given to entity `id`;
/// the component table of that type is created when it is missing.
pub open spec fn insert_component<V>(m: Map<u64, Map<u64, V>>, id: u64, comp: (u64, V)) -> Map<
    u64,
    Map<u64, V>,
> {
    let sub = if m.contains_key(comp.0) {
        m[comp.0]
    } else {
        Map::empty()
    };
    m.insert(comp.0, sub.insert(id, comp.1))
}

/// The table after the components are given to entity `id` in order (a later
/// component of the same type replaces an earlier one).
pub open spec fn spawn_spec<V>(m: Map<u64, Map<u64, V>>, id: u64, comps: Seq<(u64, V)>) -> Map<
    u64,
    Map<u64, V>,
>
    decreases comps.len(),
{
    if comps.len() == 0 {
        m
    } else {
        insert_component(spawn_spec(m, id, comps.drop_last()), id, comps.last())
    }
}

/// The table after every component of entity `id` is removed; the component
/// tables themselves stay, possibly empty.
pub open spec fn despawn_spec<V>(m: Map<u64, Map<u64, V>>, id: u64) -> Map<u64, Map<u64, V>> {
    Map::new(|k: u64| m.contains_key(k), |k: u64| m[k].remove(id))
}

/// The component types among `comps`.
pub open spec fn component_types<V>(comps: Seq<(u64, V)>) -> Set<u64> {
    Set::new(|t: u64| exists|i: int| 0 <= i < comps.len() && (#[trigger] comps[i]).0 == t)
}

/// A spawn gives the entity the last listed component of each type.
pub proof fn law_spawn_gives_components<V>(m: Map<u64, Map<u64, V>>, e: u64, comps: Seq<(u64, V)>, i: int)
    requires
        0 <= i < comps.len(),
        forall|j: int| i < j < comps.len() ==> (#[trigger] comps[j]).0 != comps[i].0,
    ensures
        spawn_spec(m, e, comps).contains_key(comps[i].0),
        spawn_spec(m, e, comps)[comps[i].0].contains_key(e),
        spawn_spec(m, e, comps)[comps[i].0][e] == comps[i].1,
    decreases comps.len(),
{
    if i < comps.len() - 1 {
        law_spawn_gives_components(m, e, comps.drop_last(), i);
    }
}

/// A spawn changes no other entity: every other entity has the same
/// components afterwards, and the component types of the table only grow.
pub proof fn law_spawn_keeps_other_entities<V>(
    m: Map<u64, Map<u64, V>>,
    e: u64,
    comps: Seq<(u64, V)>,
    t: u64,
    other: u64,
)
    requires
        other != e,
    ensures
        m.contains_key(t) ==> spawn_spec(m, e, comps).contains_key(t),
        (spawn_spec(m, e, comps).contains_key(t) && spawn_spec(m, e, comps)[t].contains_key(other))
            <==> (m.contains_key(t) && m[t].contains_key(other)),
        m.contains_key(t) && m[t].contains_key(other) ==> spawn_spec(m, e, comps)[t][other]
            == m[t][other],
    decreases comps.len(),
{
    if comps.len() > 0 {
        law_spawn_keeps_other_entities(m, e, comps.drop_last(), t, other);
    }
}

/// A spawned entity that was unused has exactly the listed component types.
pub proof fn law_spawned_entity_has_given_types<V>(
    m: Map<u64, Map<u64, V>>,
    e: u64,
    comps: Seq<(u64, V)>,
    t: u64,
)
    requires
        !table_contains_spec(m, e),
    ensures
        (spawn_spec(m, e, comps).contains_key(t) && spawn_spec(m, e, comps)[t].contains_key(e))
            <==> component_types(comps).contains(t),
    decreases comps.len(),
{
    if comps.len() > 0 {
        let init = comps.drop_last();
        law_spawned_entity_has_given_types(m, e, init, t);
        if component_types(init).contains(t) {
            let i = choose|i: int| 0 <= i < init.len() && (#[trigger] init[i]).0 == t;
            assert(comps[i].0 == t);
        }
        if component_types(comps).contains(t) && comps.last().0 != t {
            let i = choose|i: int| 0 <= i < comps.len() && (#[trigger] comps[i]).0 == t;
            assert(init[i].0 == t);
        }
        assert(comps[comps.len() - 1].0 == comps.last().0);
    } else {
        if m.contains_key(t) && m[t].contains_key(e) {
            assert(table_contains_spec(m, e));
        }
    }
}

/// After a despawn no component table mentions the entity, and every other
/// entity keeps its components.
pub proof fn law_despawn_removes_entity<V>(m: Map<u64, Map<u64, V>>, e: u64, t: u64, other: u64)
    requires
        other != e,
    ensures
        !table_contains_spec(despawn_spec(m, e), e),
        despawn_spec(m, e).dom() == m.dom(),
        m.contains_key(t) ==> despawn_spec(m, e)[t].contains_key(other) == m[t].contains_key(other),
        m.contains_key(t) && m[t].contains_key(other) ==> despawn_spec(m, e)[t][other]
            == m[t][other],
{
    assert(despawn_spec(m, e).dom() =~= m.dom());
}

/// Despawning a freshly spawned entity gives back the table it was spawned
/// into, except that component tables the spawn created stay, empty.
pub proof fn law_despawn_undoes_spawn<V>(m: Map<u64, Map<u64, V>>, e: u64, comps: Seq<(u64, V)>)
    requires
        !table_contains_spec(m, e),
    ensures
        despawn_spec(spawn_spec(m, e, comps), e).dom() == m.dom().union(component_types(comps)),
        forall|t: u64| #[trigger] m.contains_key(t) ==> despawn_spec(spawn_spec(m, e, comps), e)[t] == m[t],
        forall|t: u64|
            !m.contains_key(t) && #[trigger] component_types(comps).contains(t) ==> despawn_spec(
                spawn_spec(m, e, comps),
                e,
            )[t] == Map::<u64, V>::empty(),
    decreases comps.len(),
{
    let s = spawn_spec(m, e, comps);
    lemma_spawn_shape(m, e, comps);
    assert(despawn_spec(s, e).dom() =~= m.dom().union(component_types(comps)));
    assert forall|t: u64| #[trigger] m.contains_key(t) implies despawn_spec(s, e)[t] == m[t] by {
        assert(!m[t].contains_key(e)) by {
            if m[t].contains_key(e) {
                assert(table_contains_spec(m, e));
            }
        }
        assert(s.contains_key(t));
        assert(s[t].remove(e).dom() =~= m[t].dom());
        assert forall|x: u64| #[trigger] m[t].contains_key(x) implies s[t].remove(e)[x] == m[t][x] by {
            assert(x != e);
        }
        assert(s[t].remove(e) =~= m[t]);
    }
    assert forall|t: u64|
        !m.contains_key(t) && #[trigger] component_types(comps).contains(t) implies despawn_spec(
            s,
            e,
        )[t] == Map::<u64, V>::empty() by {
        assert(s.contains_key(t));
        assert(s[t].remove(e).dom() =~= Set::<u64>::empty());
        assert(s[t].remove(e) =~= Map::<u64, V>::empty());
    }
}

/// The shape of a spawn: the component types are those of `m` and of the
/// components, and each table gains at most the entity `e`.
proof fn lemma_spawn_shape<V>(m: Map<u64, Map<u64, V>>, e: u64, comps: Seq<(u64, V)>)
    ensures
        spawn_spec(m, e, comps).dom() == m.dom().union(component_types(comps)),
        forall|t: u64|
            #[trigger] spawn_spec(m, e, comps).contains_key(t) ==> spawn_spec(m, e, comps)[t].dom()
                == (if m.contains_key(t) {
                m[t].dom()
            } else {
                Set::empty()
            }).union(if component_types(comps).contains(t) {
                set![e]
            } else {
                Set::empty()
            }),
        forall|t: u64, x: u64|
            #[trigger] spawn_spec(m, e, comps).contains_key(t) && x != e && m.contains_key(t)
                && #[trigger] m[t].contains_key(x) ==> spawn_spec(m, e, comps)[t][x] == m[t][x],
    decreases comps.len(),
{
    if comps.len() > 0 {
        let init = comps.drop_last();
        lemma_spawn_shape(m, e, init);
        assert(component_types(comps) =~= component_types(init).insert(comps.last().0)) by {
            assert forall|t: u64| component_types(comps).contains(t) implies component_types(
                init,
            ).insert(comps.last().0).contains(t) by {
                let i = choose|i: int| 0 <= i < comps.len() && (#[trigger] comps[i]).0 == t;
                if i < comps.len() - 1 {
                    assert(init[i].0 == t);
                }
            }
            assert forall|t: u64| component_types(init).insert(comps.last().0).contains(t) implies component_types(
                comps,
            ).contains(t) by {
                if t == comps.last().0 {
                    assert(comps[comps.len() - 1].0 == t);
                } else {
                    let i = choose|i: int| 0 <= i < init.len() && (#[trigger] init[i]).0 == t;
                    assert(comps[i].0 == t);
                }
            }
        }
        let s = spawn_spec(m, e, comps);
        assert(s.dom() =~= m.dom().union(component_types(comps)));
        assert forall|t: u64| #[trigger] s.contains_key(t) implies s[t].dom() == (if m.contains_key(t) {
            m[t].dom()
        } else {
            Set::empty()
        }).union(if component_types(comps).contains(t) {
            set![e]
        } else {
            Set::empty()
        }) by {
            let prev = spawn_spec(m, e, init);
            if t == comps.last().0 {
                if prev.contains_key(t) {
                    assert(s[t].dom() =~= prev[t].dom().insert(e));
                } else {
                    assert(s[t].dom() =~= set![e]);
                }
            } else {
                assert(s[t] == prev[t]);
            }
            assert(s[t].dom() =~= (if m.contains_key(t) {
                m[t].dom()
            } else {
                Set::empty()
            }).union(if component_types(comps).contains(t) {
                set![e]
            } else {
                Set::empty()
            }));
        }
    } else {
        assert(component_types(comps) =~= Set::<u64>::empty());
        assert(m.dom().union(Set::<u64>::empty()) =~= m.dom());
        assert forall|t: u64| #[trigger] m.contains_key(t) implies m[t].dom() == m[t].dom().union(
            Set::<u64>::empty(),
        ) by {
            assert(m[t].dom().union(Set::<u64>::empty()) =~= m[t].dom());
        }
    }
}

/// An empty component table.
pub fn component_table_new<V>() -> (t: ComponentTable<V>)
    ensures
        t@ == Map::<u64, V>::empty(),
{
    HashMap::default()
}

/// `HashMap::insert` on a table hashed by `NoHashHasher`: afterwards the table
/// maps `k` to `v` and is otherwise unchanged.
#[verifier::external_body]
pub(crate) fn component_insert<V>(t: &mut ComponentTable<V>, k: u64, v: V)
    ensures
        final(t)@ == old(t)@.insert(k, v),
{
    t.insert(k, v);
}

/// `HashMap::remove` on a table hashed by `NoHashHasher`: afterwards the table
/// has no entry for `k` and is otherwise unchanged.
#[verifier::external_body]
pub(crate) fn component_remove<V>(t: &mut ComponentTable<V>, k: u64)
    ensures
        final(t)@ == old(t)@.remove(k),
{
    t.remove(&k);
}

/// `HashMap::get` on a table hashed by `NoHashHasher`: the value stored for
/// `k`, if there is one.
#[verifier::external_body]
pub(crate) fn component_get<V>(t: &ComponentTable<V>, k: u64) -> (r: Option<&V>)
    ensures
        r matches Some(v) ==> t@.contains_key(k) && *v == t@[k],
        r is None ==> !t@.contains_key(k),
{
    t.get(&k)
}

/// `HashMap::get_mut` on a table hashed by `NoHashHasher`: the value stored
/// for `k`, for changing in place, if there is one. What is left behind the
/// reference is what the table then holds for `k`.
#[verifier::external_body]
pub(crate) fn component_get_mut<V>(t: &mut ComponentTable<V>, k: u64) -> (r: Option<&mut V>)
    ensures
        r is Some <==> old(t)@.contains_key(k),
        r matches Some(v) ==> *v == old(t)@[k] && final(t)@ == old(t)@.insert(k, *final(v)),
        r is None ==> final(t)@ == old(t)@,
{
    t.get_mut(&k)
}

/// `HashMap::contains_key` on a table hashed by `NoHashHasher`.
#[verifier::external_body]
pub(crate) fn component_contains<V>(t: &ComponentTable<V>, k: u64) -> (r: bool)
    ensures
        r == t@.contains_key(k),
{
    t.contains_key(&k)
}

/// `HashMap::len` on a table hashed by `NoHashHasher`: the number of entries.
#[verifier::external_body]
pub(crate) fn component_len<V>(t: &ComponentTable<V>) -> (r: usize)
    ensures
        r == t@.len(),
{
    t.len()
}

/// `HashMap::keys` on a table hashed by `NoHashHasher`, collected: every key
/// once. The order is the map's iteration order, of which nothing is stated.
#[verifier::external_body]
pub(crate) fn component_keys<V>(t: &ComponentTable<V>) -> (r: Vec<u64>)
    ensures
        r@.to_set() == t@.dom(),
        r@.no_duplicates(),
{
    t.keys().copied().collect()
}

/// `rand::random::<u64>()`: a number from the thread-local generator. Nothing
/// is stated of its value.
#[verifier::external_body]
fn random_u64() -> u64 {
    rand::random()
}

/// The keys of the outer table, each once, in the map's iteration order.
pub fn type_keys<V>(t: &EcsTable<V>) -> (r: Vec<u64>)
    ensures
        r@.to_set() == t@.dom(),
        r@.no_duplicates(),
{
    let ghost all = spec_keys_iter(t).remaining();
    let mut r: Vec<u64> = Vec::new();
    for k in it: t.keys()
        invariant
            it.seq() == all,
            r@ == all.take(it.index()).unref(),
    {
        r.push(*k);
        assert(all.take(it.index() + 1).unref() =~= all.take(it.index()).unref().push(*k));
    }
    assert(all.take(all.len() as int) =~= all);
    r
}

/// Whether any component table holds a component of `id`.
pub fn table_contains<V>(table: &EcsTable<V>, id: Entity) -> (r: bool)
    ensures
        r == table_contains_spec(table_model(*table), id.0),
{
    let keys = type_keys(table);
    let n = keys.len();
    for i in 0..n
        invariant
            n == keys@.len(),
            keys@.to_set() == table@.dom(),
            forall|j: int|
                0 <= j < i ==> !(#[trigger] table@[keys@[j]])@.contains_key(id.0),
    {
        let k = keys[i];
        assert(keys@.to_set().contains(k));
        match table.get(&k) {
            Some(sub) => {
                if component_contains(sub, id.0) {
                    assert(table_model(*table).contains_key(k));
                    return true;
                }
            },
            None => {},
        }
    }
    assert forall|k: u64| #[trigger]
        table_model(*table).contains_key(k) implies !table_model(*table)[k].contains_key(id.0) by {
        assert(keys@.to_set().contains(k));
        let j = choose|j: int| 0 <= j < keys@.len() && keys@[j] == k;
        assert(!table@[keys@[j]]@.contains_key(id.0));
    }
    false
}

/// An entity that no component table mentions. Random candidates are drawn
/// first; after `u64::MAX` collisions in a row the ids are tried in increasing
/// order. `None` exactly when every id is in use.
pub(crate) fn generate_entity<V>(table: &EcsTable<V>) -> (r: Option<Entity>)
    ensures
        r matches Some(e) ==> !table_contains_spec(table_model(*table), e.0),
        r is None <==> forall|x: u64| table_contains_spec(table_model(*table), x),
{
    let mut attempts: u64 = 0;
    while attempts < u64::MAX
        decreases u64::MAX - attempts,
    {
        let id = Entity(random_u64());
        if !table_contains(table, id) {
            return Some(id);
        }
        attempts = attempts + 1;
    }
    let mut x: u64 = 0;
    loop
        invariant
            forall|y: u64| y < x ==> table_contains_spec(table_model(*table), y),
        decreases u64::MAX - x,
    {
        let id = Entity(x);
        if !table_contains(table, id) {
            return Some(id);
        }
        if x == u64::MAX {
            return None;
        }
        x = x + 1;
    }
}


/// The component of type `type_key` of `entity`, for changing in place;
/// `None` when the entity has no such component. What is left behind the
/// reference is that component afterwards; nothing else changes.
pub fn component_mut<V>(table: &mut EcsTable<V>, entity: Entity, type_key: u64) -> (r: Option<&mut V>)
    ensures
        r is Some <==> table_model(*old(table)).contains_key(type_key) && table_model(
            *old(table),
        )[type_key].contains_key(entity.0),
        r matches Some(v) ==> *v == table_model(*old(table))[type_key][entity.0] && table_model(
            *final(table),
        ) == table_model(*old(table)).insert(
            type_key,
            table_model(*old(table))[type_key].insert(entity.0, *final(v)),
        ),
        r is None ==> table_model(*final(table)) == table_model(*old(table)),
{
    if !table.contains_key(&type_key) {
        return None;
    }
    match table.entry(type_key) {
        std::collections::hash_map::Entry::Occupied(e) => {
            let sub = e.into_mut();
            component_get_mut(sub, entity.0)
        },
        std::collections::hash_map::Entry::Vacant(_) => {
            proof {
                assert(false);
            }
            loop
                invariant
                    false,
                decreases 0nat,
            {
            }
        },
    }
}

/// Gives entity `id` the components, in order, creating component tables that
/// are missing.
pub fn spawn_into<V>(table: &mut EcsTable<V>, id: Entity, components: Vec<(u64, V)>)
    ensures
        table_model(*final(table)) == spawn_spec(table_model(*old(table)), id.0, components@),
{
    let ghost m0 = table_model(*table);
    let ghost all = components@;
    let mut comps = components;
    let ghost mut done: int = 0;
    while comps.len() > 0
        invariant
            0 <= done <= all.len(),
            comps@ == all.skip(done),
            table_model(*table) == spawn_spec(m0, id.0, all.take(done)),
        decreases comps.len(),
    {
        let ghost before = table_model(*table);
        let (k, v) = comps.remove(0);
        let mut sub = match table.remove(&k) {
            Some(s) => s,
            None => component_table_new(),
        };
        component_insert(&mut sub, id.0, v);
        table.insert(k, sub);
        proof {
            assert(all.take(done + 1).drop_last() =~= all.take(done));
            assert(all.take(done + 1).last() == (k, v));
            assert(table_model(*table) =~= insert_component(before, id.0, (k, v)));
            assert(comps@ =~= all.skip(done + 1));
            done = done + 1;
        }
    }
    assert(all.take(done) =~= all);
}

/// Removes every component of entity `id`.
pub fn despawn_from<V>(table: &mut EcsTable<V>, id: Entity)
    ensures
        table_model(*final(table)) == despawn_spec(table_model(*old(table)), id.0),
{
    let ghost m0 = table_model(*table);
    let keys = type_keys(table);
    let n = keys.len();
    for i in 0..n
        invariant
            n == keys@.len(),
            keys@.to_set() == m0.dom(),
            keys@.no_duplicates(),
            table@.dom() == m0.dom(),
            forall|j: int|
                0 <= j < i ==> (#[trigger] table@[keys@[j]])@ == m0[keys@[j]].remove(id.0),
            forall|k: u64|
                #![trigger table@[k]]
                m0.contains_key(k) && !keys@.take(i as int).contains(k) ==> table@[k]@ == m0[k],
    {
        let k = keys[i];
        assert(keys@.to_set().contains(k));
        let ghost prev = *table;
        match table.remove(&k) {
            Some(sub) => {
                let mut sub = sub;
                component_remove(&mut sub, id.0);
                table.insert(k, sub);
            },
            None => {},
        }
        proof {
            assert(keys@.take(i + 1) =~= keys@.take(i as int).push(k));
            assert(!keys@.take(i as int).contains(k)) by {
                if keys@.take(i as int).contains(k) {
                    let j = choose|j: int| 0 <= j < i && keys@.take(i as int)[j] == k;
                    assert(keys@[j] == keys@[i as int]);
                }
            }
            assert forall|j: int| 0 <= j < i + 1 implies (#[trigger] table@[keys@[j]])@ == m0[keys@[
                j
            ]].remove(id.0) by {
                if j < i {
                    assert(keys@[j] != k);
                    assert(prev@[keys@[j]] == table@[keys@[j]]);
                }
            }
            assert forall|k2: u64|
                m0.contains_key(k2) && !keys@.take(i + 1).contains(k2) implies #[trigger] table@[k2]@
                == m0[k2] by {
                assert(keys@.take(i + 1)[i as int] == k);
                assert(k2 != k);
                if keys@.take(i as int).contains(k2) {
                    let j = choose|j: int| 0 <= j < i && keys@.take(i as int)[j] == k2;
                    assert(keys@.take(i + 1)[j] == k2);
                }
                assert(prev@[k2] == table@[k2]);
            }
        }
    }
    assert(table_model(*table) =~= despawn_spec(m0, id.0)) by {
        assert forall|k: u64| #[trigger] m0.contains_key(k) implies table@[k]@ == m0[k].remove(id.0) by {
            assert(keys@.to_set().contains(k));
            let j = choose|j: int| 0 <= j < keys@.len() && keys@[j] == k;
            assert(table@[keys@[j]]@ == m0[keys@[j]].remove(id.0));
        }
    }
}

} // verus!
