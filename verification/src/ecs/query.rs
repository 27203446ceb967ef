use core::marker::PhantomData;

use vstd::prelude::*;

use super::ecs_table::{
    component_types, despawn_spec, law_spawn_gives_components, spawn_spec, component_contains, component_get, component_keys, component_len, table_model, EcsTable, Entity,
};

verus! {

broadcast use vstd::std_specs::hash::group_hash_axioms;

/// A marker whose filter admits entities that have a component of type `T`.
pub struct With<T> {
    _marker: PhantomData<T>,
}

/// A marker whose filter admits entities that lack a component of type `T`.
pub struct Without<T> {
    _marker: PhantomData<T>,
}

/// A filter of a query: whether it asks for the presence of its component type.
pub trait QueryFilter {
    fn inclusive() -> bool;
}

impl<T> QueryFilter for With<T> {
    fn inclusive() -> (r: bool)
        ensures
            r,
    {
        true
    }
}

impl<T> QueryFilter for Without<T> {
    fn inclusive() -> (r: bool)
        ensures
            !r,
    {
        false
    }
}

/// Every filter `(type, inclusive)` has a component table, and entity `e` is
/// in it exactly when the filter is inclusive.
pub open spec fn filters_pass<V>(m: Map<u64, Map<u64, V>>, filters: Seq<(u64, bool)>, e: u64) -> bool {
    forall|i: int|
        0 <= i < filters.len() ==> m.contains_key((#[trigger] filters[i]).0) && m[filters[i].0].contains_key(e)
            == filters[i].1
}

/// Entity `e` has a component of every listed type.
pub open spec fn has_components<V>(m: Map<u64, Map<u64, V>>, comps: Seq<u64>, e: u64) -> bool {
    forall|i: int|
        0 <= i < comps.len() ==> m.contains_key(#[trigger] comps[i]) && m[comps[i]].contains_key(e)
}

/// Entity `e` passes the filters and has all the components.
pub open spec fn query_matches<V>(
    m: Map<u64, Map<u64, V>>,
    comps: Seq<u64>,
    filters: Seq<(u64, bool)>,
    e: u64,
) -> bool {
    filters_pass(m, filters, e) && has_components(m, comps, e)
}

/// `vals` are the components of `e` of the listed types, in order.
pub open spec fn components_of<V>(m: Map<u64, Map<u64, V>>, comps: Seq<u64>, e: u64, vals: Seq<&V>) -> bool {
    &&& vals.len() == comps.len()
    &&& forall|i: int| 0 <= i < comps.len() ==> *(#[trigger] vals[i]) == m[comps[i]][e]
}

/// Among the listed types that have a component table, the first one whose
/// table is smallest.
pub open spec fn smallest_table<V>(m: Map<u64, Map<u64, V>>, comps: Seq<u64>) -> Option<u64>
    decreases comps.len(),
{
    if comps.len() == 0 {
        None
    } else {
        let prev = smallest_table(m, comps.drop_last());
        let k = comps.last();
        if !m.contains_key(k) {
            prev
        } else {
            match prev {
                None => Some(k),
                Some(p) => if m[k].len() < m[p].len() {
                    Some(k)
                } else {
                    prev
                },
            }
        }
    }
}

/// The table a query walks is a smallest one: it is the table of one of the
/// listed types, no listed type's table is smaller, and no listed type before
/// it has a table of the same size (the first smallest wins). There is none
/// exactly when no listed type has a table.
pub proof fn law_smallest_table_is_minimal<V>(m: Map<u64, Map<u64, V>>, comps: Seq<u64>)
    ensures
        smallest_table(m, comps) is None <==> forall|j: int|
            0 <= j < comps.len() ==> !m.contains_key(#[trigger] comps[j]),
        smallest_table(m, comps) matches Some(c) ==> {
            &&& m.contains_key(c)
            &&& forall|j: int|
                0 <= j < comps.len() && m.contains_key(#[trigger] comps[j]) ==> m[c].len()
                    <= m[comps[j]].len()
            &&& exists|i: int|
                0 <= i < comps.len() && comps[i] == c && forall|j: int|
                    0 <= j < i && m.contains_key(#[trigger] comps[j]) ==> m[c].len()
                        < m[comps[j]].len()
        },
    decreases comps.len(),
{
    if comps.len() > 0 {
        let init = comps.drop_last();
        let k = comps.last();
        let n = comps.len() - 1;
        law_smallest_table_is_minimal(m, init);
        assert(comps[n] == k);
        assert forall|j: int| 0 <= j < n implies comps[j] == init[j] by {}
        match smallest_table(m, init) {
            None => {
                if m.contains_key(k) {
                    assert(smallest_table(m, comps) == Some(k));
                    assert forall|j: int|
                        0 <= j < comps.len() && m.contains_key(#[trigger] comps[j]) implies m[k].len()
                        <= m[comps[j]].len() by {
                        if j < n {
                            assert(!m.contains_key(init[j]));
                        }
                    }
                    assert forall|j: int|
                        0 <= j < n && m.contains_key(#[trigger] comps[j]) implies m[k].len()
                        < m[comps[j]].len() by {
                        assert(!m.contains_key(init[j]));
                    }
                } else {
                    assert forall|j: int| 0 <= j < comps.len() implies !m.contains_key(
                        #[trigger] comps[j],
                    ) by {
                        if j < n {
                            assert(!m.contains_key(init[j]));
                        }
                    }
                }
            },
            Some(p) => {
                let i0 = choose|i: int|
                    0 <= i < init.len() && init[i] == p && forall|j: int|
                        0 <= j < i && m.contains_key(#[trigger] init[j]) ==> m[p].len()
                            < m[init[j]].len();
                assert(comps[i0] == p);
                if m.contains_key(k) && m[k].len() < m[p].len() {
                    assert(smallest_table(m, comps) == Some(k));
                    assert forall|j: int|
                        0 <= j < comps.len() && m.contains_key(#[trigger] comps[j]) implies m[k].len()
                        <= m[comps[j]].len() by {
                        if j < n {
                            assert(m.contains_key(init[j]));
                        }
                    }
                    assert forall|j: int|
                        0 <= j < n && m.contains_key(#[trigger] comps[j]) implies m[k].len()
                        < m[comps[j]].len() by {
                        assert(m.contains_key(init[j]));
                    }
                } else {
                    assert(smallest_table(m, comps) == Some(p));
                    assert forall|j: int|
                        0 <= j < comps.len() && m.contains_key(#[trigger] comps[j]) implies m[p].len()
                        <= m[comps[j]].len() by {
                        if j < n {
                            assert(m.contains_key(init[j]));
                        }
                    }
                    assert forall|j: int|
                        0 <= j < i0 && m.contains_key(#[trigger] comps[j]) implies m[p].len()
                        < m[comps[j]].len() by {
                        assert(init[j] == comps[j]);
                    }
                }
                assert(m.contains_key(comps[i0]));
            },
        }
    }
}

/// A read-only view of the entities that have components of the types in
/// `components` and pass `filters`.
pub struct Query<'a, V> {
    table: &'a EcsTable<V>,
    components: Vec<u64>,
    filters: Vec<(u64, bool)>,
}

impl<'a, V> Query<'a, V> {
    /// A query over `table` for the component types `components` (in the order
    /// their values are returned), restricted by `filters` (type, inclusive).
    pub fn new(table: &'a EcsTable<V>, components: Vec<u64>, filters: Vec<(u64, bool)>) -> (q: Query<'a, V>)
        ensures
            q.table_spec() == table_model(*table),
            q.components_spec() == components@,
            q.filters_spec() == filters@,
    {
        Query { table, components, filters }
    }

    /// The component tables the query reads.
    pub closed spec fn table_spec(&self) -> Map<u64, Map<u64, V>> {
        table_model(*self.table)
    }

    /// The component types whose values the query returns.
    pub closed spec fn components_spec(&self) -> Seq<u64> {
        self.components@
    }

    /// The filters (type, inclusive) of the query.
    pub closed spec fn filters_spec(&self) -> Seq<(u64, bool)> {
        self.filters@
    }
}

/// Each entry of `out` is the entity at the same position of `order`, which
/// matches the query, with its components.
pub open spec fn matched_walk<V>(
    m: Map<u64, Map<u64, V>>,
    comps: Seq<u64>,
    filters: Seq<(u64, bool)>,
    order: Seq<u64>,
    out: Seq<(Entity, Vec<&V>)>,
) -> bool {
    forall|i: int|
        0 <= i < out.len() ==> {
            &&& (#[trigger] out[i]).0 == Entity(order[i])
            &&& query_matches(m, comps, filters, order[i])
            &&& components_of(m, comps, order[i], out[i].1@)
        }
}

/// `out` is what iterating the entity ids `order` yields: each entity with its
/// components, up to (not including) the first entity that does not match.
pub open spec fn iteration_prefix<V>(
    m: Map<u64, Map<u64, V>>,
    comps: Seq<u64>,
    filters: Seq<(u64, bool)>,
    order: Seq<u64>,
    out: Seq<(Entity, Vec<&V>)>,
) -> bool {
    &&& out.len() <= order.len()
    &&& matched_walk(m, comps, filters, order, out)
    &&& out.len() < order.len() ==> !query_matches(m, comps, filters, order[out.len() as int])
}

/// A query without filters finds a freshly spawned entity when every type
/// it asks for was among the spawned components.
pub proof fn law_spawned_entity_is_found<V>(
    m: Map<u64, Map<u64, V>>,
    e: u64,
    spawned: Seq<(u64, V)>,
    comps: Seq<u64>,
)
    requires
        forall|i: int| 0 <= i < comps.len() ==> component_types(spawned).contains(#[trigger] comps[i]),
    ensures
        query_matches(spawn_spec(m, e, spawned), comps, Seq::empty(), e),
{
    assert forall|i: int| 0 <= i < comps.len() implies spawn_spec(m, e, spawned).contains_key(
        #[trigger] comps[i],
    ) && spawn_spec(m, e, spawned)[comps[i]].contains_key(e) by {
        assert(component_types(spawned).contains(comps[i]));
        let j = choose|j: int| 0 <= j < spawned.len() && (#[trigger] spawned[j]).0 == comps[i];
        lemma_last_of_type(spawned, j);
        let k = choose|k: int|
            j <= k < spawned.len() && #[trigger] last_of_type(spawned, k) && spawned[k].0
                == spawned[j].0;
        law_spawn_gives_components(m, e, spawned, k);
    }
}

/// No component after position `k` has the type of the one at `k`.
spec fn last_of_type<V>(spawned: Seq<(u64, V)>, k: int) -> bool {
    forall|l: int| k < l < spawned.len() ==> (#[trigger] spawned[l]).0 != spawned[k].0
}

/// If a component of type `spawned[j].0` appears at `j`, a last one of that
/// type appears at some `k >= j`.
proof fn lemma_last_of_type<V>(spawned: Seq<(u64, V)>, j: int)
    requires
        0 <= j < spawned.len(),
    ensures
        exists|k: int|
            j <= k < spawned.len() && #[trigger] last_of_type(spawned, k) && spawned[k].0 == spawned[j].0,
    decreases spawned.len() - j,
{
    if exists|l: int| j < l < spawned.len() && (#[trigger] spawned[l]).0 == spawned[j].0 {
        let l = choose|l: int| j < l < spawned.len() && (#[trigger] spawned[l]).0 == spawned[j].0;
        lemma_last_of_type(spawned, l);
    } else {
        assert(last_of_type(spawned, j));
    }
}

/// After a despawn, no query that asks for at least one component type finds
/// the entity.
pub proof fn law_despawned_entity_is_not_found<V>(
    m: Map<u64, Map<u64, V>>,
    e: u64,
    comps: Seq<u64>,
    filters: Seq<(u64, bool)>,
)
    requires
        comps.len() > 0,
    ensures
        !query_matches(despawn_spec(m, e), comps, filters, e),
{
    if despawn_spec(m, e).contains_key(comps[0]) {
        assert(!despawn_spec(m, e)[comps[0]].contains_key(e));
    }
}

/// Looking up the components of one entity.
pub trait QueryGet<'a, V> {
    fn get(&self, entity: Entity) -> Option<Vec<&'a V>>;
}

/// Listing the entities of a query with their components.
pub trait QueryIter<'a, V> {
    fn iter(&self) -> Vec<(Entity, Vec<&'a V>)>;
}

impl<'a, V> QueryGet<'a, V> for Query<'a, V> {
    /// The components of `entity` (in the query's order) if it passes every
    /// filter and has every component; `None` otherwise.
    fn get(&self, entity: Entity) -> (r: Option<Vec<&'a V>>)
        ensures
            r is Some <==> query_matches(
                self.table_spec(),
                self.components_spec(),
                self.filters_spec(),
                entity.0,
            ),
            r matches Some(vals) ==> components_of(
                self.table_spec(),
                self.components_spec(),
                entity.0,
                vals@,
            ),
    {
        let ghost m = table_model(*self.table);
        let nf = self.filters.len();
        for i in 0..nf
            invariant
                nf == self.filters@.len(),
                m == table_model(*self.table),
                forall|j: int|
                    0 <= j < i ==> m.contains_key((#[trigger] self.filters@[j]).0)
                        && m[self.filters@[j].0].contains_key(entity.0) == self.filters@[j].1,
        {
            let (k, inclusive) = self.filters[i];
            match self.table.get(&k) {
                Some(t) => {
                    if component_contains(t, entity.0) != inclusive {
                        assert(!filters_pass(m, self.filters@, entity.0)) by {
                            assert(self.filters@[i as int] == (k, inclusive));
                        }
                        return None;
                    }
                },
                None => {
                    assert(!filters_pass(m, self.filters@, entity.0)) by {
                        assert(self.filters@[i as int] == (k, inclusive));
                    }
                    return None;
                },
            }
        }
        let nc = self.components.len();
        let mut vals: Vec<&'a V> = Vec::new();
        for i in 0..nc
            invariant
                nc == self.components@.len(),
                m == table_model(*self.table),
                vals@.len() == i,
                forall|j: int|
                    0 <= j < i ==> m.contains_key(#[trigger] self.components@[j])
                        && m[self.components@[j]].contains_key(entity.0)
                        && *vals@[j] == m[self.components@[j]][entity.0],
        {
            let k = self.components[i];
            match self.table.get(&k) {
                Some(t) => match component_get(t, entity.0) {
                    Some(v) => {
                        vals.push(v);
                    },
                    None => {
                        assert(!has_components(m, self.components@, entity.0)) by {
                            assert(self.components@[i as int] == k);
                        }
                        return None;
                    },
                },
                None => {
                    assert(!has_components(m, self.components@, entity.0)) by {
                        assert(self.components@[i as int] == k);
                    }
                    return None;
                },
            }
        }
        Some(vals)
    }
}

impl<'a, V> QueryIter<'a, V> for Query<'a, V> {
    /// Walks the component table of the query's smallest component type (the
    /// first such type on a tie) in the table's iteration order, yielding each
    /// entity with its components; the walk stops at the first entity that
    /// does not match. Empty when no component type of the query has a table.
    fn iter(&self) -> (r: Vec<(Entity, Vec<&'a V>)>)
        ensures
            match smallest_table(self.table_spec(), self.components_spec()) {
                None => r@.len() == 0,
                Some(c) => exists|order: Seq<u64>|
                    #![trigger iteration_prefix(self.table_spec(), self.components_spec(), self.filters_spec(), order, r@)]
                    order.to_set() == self.table_spec()[c].dom() && order.no_duplicates()
                        && iteration_prefix(
                        self.table_spec(),
                        self.components_spec(),
                        self.filters_spec(),
                        order,
                        r@,
                    ),
            },
    {
        let ghost m = table_model(*self.table);
        let nc = self.components.len();
        let mut min: Option<u64> = None;
        let mut min_len: usize = 0;
        for i in 0..nc
            invariant
                nc == self.components@.len(),
                m == table_model(*self.table),
                min == smallest_table(m, self.components@.take(i as int)),
                min matches Some(p) ==> m.contains_key(p) && min_len == m[p].len(),
        {
            let k = self.components[i];
            proof {
                assert(self.components@.take(i + 1).drop_last() =~= self.components@.take(i as int));
            }
            match self.table.get(&k) {
                Some(t) => {
                    let len = component_len(t);
                    if min.is_none() || len < min_len {
                        min = Some(k);
                        min_len = len;
                    }
                },
                None => {},
            }
        }
        assert(self.components@.take(nc as int) =~= self.components@);
        let mut out: Vec<(Entity, Vec<&'a V>)> = Vec::new();
        match min {
            None => out,
            Some(c) => {
                let t = self.table.get(&c).unwrap();
                let keys = component_keys(t);
                assert(keys@.to_set() == m[c].dom());
                let n = keys.len();
                let mut i: usize = 0;
                while i < n
                    invariant
                        n == keys@.len(),
                        i <= n,
                        smallest_table(m, self.components@) == Some(c),
                        m.contains_key(c),
                        keys@.to_set() == m[c].dom(),
                        keys@.no_duplicates(),
                        m == table_model(*self.table),
                        m == self.table_spec(),
                        self.components@ == self.components_spec(),
                        self.filters@ == self.filters_spec(),
                        out@.len() == i,
                        matched_walk(m, self.components@, self.filters@, keys@, out@),
                    decreases n - i,
                {
                    let e = Entity(keys[i]);
                    match self.get(e) {
                        Some(vals) => {
                            let ghost before = out@;
                            out.push((e, vals));
                            assert forall|j: int| 0 <= j < out@.len() implies {
                                &&& (#[trigger] out@[j]).0 == Entity(keys@[j])
                                &&& query_matches(m, self.components@, self.filters@, keys@[j])
                                &&& components_of(m, self.components@, keys@[j], out@[j].1@)
                            } by {
                                if j < i {
                                    assert(out@[j] == before[j]);
                                }
                            }
                        },
                        None => {
                            assert(iteration_prefix(
                                self.table_spec(),
                                self.components_spec(),
                                self.filters_spec(),
                                keys@,
                                out@,
                            ));
                            return out;
                        },
                    }
                    i = i + 1;
                }
                assert(iteration_prefix(m, self.components@, self.filters@, keys@, out@));
                out
            },
        }
    }
}

} // verus!
