use std::collections::BTreeSet;
use std::collections::HashMap;
use vstd::prelude::*;

verus! {

broadcast use vstd::std_specs::hash::group_hash_axioms;

/// A kind of component that an entity can hold.  Each component reports
/// the type id under which its entity files it, and is updated with read
/// access to the entity that holds it, itself included: an update gives
/// what the component becomes.
pub trait Component: Sized {
    fn typeid(&self) -> i32;

    fn update(&self, parent: &Entity<Self>) -> Self;
}

/// Updating the component `before`, with an entity that holds the
/// components `parent`, may give `after`.
pub open spec fn updated_with_parent<C: Component>(before: C, parent: Map<i32, C>, after: C) -> bool {
    exists|p: Entity<C>| #[trigger] p@ == parent && call_ensures(C::update, (&before, &p), after)
}

/// What updating the component of type id `id` of an entity does to its
/// components: without one, nothing; else that component, and only it, is
/// replaced by what its update gives with the whole entity as parent.
pub open spec fn update_entity_step<C: Component>(
    before: Map<i32, C>,
    after: Map<i32, C>,
    id: i32,
) -> bool {
    if before.contains_key(id) {
        &&& after == before.insert(id, after[id])
        &&& updated_with_parent(before[id], before, after[id])
    } else {
        after == before
    }
}

/// Every component is filed under a type id that it reports.
pub open spec fn filed_by_typeid<C: Component>(comps: Map<i32, C>) -> bool {
    forall|k: i32| #[trigger] comps.contains_key(k) ==> call_ensures(C::typeid, (&comps[k],), k)
}

/// An entity: at most one component per type id.
pub struct Entity<C> {
    pub comps: HashMap<i32, C>,
}

impl<C> View for Entity<C> {
    type V = Map<i32, C>;

    open spec fn view(&self) -> Map<i32, C> {
        self.comps@
    }
}

impl<C> Entity<C> {
    /// An entity without components.
    pub fn new() -> (e: Entity<C>)
        ensures
            e@ == Map::<i32, C>::empty(),
    {
        Entity { comps: HashMap::new() }
    }

    /// Files `comp` under `type_id`, replacing the component filed there before.
    pub fn insert_component(&mut self, type_id: i32, comp: C)
        ensures
            final(self)@ == old(self)@.insert(type_id, comp),
    {
        self.comps.insert(type_id, comp);
    }

    /// The component filed under `type_id`.
    pub fn component(&self, type_id: i32) -> (c: &C)
        requires
            self@.contains_key(type_id),
        ensures
            *c == self@[type_id],
    {
        self.comps.get(&type_id).unwrap()
    }

    /// Mutable access to the component filed under `type_id`; whatever is
    /// written through the result is what the entity holds afterwards.
    pub fn component_mut(&mut self, type_id: i32) -> (c: &mut C)
        requires
            old(self)@.contains_key(type_id),
        ensures
            *c == old(self)@[type_id],
            final(self)@ == old(self)@.insert(type_id, *final(c)),
    {
        match self.comps.entry(type_id) {
            std::collections::hash_map::Entry::Occupied(e) => e.into_mut(),
            std::collections::hash_map::Entry::Vacant(_) => vstd::pervasive::unreached(),
        }
    }

    /// All components, by type id.
    pub fn components(&self) -> (m: &HashMap<i32, C>)
        ensures
            m@ == self@,
    {
        &self.comps
    }
}

impl<C: Component> Entity<C> {
    /// Files `comp` under the type id that it reports.
    pub fn add_component(&mut self, comp: C)
        ensures
            exists|k: i32|
                call_ensures(C::typeid, (&comp,), k) && final(self)@ == old(self)@.insert(k, comp),
            filed_by_typeid(old(self)@) ==> filed_by_typeid(final(self)@),
    {
        let id = comp.typeid();
        assert(call_ensures(C::typeid, (&comp,), id));
        self.insert_component(id, comp);
    }

    /// Updates the component filed under `component_type_id`, if there is
    /// one: the component, seeing the whole entity, itself included, gives
    /// what it becomes, which is filed under the same type id.
    pub fn update_entity(&mut self, component_type_id: i32)
        ensures
            final(self)@.dom() == old(self)@.dom(),
            forall|k: i32| k != component_type_id && #[trigger] old(self)@.contains_key(k)
                ==> final(self)@[k] == old(self)@[k],
            update_entity_step(old(self)@, final(self)@, component_type_id),
    {
        if self.comps.contains_key(&component_type_id) {
            let ghost parent = *self;
            let comp = self.component(component_type_id);
            let updated = comp.update(self);
            assert(call_ensures(C::update, (comp, &parent), updated));
            self.comps.insert(component_type_id, updated);
            assert(updated_with_parent(old(self)@[component_type_id], old(self)@, updated));
            assert(self@ =~= old(self)@.insert(component_type_id, self@[component_type_id]));
        } else {
            assert(self@ =~= old(self)@);
        }
    }
}

/// Law: a component read back under the type id it was filed under is the
/// one filed, and filing it leaves the components of other type ids as they
/// were.
pub proof fn lemma_component_after_insert<C>(comps: Map<i32, C>, type_id: i32, comp: C)
    ensures
        comps.insert(type_id, comp).contains_key(type_id),
        comps.insert(type_id, comp)[type_id] == comp,
        forall|k: i32|
            k != type_id ==> (#[trigger] comps.insert(type_id, comp).contains_key(k)
                <==> comps.contains_key(k)),
        forall|k: i32|
            k != type_id && comps.contains_key(k) ==> #[trigger] comps.insert(type_id, comp)[k]
                == comps[k],
{
}

/// Law: an entity holds one component per type id; filing a second one
/// under the same type id replaces the first.
pub proof fn lemma_insert_replaces<C>(comps: Map<i32, C>, type_id: i32, first: C, second: C)
    ensures
        comps.insert(type_id, first).insert(type_id, second) == comps.insert(type_id, second),
{
    assert(comps.insert(type_id, first).insert(type_id, second) =~= comps.insert(type_id, second));
}

/// Law: the type ids that a system updates do not depend on the order in
/// which entities are added.
pub proof fn lemma_type_ids_order_independent(ids: Set<i32>, first: Set<i32>, second: Set<i32>)
    ensures
        ids.union(first).union(second) == ids.union(second).union(first),
{
    assert(ids.union(first).union(second) =~= ids.union(second).union(first));
}

/// The components that the component of type id `k` of an entity sees while
/// a system that updates the type ids `ids` updates it: those of the type
/// ids in `ids` below `k` as they are after the update (`after`), the others,
/// itself included, as they were before it (`before`).
pub open spec fn parent_in_update<C>(
    before: Map<i32, C>,
    after: Map<i32, C>,
    ids: Set<i32>,
    k: i32,
) -> Map<i32, C> {
    Map::new(
        |j: i32| before.contains_key(j),
        |j: i32|
            if ids.contains(j) && j < k {
                after[j]
            } else {
                before[j]
            },
    )
}

/// The components `cur` of an entity, once a system that updates the type
/// ids `ids` has updated, in ascending order, those of the type ids `done`:
/// the others are as they were (`before`), and each updated one is what its
/// update gave, with the components below it already updated as its entity.
pub open spec fn updated_through<C: Component>(
    before: Map<i32, C>,
    cur: Map<i32, C>,
    ids: Set<i32>,
    done: Set<i32>,
) -> bool {
    &&& cur.dom() == before.dom()
    &&& forall|k: i32| #[trigger]
        before.contains_key(k) && !done.contains(k) ==> cur[k] == before[k]
    &&& forall|k: i32|
        before.contains_key(k) && #[trigger] done.contains(k) ==> updated_with_parent(
            before[k],
            parent_in_update(before, cur, ids, k),
            cur[k],
        )
}

proof fn lemma_update_step<C: Component>(
    before: Map<i32, C>,
    cur: Map<i32, C>,
    next: Map<i32, C>,
    ids: Set<i32>,
    done: Set<i32>,
    id: i32,
)
    requires
        updated_through(before, cur, ids, done),
        ids.contains(id),
        !done.contains(id),
        forall|j: i32| #[trigger] done.contains(j) ==> ids.contains(j) && j < id,
        forall|j: i32| #[trigger] ids.contains(j) && j < id ==> done.contains(j),
        update_entity_step(cur, next, id),
    ensures
        updated_through(before, next, ids, done.insert(id)),
{
    assert(next.dom() =~= before.dom());
    assert forall|k: i32|
        before.contains_key(k) && #[trigger] done.insert(id).contains(k) implies updated_with_parent(
        before[k],
        parent_in_update(before, next, ids, k),
        next[k],
    ) by {
        if k == id {
            assert(parent_in_update(before, next, ids, k) =~= cur);
        } else {
            assert(parent_in_update(before, next, ids, k) =~= parent_in_update(before, cur, ids, k));
        }
    }
    assert forall|k: i32| #[trigger]
        before.contains_key(k) && !done.insert(id).contains(k) implies next[k] == before[k] by {
        assert(!done.contains(k));
    }
}

proof fn lemma_update_prefix<C: Component>(ids: Seq<i32>, states: Seq<Map<i32, C>>, t: int)
    requires
        0 <= t <= ids.len(),
        states.len() == ids.len() + 1,
        forall|a: int, b: int| 0 <= a < b < ids.len() ==> #[trigger] ids[a] < #[trigger] ids[b],
        forall|u: int|
            0 <= u < ids.len() ==> update_entity_step(states[u], #[trigger] states[u + 1], ids[u]),
    ensures
        updated_through(states[0], states[t], ids.to_set(), ids.take(t).to_set()),
    decreases t,
{
    let all = ids.to_set();
    if t == 0 {
        assert(ids.take(0).to_set() =~= Set::<i32>::empty());
        assert(states[0].dom() =~= states[0].dom());
    } else {
        let p = t - 1;
        lemma_update_prefix(ids, states, p);
        let done = ids.take(p).to_set();
        let id = ids[p];
        assert forall|j: i32| #[trigger] done.contains(j) implies all.contains(j) && j < id by {
            let m = choose|m: int| 0 <= m < p && ids.take(p)[m] == j;
            assert(ids[m] == j);
        }
        assert forall|j: i32| #[trigger] all.contains(j) && j < id implies done.contains(j) by {
            let m = choose|m: int| 0 <= m < ids.len() && ids[m] == j;
            if m > p {
                assert(ids[p] < ids[m]);
            }
            assert(ids.take(p)[m] == j);
        }
        assert(!done.contains(id)) by {
            if done.contains(id) {
                let m = choose|m: int| 0 <= m < p && ids.take(p)[m] == id;
                assert(ids[m] < ids[p]);
            }
        }
        assert(all.contains(id)) by {
            assert(ids[p] == id);
        }
        assert(update_entity_step(states[p], states[p + 1], ids[p]));
        lemma_update_step(states[0], states[p], states[t], all, done, id);
        assert(ids.take(t) =~= ids.take(p).push(id));
        ids.take(p).lemma_push_to_set_commute(id);
    }
}

/// Law: a system's update has the effect of updating, for each of its type
/// ids in ascending order, the component of that type id of an entity: any
/// run of such single updates (`states[t + 1]` from `states[t]` by the
/// update of type id `ids[t]`) over the type ids in ascending order ends in
/// the state that `System::update` promises.
pub proof fn lemma_update_is_update_entity_in_order<C: Component>(
    ids: Seq<i32>,
    states: Seq<Map<i32, C>>,
)
    requires
        states.len() == ids.len() + 1,
        forall|a: int, b: int| 0 <= a < b < ids.len() ==> #[trigger] ids[a] < #[trigger] ids[b],
        forall|t: int|
            0 <= t < ids.len() ==> update_entity_step(states[t], #[trigger] states[t + 1], ids[t]),
    ensures
        updated_through(states[0], states[ids.len() as int], ids.to_set(), ids.to_set()),
{
    lemma_update_prefix(ids, states, ids.len() as int);
    assert(ids.take(ids.len() as int) =~= ids);
}

/// The components of an entity partway through an update over the type ids
/// `q` in turn: those of the first `t` of them as they are after it, the
/// others as they were before it.
pub open spec fn partway<C>(before: Map<i32, C>, after: Map<i32, C>, q: Seq<i32>, t: int) -> Map<
    i32,
    C,
> {
    Map::new(
        |j: i32| before.contains_key(j),
        |j: i32|
            if q.take(t).contains(j) {
                after[j]
            } else {
                before[j]
            },
    )
}

/// Law: what `System::update` promises of an entity is no more than a run
/// of single updates, one per type id in ascending order: the states
/// partway through lead from the entity before to the entity after, each by
/// the update of the next type id.
pub proof fn lemma_update_result_is_run<C: Component>(
    before: Map<i32, C>,
    after: Map<i32, C>,
    q: Seq<i32>,
)
    requires
        forall|a: int, b: int| 0 <= a < b < q.len() ==> #[trigger] q[a] < #[trigger] q[b],
        updated_through(before, after, q.to_set(), q.to_set()),
    ensures
        partway(before, after, q, 0) == before,
        partway(before, after, q, q.len() as int) == after,
        forall|t: int|
            0 <= t < q.len() ==> update_entity_step(
                #[trigger] partway(before, after, q, t),
                partway(before, after, q, t + 1),
                q[t],
            ),
{
    let ids = q.to_set();
    assert(partway(before, after, q, 0) =~= before);
    assert(q.take(q.len() as int) =~= q);
    assert forall|j: i32| #[trigger] before.contains_key(j) implies partway(before, after, q, q.len() as int)[j]
        == after[j] by {
        if !q.contains(j) {
            assert(!ids.contains(j));
        }
    }
    assert(partway(before, after, q, q.len() as int) =~= after);
    assert forall|t: int| 0 <= t < q.len() implies update_entity_step(
        #[trigger] partway(before, after, q, t),
        partway(before, after, q, t + 1),
        q[t],
    ) by {
        let id = q[t];
        let cur = partway(before, after, q, t);
        let next = partway(before, after, q, t + 1);
        assert(q.take(t + 1) =~= q.take(t).push(id));
        assert(!q.take(t).contains(id)) by {
            if q.take(t).contains(id) {
                let m = choose|m: int| 0 <= m < t && q.take(t)[m] == id;
                assert(q[m] < q[t]);
            }
        }
        if before.contains_key(id) {
            assert(next =~= cur.insert(id, next[id]));
            assert(ids.contains(id)) by {
                assert(q[t] == id);
            }
            assert(parent_in_update(before, after, ids, id) =~= cur) by {
                assert forall|j: i32| before.contains_key(j) implies #[trigger] parent_in_update(
                    before,
                    after,
                    ids,
                    id,
                )[j] == cur[j] by {
                    if ids.contains(j) && j < id {
                        let m = choose|m: int| 0 <= m < q.len() && q[m] == j;
                        if m >= t {
                            if m > t {
                                assert(q[t] < q[m]);
                            }
                        }
                        assert(q.take(t)[m] == j);
                    }
                    if q.take(t).contains(j) {
                        let m = choose|m: int| 0 <= m < t && q.take(t)[m] == j;
                        assert(q[m] < q[t]);
                        assert(q[m] == j);
                    }
                }
            }
        } else {
            assert(next =~= cur);
        }
    }
}

/// Whether `q` is in strictly ascending order.
pub open spec fn ascending(q: Seq<i32>) -> bool {
    forall|a: int, b: int| 0 <= a < b < q.len() ==> #[trigger] q[a] < #[trigger] q[b]
}

/// The component updates that a system makes for the type id `id` among
/// its first `n` entities `objects`: one per entity that holds a component
/// of that type id, in the order of the entities.
pub open spec fn calls_for<C>(objects: Seq<Entity<C>>, id: i32, n: int) -> Seq<(i32, int)>
    decreases n,
{
    if n <= 0 {
        Seq::empty()
    } else if objects[n - 1]@.contains_key(id) {
        calls_for(objects, id, n - 1).push((id, n - 1))
    } else {
        calls_for(objects, id, n - 1)
    }
}

/// The component updates, as pairs of type id and entity position, that a
/// system of the entities `objects` makes when it walks the type ids `q`:
/// for each type id in turn, its updates over the entities in order.
pub open spec fn update_schedule<C>(objects: Seq<Entity<C>>, q: Seq<i32>) -> Seq<(i32, int)>
    decreases q.len(),
{
    if q.len() == 0 {
        Seq::empty()
    } else {
        update_schedule(objects, q.drop_last()) + calls_for(objects, q.last(), objects.len() as int)
    }
}

/// References to type ids are ordered as the type ids are, which is the
/// order in which the set of type ids is walked.
proof fn lemma_type_id_refs_ordered()
    ensures
        vstd::laws_cmp::obeys_cmp::<&i32>(),
{
    broadcast use vstd::laws_eq::group_laws_eq;

    reveal(vstd::laws_eq::obeys_eq_spec_properties);
    reveal(vstd::laws_cmp::obeys_partial_cmp_spec_properties);
    reveal(vstd::laws_cmp::obeys_cmp_partial_ord);
    reveal(vstd::laws_cmp::obeys_cmp_ord);
}

/// A walk of the set of type ids meets them in ascending order.
proof fn lemma_walk_ascending(s: Seq<&i32>)
    requires
        vstd::std_specs::btree::increasing_seq(s),
    ensures
        forall|a: int, b: int| 0 <= a < b < s.len() ==> *#[trigger] s[a] < *#[trigger] s[b],
{
    lemma_type_id_refs_ordered();
    assert forall|a: int, b: int| 0 <= a < b < s.len() implies *#[trigger] s[a] < *#[trigger] s[b] by {
        assert(vstd::std_specs::cmp::OrdSpec::cmp_spec(&s[a], &s[b]) is Less);
    }
}

/// The entities of a game, and the type ids of the components that they
/// were added with.  An update visits the type ids in ascending order and,
/// for each, every entity in the order in which it was added.
pub struct System<C> {
    objects: Vec<Entity<C>>,
    component_type_ids: BTreeSet<i32>,
}

impl<C> System<C> {
    /// The entities, in the order in which they were added.
    pub closed spec fn objects(&self) -> Seq<Entity<C>> {
        self.objects@
    }

    /// The type ids that the system updates.
    pub closed spec fn type_ids(&self) -> Set<i32> {
        self.component_type_ids@
    }

    /// A system without entities.
    pub fn new() -> (s: System<C>)
        ensures
            s.objects() == Seq::<Entity<C>>::empty(),
            s.type_ids() == Set::<i32>::empty(),
    {
        System { objects: Vec::new(), component_type_ids: BTreeSet::new() }
    }

    /// Adds `entity` after the others, and the type ids of its components to
    /// the type ids that the system updates.
    pub fn add_entity(&mut self, entity: Entity<C>)
        ensures
            final(self).objects() == old(self).objects().push(entity),
            final(self).type_ids() == old(self).type_ids().union(entity@.dom()),
    {
        let ghost old_ids = self.component_type_ids@;
        for id in it: entity.comps.keys()
            invariant
                self.objects@ == old(self).objects@,
                it.seq().unref().to_set() == entity@.dom(),
                self.component_type_ids@ == old_ids.union(it.seq().take(it.index()).unref().to_set()),
                it.index() == it.seq().len() ==> self.component_type_ids@ == old_ids.union(entity@.dom()),
        {
            let ghost pre = it.seq().take(it.index());
            self.component_type_ids.insert(*id);
            proof {
                assert(it.seq().take(it.index() + 1).unref() =~= pre.unref().push(*id));
                pre.unref().lemma_push_to_set_commute(*id);
                assert(old_ids.union(pre.unref().push(*id).to_set()) =~= old_ids.union(
                    pre.unref().to_set(),
                ).insert(*id));
                assert(it.index() + 1 == it.seq().len() ==> it.seq().take(it.index() + 1)
                    =~= it.seq());
            }
        }
        self.objects.push(entity);
    }

    /// The entities, in the order in which they were added.
    pub fn entities(&self) -> (v: &Vec<Entity<C>>)
        ensures
            v@ == self.objects(),
    {
        &self.objects
    }

    /// Mutable access to the entities; the type ids stay as they are.
    pub fn entities_mut(&mut self) -> (v: &mut Vec<Entity<C>>)
        ensures
            v@ == old(self).objects(),
            final(self).objects() == final(v)@,
            final(self).type_ids() == old(self).type_ids(),
    {
        &mut self.objects
    }
}

impl<C: Component> System<C> {
    /// Updates, for each type id in ascending order, the component of that
    /// type of every entity, in the order in which the entities were added.
    /// Each component of a type id that the system updates is updated once,
    /// and sees its entity with the components of the lower type ids already
    /// updated and the others, itself included, not yet.  The result, a ghost
    /// value, lists the component updates made, in order, as pairs of type id
    /// and entity position.
    pub fn update(&mut self) -> (calls: Ghost<Seq<(i32, int)>>)
        ensures
            final(self).objects().len() == old(self).objects().len(),
            final(self).type_ids() == old(self).type_ids(),
            forall|i: int|
                0 <= i < old(self).objects().len() ==> (#[trigger] final(self).objects()[i])@.dom()
                    == old(self).objects()[i]@.dom(),
            forall|i: int, k: i32|
                0 <= i < old(self).objects().len() && !old(self).type_ids().contains(k)
                    && old(self).objects()[i]@.contains_key(k)
                    ==> #[trigger] final(self).objects()[i]@[k] == old(self).objects()[i]@[k],
            forall|i: int|
                0 <= i < old(self).objects().len() ==> updated_through(
                    old(self).objects()[i]@,
                    #[trigger] final(self).objects()[i]@,
                    old(self).type_ids(),
                    old(self).type_ids(),
                ),
            exists|q: Seq<i32>|
                {
                    &&& ascending(q)
                    &&& q.to_set() == old(self).type_ids()
                    &&& calls@ == #[trigger] update_schedule(old(self).objects(), q)
                },
    {
        let ghost ids = self.component_type_ids@;
        let ghost olds = self.objects@;
        proof {
            lemma_type_id_refs_ordered();
        }
        let ghost mut done: Set<i32> = Set::empty();
        let ghost mut walked: Seq<i32> = Seq::empty();
        let ghost mut calls: Seq<(i32, int)> = Seq::empty();
        for id in it: self.component_type_ids.iter()
            invariant
                ids == old(self).component_type_ids@,
                olds == old(self).objects@,
                self.objects@.len() == olds.len(),
                self.component_type_ids@ == ids,
                it.seq().unref().to_set() == ids,
                vstd::std_specs::btree::increasing_seq(it.seq()),
                done == it.seq().take(it.index()).unref().to_set(),
                walked == it.seq().take(it.index()).unref(),
                done == walked.to_set(),
                ascending(walked),
                calls == update_schedule(olds, walked),
                it.index() == it.seq().len() ==> done == ids,
                forall|e: int|
                    0 <= e < olds.len() ==> updated_through(
                        olds[e]@,
                        #[trigger] self.objects@[e]@,
                        ids,
                        done,
                    ),
        {
            proof {
                lemma_walk_ascending(it.seq());
            }
            let ghost seen = it.seq().take(it.index()).unref();
            let ghost all = it.seq().unref();
            proof {
                assert(all[it.index()] == *id);
                assert(ids.contains(*id));
                assert forall|j: i32| #[trigger] done.contains(j) implies ids.contains(j) && j < *id by {
                    let m = choose|m: int| 0 <= m < seen.len() && seen[m] == j;
                    assert(all[m] == j);
                }
                assert forall|j: i32| #[trigger] ids.contains(j) && j < *id implies done.contains(j) by {
                    let m = choose|m: int| 0 <= m < all.len() && all[m] == j;
                    if m >= it.index() {
                        if m > it.index() {
                            assert(*it.seq()[it.index()] < *it.seq()[m]);
                        }
                    }
                    assert(seen[m] == j);
                }
            }
            let n = self.objects.len();
            for i in 0..n
                invariant
                    n == self.objects@.len(),
                    n == olds.len(),
                    self.component_type_ids@ == ids,
                    ids.contains(*id),
                    !done.contains(*id),
                    forall|j: i32| #[trigger] done.contains(j) ==> ids.contains(j) && j < *id,
                    forall|j: i32| #[trigger] ids.contains(j) && j < *id ==> done.contains(j),
                    calls == update_schedule(olds, walked) + calls_for(olds, *id, i as int),
                    forall|e: int|
                        0 <= e < n ==> updated_through(
                            olds[e]@,
                            #[trigger] self.objects@[e]@,
                            ids,
                            if e < i {
                                done.insert(*id)
                            } else {
                                done
                            },
                        ),
            {
                let ghost cur = self.objects@[i as int]@;
                self.objects[i].update_entity(*id);
                proof {
                    lemma_update_step(olds[i as int]@, cur, self.objects@[i as int]@, ids, done, *id);
                    if olds[i as int]@.contains_key(*id) {
                        calls = calls.push((*id, i as int));
                    }
                    assert(calls =~= update_schedule(olds, walked) + calls_for(olds, *id, i + 1));
                }
            }
            proof {
                assert(walked.push(*id).drop_last() =~= walked);
                assert(calls == update_schedule(olds, walked.push(*id)));
                assert forall|a: int, b: int| 0 <= a < b < walked.len() + 1 implies #[trigger] walked.push(*id)[a]
                    < #[trigger] walked.push(*id)[b] by {
                    assert(walked.push(*id)[a] == all[a]);
                    assert(walked.push(*id)[b] == all[b]);
                }
                walked = walked.push(*id);
                done = done.insert(*id);
                assert(it.seq().take(it.index() + 1).unref() =~= seen.push(*id));
                seen.lemma_push_to_set_commute(*id);
                assert(it.index() + 1 == it.seq().len() ==> it.seq().take(it.index() + 1)
                    =~= it.seq());
            }
        }
        assert(ascending(walked) && walked.to_set() == old(self).type_ids() && calls == update_schedule(
            old(self).objects(),
            walked,
        ));
        Ghost(calls)
    }
}

} // verus!
