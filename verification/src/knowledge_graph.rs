//! Entity-relationship store: entities with property lists, directed typed
//! relationships, and the queries over them.
//!
//! Entities are keyed by their identifier — adding an entity with an
//! existing identifier replaces it in place — and queries filter in
//! insertion order.

use crate::text::str_eq;
use vstd::prelude::*;

verus! {

/// The mathematical value of an entity.
pub ghost struct EntityView {
    pub id: Seq<char>,
    pub props: Seq<(Seq<char>, Seq<char>)>,
}

/// The mathematical value of a relationship.
pub ghost struct RelView {
    pub from: Seq<char>,
    pub to: Seq<char>,
    pub type_: Seq<char>,
}

/// A node of the graph: an identifier and its properties, first binding of
/// a key wins.
#[derive(Debug)]
pub struct Entity {
    pub id: String,
    pub properties: Vec<(String, String)>,
}

impl View for Entity {
    type V = EntityView;

    open spec fn view(&self) -> EntityView {
        EntityView {
            id: self.id@,
            props: self.properties@.map_values(|p: (String, String)| (p.0@, p.1@)),
        }
    }
}

impl Clone for Entity {
    /// A clone carries the same identifier and the same properties.
    fn clone(&self) -> (r: Self)
        ensures
            r@ == self@,
    {
        let mut properties: Vec<(String, String)> = Vec::new();
        let mut i: usize = 0;
        while i < self.properties.len()
            invariant
                i <= self.properties@.len(),
                properties@.len() == i,
                forall|k: int|
                    0 <= k < i ==> (#[trigger] properties@[k]).0@ == self.properties@[k].0@
                        && properties@[k].1@ == self.properties@[k].1@,
            decreases self.properties@.len() - i,
        {
            properties.push((self.properties[i].0.clone(), self.properties[i].1.clone()));
            i = i + 1;
        }
        let r = Entity { id: self.id.clone(), properties };
        proof {
            assert(r@.props =~= self@.props);
        }
        r
    }
}

/// A directed, typed edge between two entity identifiers.
#[derive(Debug)]
pub struct Relationship {
    pub from: String,
    pub to: String,
    pub type_: String,
}

impl View for Relationship {
    type V = RelView;

    open spec fn view(&self) -> RelView {
        RelView { from: self.from@, to: self.to@, type_: self.type_@ }
    }
}

impl Clone for Relationship {
    /// A clone is the same relationship.
    fn clone(&self) -> (r: Self)
        ensures
            r == *self,
    {
        Relationship { from: self.from.clone(), to: self.to.clone(), type_: self.type_.clone() }
    }
}

/// The views of a sequence of entities.
pub open spec fn ents_view(ents: Seq<Entity>) -> Seq<EntityView> {
    ents.map_values(|e: Entity| e@)
}

/// The views of a sequence of relationships.
pub open spec fn rels_view(rels: Seq<Relationship>) -> Seq<RelView> {
    rels.map_values(|r: Relationship| r@)
}

/// First index bound to `key` among the properties, or `-1`.
pub open spec fn prop_first(props: Seq<(Seq<char>, Seq<char>)>, key: Seq<char>) -> int
    decreases props.len(),
{
    if props.len() == 0 {
        -1
    } else if props[0].0 == key {
        0
    } else {
        let r = prop_first(props.drop_first(), key);
        if r < 0 {
            -1
        } else {
            r + 1
        }
    }
}

/// `prop_first` finds exactly the first binding of `key`.
pub proof fn lemma_prop_first(props: Seq<(Seq<char>, Seq<char>)>, key: Seq<char>)
    ensures
        prop_first(props, key) >= 0 ==> prop_first(props, key) < props.len() && props[prop_first(
            props,
            key,
        )].0 == key && (forall|k: int|
            0 <= k < prop_first(props, key) ==> (#[trigger] props[k]).0 != key),
        prop_first(props, key) < 0 ==> (forall|k: int|
            0 <= k < props.len() ==> (#[trigger] props[k]).0 != key),
    decreases props.len(),
{
    if props.len() == 0 {
    } else if props[0].0 == key {
    } else {
        let tail = props.drop_first();
        lemma_prop_first(tail, key);
        if prop_first(props, key) >= 0 {
            assert forall|k: int| 0 <= k < prop_first(props, key) implies (#[trigger] props[k]).0
                != key by {
                if k >= 1 {
                    assert(tail[k - 1] == props[k]);
                    assert(tail[k - 1].0 != key);
                }
            }
        } else {
            assert forall|k: int| 0 <= k < props.len() implies (#[trigger] props[k]).0 != key by {
                if k >= 1 {
                    assert(tail[k - 1] == props[k]);
                    assert(tail[k - 1].0 != key);
                }
            }
        }
    }
}

/// Whether the entity's first binding of `key` is `value`.
pub open spec fn has_prop(v: EntityView, key: Seq<char>, value: Seq<char>) -> bool {
    prop_first(v.props, key) >= 0 && v.props[prop_first(v.props, key)].1 == value
}

/// First index of the entity with identifier `id`, or `-1`.
pub open spec fn ent_first(vs: Seq<EntityView>, id: Seq<char>) -> int
    decreases vs.len(),
{
    if vs.len() == 0 {
        -1
    } else if vs[0].id == id {
        0
    } else {
        let r = ent_first(vs.drop_first(), id);
        if r < 0 {
            -1
        } else {
            r + 1
        }
    }
}

/// `ent_first` finds exactly the first entity carrying `id`.
pub proof fn lemma_ent_first(vs: Seq<EntityView>, id: Seq<char>)
    ensures
        ent_first(vs, id) >= 0 ==> ent_first(vs, id) < vs.len() && vs[ent_first(vs, id)].id == id
            && (forall|k: int| 0 <= k < ent_first(vs, id) ==> (#[trigger] vs[k]).id != id),
        ent_first(vs, id) < 0 ==> (forall|k: int|
            0 <= k < vs.len() ==> (#[trigger] vs[k]).id != id),
    decreases vs.len(),
{
    if vs.len() == 0 {
    } else if vs[0].id == id {
    } else {
        let tail = vs.drop_first();
        lemma_ent_first(tail, id);
        if ent_first(vs, id) >= 0 {
            assert forall|k: int| 0 <= k < ent_first(vs, id) implies (#[trigger] vs[k]).id
                != id by {
                if k >= 1 {
                    assert(tail[k - 1] == vs[k]);
                    assert(tail[k - 1].id != id);
                }
            }
        } else {
            assert forall|k: int| 0 <= k < vs.len() implies (#[trigger] vs[k]).id != id by {
                if k >= 1 {
                    assert(tail[k - 1] == vs[k]);
                    assert(tail[k - 1].id != id);
                }
            }
        }
    }
}

/// The entities whose first binding of `key` is `value`, in order.
pub open spec fn matching_entities(
    vs: Seq<EntityView>,
    key: Seq<char>,
    value: Seq<char>,
) -> Seq<EntityView>
    decreases vs.len(),
{
    if vs.len() == 0 {
        Seq::empty()
    } else {
        let rest = matching_entities(vs.drop_last(), key, value);
        if has_prop(vs.last(), key, value) {
            rest.push(vs.last())
        } else {
            rest
        }
    }
}

/// The relationships of the given type, in order.
pub open spec fn rels_of_type(rs: Seq<RelView>, type_: Seq<char>) -> Seq<RelView>
    decreases rs.len(),
{
    if rs.len() == 0 {
        Seq::empty()
    } else {
        let rest = rels_of_type(rs.drop_last(), type_);
        if rs.last().type_ == type_ {
            rest.push(rs.last())
        } else {
            rest
        }
    }
}

/// The entities reached from `id` over relationships of the given type, in
/// relationship order, skipping targets the graph does not hold.
pub open spec fn connected_entities(
    rs: Seq<RelView>,
    vs: Seq<EntityView>,
    id: Seq<char>,
    type_: Seq<char>,
) -> Seq<EntityView>
    decreases rs.len(),
{
    if rs.len() == 0 {
        Seq::empty()
    } else {
        let rest = connected_entities(rs.drop_last(), vs, id, type_);
        let r = rs.last();
        if r.from == id && r.type_ == type_ && ent_first(vs, r.to) >= 0 {
            rest.push(vs[ent_first(vs, r.to)])
        } else {
            rest
        }
    }
}

/// The store: entities with unique identifiers, and relationships.
pub struct KnowledgeGraph {
    pub entities: Vec<Entity>,
    pub relationships: Vec<Relationship>,
}

impl KnowledgeGraph {
    /// Entity identifiers are pairwise distinct.
    pub open spec fn wf(self) -> bool {
        forall|i: int, j: int|
            0 <= i < j < self.entities@.len() ==> (#[trigger] self.entities@[i])@.id != (
            #[trigger] self.entities@[j])@.id
    }

    /// An empty graph.
    pub fn new() -> (g: KnowledgeGraph)
        ensures
            g.entities@ =~= Seq::<Entity>::empty(),
            g.relationships@ =~= Seq::<Relationship>::empty(),
            g.wf(),
    {
        KnowledgeGraph { entities: Vec::new(), relationships: Vec::new() }
    }

    /// Position of the entity carrying `id`, front to back.
    fn find_entity(&self, id: &str) -> (r: Option<usize>)
        ensures
            match r {
                Some(i) => i < self.entities@.len() && ent_first(ents_view(self.entities@), id@)
                    == i,
                None => ent_first(ents_view(self.entities@), id@) < 0,
            },
    {
        let ghost vs = ents_view(self.entities@);
        let mut i: usize = 0;
        while i < self.entities.len()
            invariant
                vs == ents_view(self.entities@),
                i <= vs.len(),
                vs.len() == self.entities@.len(),
                forall|k: int| 0 <= k < i ==> (#[trigger] vs[k]).id != id@,
            decreases vs.len() - i,
        {
            if str_eq(self.entities[i].id.as_str(), id) {
                proof {
                    assert(vs[i as int] == self.entities@[i as int]@);
                    lemma_ent_first(vs, id@);
                    if ent_first(vs, id@) < 0 {
                        assert(vs[i as int].id != id@);
                        assert(false);
                    }
                    if ent_first(vs, id@) < i as int {
                        assert(vs[ent_first(vs, id@)].id == id@);
                        assert(false);
                    }
                    if ent_first(vs, id@) > i as int {
                        assert(vs[i as int].id != id@);
                        assert(false);
                    }
                }
                return Some(i);
            }
            i = i + 1;
        }
        proof {
            lemma_ent_first(vs, id@);
        }
        None
    }

    /// Adds an entity: replaces the entity already carrying its identifier,
    /// or appends it.
    pub fn add_entity(&mut self, entity: Entity)
        requires
            old(self).wf(),
        ensures
            final(self).wf(),
            final(self).relationships@ == old(self).relationships@,
            ent_first(ents_view(old(self).entities@), entity@.id) >= 0 ==> ents_view(
                final(self).entities@,
            ) == ents_view(old(self).entities@).update(
                ent_first(ents_view(old(self).entities@), entity@.id),
                entity@,
            ),
            ent_first(ents_view(old(self).entities@), entity@.id) < 0 ==> ents_view(
                final(self).entities@,
            ) == ents_view(old(self).entities@).push(entity@),
    {
        let ghost vs = ents_view(self.entities@);
        let ghost ev = entity@;
        match self.find_entity(entity.id.as_str()) {
            Some(i) => {
                proof {
                    lemma_ent_first(vs, ev.id);
                }
                self.entities.remove(i);
                self.entities.insert(i, entity);
                proof {
                    assert(ents_view(self.entities@) =~= vs.update(i as int, ev));
                    assert(vs[i as int].id == ev.id);
                    assert forall|a: int, b: int|
                        0 <= a < b < self.entities@.len() implies (
                    #[trigger] self.entities@[a])@.id != (#[trigger] self.entities@[b])@.id by {
                        assert(self.entities@[a]@ == ents_view(self.entities@)[a]);
                        assert(self.entities@[b]@ == ents_view(self.entities@)[b]);
                        assert(old(self).entities@[a]@ == vs[a]);
                        assert(old(self).entities@[b]@ == vs[b]);
                    }
                }
            },
            None => {
                proof {
                    lemma_ent_first(vs, ev.id);
                }
                self.entities.push(entity);
                proof {
                    assert(ents_view(self.entities@) =~= vs.push(ev));
                    assert forall|a: int, b: int|
                        0 <= a < b < self.entities@.len() implies (
                    #[trigger] self.entities@[a])@.id != (#[trigger] self.entities@[b])@.id by {
                        assert(self.entities@[a]@ == ents_view(self.entities@)[a]);
                        assert(self.entities@[b]@ == ents_view(self.entities@)[b]);
                        if b < vs.len() {
                            assert(old(self).entities@[a]@ == vs[a]);
                            assert(old(self).entities@[b]@ == vs[b]);
                        } else {
                            assert(ents_view(self.entities@)[b] == ev);
                            assert(old(self).entities@[a]@ == vs[a]);
                            assert(vs[a].id != ev.id);
                        }
                    }
                }
            },
        }
    }

    /// Appends a relationship.
    pub fn add_relationship(&mut self, relationship: Relationship)
        requires
            old(self).wf(),
        ensures
            final(self).wf(),
            final(self).entities@ == old(self).entities@,
            rels_view(final(self).relationships@) == rels_view(old(self).relationships@).push(
                relationship@,
            ),
    {
        let ghost rs = rels_view(self.relationships@);
        self.relationships.push(relationship);
        proof {
            assert(rels_view(self.relationships@) =~= rs.push(
                self.relationships@.last()@,
            ));
        }
    }

    /// Whether the entity's first binding of `key` is `value`.
    fn entity_has(e: &Entity, key: &str, value: &str) -> (r: bool)
        ensures
            r == has_prop(e@, key@, value@),
    {
        let ghost props = e@.props;
        let mut i: usize = 0;
        while i < e.properties.len()
            invariant
                props == e@.props,
                i <= props.len(),
                props.len() == e.properties@.len(),
                forall|k: int| 0 <= k < i ==> (#[trigger] props[k]).0 != key@,
            decreases props.len() - i,
        {
            if str_eq(e.properties[i].0.as_str(), key) {
                proof {
                    assert(props[i as int] == (e.properties@[i as int].0@, e.properties@[
                        i as int
                    ].1@));
                    lemma_prop_first(props, key@);
                    if prop_first(props, key@) < 0 {
                        assert(props[i as int].0 != key@);
                        assert(false);
                    }
                    if prop_first(props, key@) < i as int {
                        assert(props[prop_first(props, key@)].0 == key@);
                        assert(false);
                    }
                    if prop_first(props, key@) > i as int {
                        assert(props[i as int].0 != key@);
                        assert(false);
                    }
                }
                return str_eq(e.properties[i].1.as_str(), value);
            }
            i = i + 1;
        }
        proof {
            lemma_prop_first(props, key@);
        }
        false
    }

    /// The entities whose property `key` holds `value`, in insertion order.
    pub fn query_entities_by_property(&self, key: &str, value: &str) -> (r: Vec<Entity>)
        ensures
            ents_view(r@) == matching_entities(ents_view(self.entities@), key@, value@),
    {
        let ghost vs = ents_view(self.entities@);
        let mut r: Vec<Entity> = Vec::new();
        let mut i: usize = 0;
        while i < self.entities.len()
            invariant
                vs == ents_view(self.entities@),
                i <= vs.len(),
                vs.len() == self.entities@.len(),
                ents_view(r@) == matching_entities(vs.take(i as int), key@, value@),
            decreases vs.len() - i,
        {
            let ghost pre = ents_view(r@);
            if Self::entity_has(&self.entities[i], key, value) {
                r.push(self.entities[i].clone());
                proof {
                    assert(ents_view(r@) =~= pre.push(vs[i as int]));
                }
            }
            proof {
                assert(vs.take(i as int + 1).drop_last() =~= vs.take(i as int));
                assert(vs.take(i as int + 1).last() == vs[i as int]);
            }
            i = i + 1;
        }
        proof {
            assert(vs.take(vs.len() as int) =~= vs);
        }
        r
    }

    /// The relationships of the given type, in insertion order.
    pub fn get_relationships_by_type(&self, type_: &str) -> (r: Vec<Relationship>)
        ensures
            rels_view(r@) == rels_of_type(rels_view(self.relationships@), type_@),
    {
        let ghost rs = rels_view(self.relationships@);
        let mut r: Vec<Relationship> = Vec::new();
        let mut i: usize = 0;
        while i < self.relationships.len()
            invariant
                rs == rels_view(self.relationships@),
                i <= rs.len(),
                rs.len() == self.relationships@.len(),
                rels_view(r@) == rels_of_type(rs.take(i as int), type_@),
            decreases rs.len() - i,
        {
            let ghost pre = rels_view(r@);
            if str_eq(self.relationships[i].type_.as_str(), type_) {
                r.push(self.relationships[i].clone());
                proof {
                    assert(rels_view(r@) =~= pre.push(rs[i as int]));
                }
            }
            proof {
                assert(rs.take(i as int + 1).drop_last() =~= rs.take(i as int));
                assert(rs.take(i as int + 1).last() == rs[i as int]);
            }
            i = i + 1;
        }
        proof {
            assert(rs.take(rs.len() as int) =~= rs);
        }
        r
    }

    /// The entities connected to `entity_id` by relationships of the given
    /// type, in relationship order; targets the graph does not hold are
    /// skipped.
    pub fn get_connected_entities(&self, entity_id: &str, relationship_type: &str) -> (r: Vec<
        Entity,
    >)
        ensures
            ents_view(r@) == connected_entities(
                rels_view(self.relationships@),
                ents_view(self.entities@),
                entity_id@,
                relationship_type@,
            ),
    {
        let ghost rs = rels_view(self.relationships@);
        let ghost vs = ents_view(self.entities@);
        let mut r: Vec<Entity> = Vec::new();
        let mut i: usize = 0;
        while i < self.relationships.len()
            invariant
                rs == rels_view(self.relationships@),
                vs == ents_view(self.entities@),
                i <= rs.len(),
                rs.len() == self.relationships@.len(),
                ents_view(r@) == connected_entities(
                    rs.take(i as int),
                    vs,
                    entity_id@,
                    relationship_type@,
                ),
            decreases rs.len() - i,
        {
            let ghost pre = ents_view(r@);
            if str_eq(self.relationships[i].from.as_str(), entity_id) && str_eq(
                self.relationships[i].type_.as_str(),
                relationship_type,
            ) {
                match self.find_entity(self.relationships[i].to.as_str()) {
                    Some(j) => {
                        r.push(self.entities[j].clone());
                        proof {
                            assert(ents_view(r@) =~= pre.push(vs[j as int]));
                        }
                    },
                    None => {},
                }
            }
            proof {
                assert(rs.take(i as int + 1).drop_last() =~= rs.take(i as int));
                assert(rs.take(i as int + 1).last() == rs[i as int]);
            }
            i = i + 1;
        }
        proof {
            assert(rs.take(rs.len() as int) =~= rs);
        }
        r
    }
}

} // verus!
