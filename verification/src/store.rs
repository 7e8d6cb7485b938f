//! A snapshot of the entities, looked up by id.
use crate::entity::{Entity, EntityId, EntityModel};
use vstd::prelude::*;

verus! {

/// The entities by id. Where an id occurs twice the later entity counts.
pub open spec fn entity_map(entities: Seq<Entity>) -> Map<Seq<char>, EntityModel>
    decreases entities.len(),
{
    if entities.len() == 0 {
        Map::empty()
    } else {
        entity_map(entities.drop_last()).insert(entities.last()@.id, entities.last()@)
    }
}

/// Entity `i` stands for `id`: it is the last one of that id.
pub open spec fn stands_for(entities: Seq<Entity>, id: Seq<char>, i: int) -> bool {
    &&& 0 <= i < entities.len()
    &&& entities[i].id.text@ == id
    &&& forall|j: int| i < j < entities.len() ==> (#[trigger] entities[j]).id.text@ != id
}

/// Of the entities with one id the last one counts.
pub proof fn last_entity_of_an_id_counts(entities: Seq<Entity>, id: Seq<char>, i: int)
    requires
        stands_for(entities, id, i),
    ensures
        entity_map(entities).contains_key(id),
        entity_map(entities)[id] == entities[i]@,
        entity_map(entities)[id].state == entities[i].state@,
    decreases entities.len(),
{
    if i < entities.len() - 1 {
        let rest = entities.drop_last();
        assert forall|j: int| i < j < rest.len() implies (#[trigger] rest[j]).id.text@ != id by {
            assert(rest[j] == entities[j]);
        }
        last_entity_of_an_id_counts(rest, id, i);
        assert(entities[entities.len() - 1].id.text@ != id);
    }
}

/// An id that no entity has is not known.
pub proof fn missing_id_is_not_known(entities: Seq<Entity>, id: Seq<char>)
    requires
        forall|i: int| 0 <= i < entities.len() ==> (#[trigger] entities[i]).id.text@ != id,
    ensures
        !entity_map(entities).contains_key(id),
    decreases entities.len(),
{
    if entities.len() > 0 {
        let rest = entities.drop_last();
        assert forall|i: int| 0 <= i < rest.len() implies (#[trigger] rest[i]).id.text@ != id by {
            assert(rest[i] == entities[i]);
        }
        missing_id_is_not_known(rest, id);
        assert(entities[entities.len() - 1].id.text@ != id);
    }
}

/// The entities known at one moment.
#[derive(Debug)]
pub struct MemoryStore {
    pub entities: Vec<Entity>,
}

impl View for MemoryStore {
    type V = Map<Seq<char>, EntityModel>;

    open spec fn view(&self) -> Map<Seq<char>, EntityModel> {
        entity_map(self.entities@)
    }
}

impl MemoryStore {
    /// A store of these entities.
    pub fn load(entities: Vec<Entity>) -> (r: MemoryStore)
        ensures
            r@ == entity_map(entities@),
            r.entities@ == entities@,
    {
        MemoryStore { entities }
    }

    /// The entity with this id.
    pub fn get(&self, id: &EntityId) -> (r: Option<&Entity>)
        ensures
            r is Some <==> self@.contains_key(id@),
            r matches Some(e) ==> e@ == self@[id@] && e@.id == id@,
            r is None <==> forall|i: int|
                0 <= i < self.entities@.len() ==> (#[trigger] self.entities@[i]).id.text@
                    != id.text@,
            r matches Some(e) ==> exists|i: int|
                stands_for(self.entities@, id.text@, i) && *e == #[trigger] self.entities@[i],
    {
        let mut i: usize = self.entities.len();
        assert(self.entities@.take(i as int) =~= self.entities@);
        while i > 0
            invariant
                i <= self.entities@.len(),
                self@.contains_key(id@) <==> entity_map(
                    self.entities@.take(i as int),
                ).contains_key(id@),
                self@.contains_key(id@) ==> self@[id@] == entity_map(
                    self.entities@.take(i as int),
                )[id@],
                forall|j: int|
                    i <= j < self.entities@.len() ==> (#[trigger] self.entities@[j]).id.text@
                        != id.text@,
            decreases i,
        {
            proof {
                let part = self.entities@.take(i as int);
                assert(part.drop_last() =~= self.entities@.take(i - 1));
                assert(part.last() == self.entities@[i - 1]);
            }
            i = i - 1;
            if self.entities[i].id.same(id) {
                assert(stands_for(self.entities@, id.text@, i as int));
                return Some(&self.entities[i]);
            }
        }
        None
    }
}

} // verus!
