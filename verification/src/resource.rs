use vstd::prelude::*;

use std::collections::HashMap;

verus! {

broadcast use vstd::std_specs::hash::group_hash_axioms;

/// The footprint of an entity; path finding keeps one grid per footprint.
#[derive(Copy, Clone, Debug, PartialEq, Eq, Structural)]
pub struct EntitySize {
    pub size: i32,
}

/// The resources that actors and areas refer to by key: entity sizes, items and sprites.
pub struct ResourceSet {
    /// Entity sizes by their key.
    pub sizes: HashMap<usize, EntitySize>,
    /// The ids of the known items.
    pub items: Vec<String>,
    /// The ids of the known sprites.
    pub sprites: Vec<String>,
}

/// Why a resource could not be built from its description.
#[derive(Debug)]
pub enum ResourceError {
    /// The actor `owner` names a size that no resource has.
    UnknownSize { owner: String, size: usize },
    /// The actor `owner` names an item that no resource has.
    UnknownItem { owner: String, item: String },
    /// No sprite has the id `id`.
    UnknownSprite { id: String },
    /// An area's terrain does not match its extent.
    InvalidTerrain,
}

/// The size stored under `key`, if any.
pub open spec fn find_size(sizes: Map<usize, EntitySize>, key: usize) -> Option<EntitySize> {
    if sizes.contains_key(key) {
        Some(sizes[key])
    } else {
        None
    }
}

/// Whether `id` is one of `ids`.
pub open spec fn contains_id(ids: Seq<String>, id: Seq<char>) -> bool {
    exists|i: int| 0 <= i < ids.len() && (#[trigger] ids[i])@ == id
}

/// The position of the first of `ids` that is not one of `known`, if any.
pub open spec fn first_unknown(ids: Seq<String>, known: Seq<String>) -> Option<int>
    decreases ids.len(),
{
    if ids.len() == 0 {
        None
    } else if !contains_id(known, ids[0]@) {
        Some(0)
    } else {
        match first_unknown(ids.drop_first(), known) {
            Some(i) => Some(i + 1),
            None => None,
        }
    }
}

pub proof fn lemma_first_unknown_bounds(ids: Seq<String>, known: Seq<String>)
    ensures
        first_unknown(ids, known) matches Some(i) ==> 0 <= i < ids.len() && !contains_id(
            known,
            ids[i]@,
        ) && (forall|j: int| 0 <= j < i ==> contains_id(known, (#[trigger] ids[j])@)),
        first_unknown(ids, known) is None ==> forall|j: int|
            0 <= j < ids.len() ==> contains_id(known, (#[trigger] ids[j])@),
    decreases ids.len(),
{
    if ids.len() > 0 {
        lemma_first_unknown_bounds(ids.drop_first(), known);
        assert forall|j: int| 1 <= j < ids.len() implies ids[j] == ids.drop_first()[j - 1] by {}
    }
}

/// Whether `id` is one of `ids`.
pub fn has_id(ids: &Vec<String>, id: &String) -> (r: bool)
    ensures
        r == contains_id(ids@, id@),
{
    let mut i: usize = 0;
    while i < ids.len()
        invariant
            i <= ids.len(),
            forall|j: int| 0 <= j < i ==> (#[trigger] ids@[j])@ != id@,
        decreases ids.len() - i,
    {
        if ids[i] == *id {
            return true;
        }
        i = i + 1;
    }
    false
}

impl ResourceSet {
    /// The size stored under `key`, if any.
    pub fn get_size(&self, key: usize) -> (r: Option<EntitySize>)
        ensures
            r == find_size(self.sizes@, key),
    {
        match self.sizes.get(&key) {
            Some(s) => Some(*s),
            None => None,
        }
    }

    /// Whether an item with the id `id` is known.
    pub fn has_item(&self, id: &String) -> (r: bool)
        ensures
            r == contains_id(self.items@, id@),
    {
        has_id(&self.items, id)
    }

    /// The sprite with the id `id`, or the error that names it.
    pub fn get_sprite(&self, id: &String) -> (r: Result<String, ResourceError>)
        ensures
            contains_id(self.sprites@, id@) ==> (r matches Ok(s) && s == *id),
            !contains_id(self.sprites@, id@) ==> (r matches Err(ResourceError::UnknownSprite { id: e }) && e@ == id@),
    {
        if has_id(&self.sprites, id) {
            Ok(id.clone())
        } else {
            Err(ResourceError::UnknownSprite { id: id.clone() })
        }
    }
}

} // verus!
