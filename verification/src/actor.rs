use vstd::prelude::*;

use crate::resource::{
    contains_id, find_size, first_unknown, lemma_first_unknown_bounds, EntitySize, ResourceError,
    ResourceSet,
};

verus! {

/// A character type as described in a resource file.
pub struct ActorBuilder {
    pub id: String,
    pub player: Option<bool>,
    pub text_display: char,
    pub image_display: String,
    pub default_size: usize,
    pub items: Option<Vec<String>>,
}

/// A character type whose size, items and sprite are known resources.
pub struct Actor {
    pub id: String,
    pub player: bool,
    pub text_display: char,
    /// The id of the actor's sprite.
    pub image_display: String,
    pub default_size: EntitySize,
    /// The ids of the actor's items.
    pub items: Vec<String>,
}

/// The ids of the items that `b` names; none when it names no list.
pub open spec fn builder_items(b: ActorBuilder) -> Seq<String> {
    match b.items {
        Some(v) => v@,
        None => Seq::empty(),
    }
}

impl ActorBuilder {
    /// The id of the actor described.
    pub fn owned_id(&self) -> (r: String)
        ensures
            r@ == self.id@,
    {
        self.id.clone()
    }
}

impl PartialEq for Actor {
    /// Two actors are equal when their ids are.
    fn eq(&self, other: &Actor) -> (r: bool) {
        self.id == other.id
    }
}

impl vstd::std_specs::cmp::PartialEqSpecImpl for Actor {
    open spec fn obeys_eq_spec() -> bool {
        true
    }

    open spec fn eq_spec(&self, other: &Actor) -> bool {
        self.id@ == other.id@
    }
}

impl Actor {
    /// Builds the actor that `builder` describes. Its size, then each of its items in
    /// order, then its sprite must be known to `resources`; the first that is not is the error.
    pub fn new(builder: ActorBuilder, resources: &ResourceSet) -> (r: Result<Actor, ResourceError>)
        ensures
            find_size(resources.sizes@, builder.default_size) is None ==> (r matches Err(
                ResourceError::UnknownSize { owner, size },
            ) && owner@ == builder.id@ && size == builder.default_size),
            find_size(resources.sizes@, builder.default_size) is Some && first_unknown(
                builder_items(builder),
                resources.items@,
            ) is Some ==> (r matches Err(ResourceError::UnknownItem { owner, item })
                && owner@ == builder.id@ && item@ == builder_items(builder)[first_unknown(
                builder_items(builder),
                resources.items@,
            ).unwrap()]@),
            find_size(resources.sizes@, builder.default_size) is Some && first_unknown(
                builder_items(builder),
                resources.items@,
            ) is None && !contains_id(resources.sprites@, builder.image_display@) ==> (r matches Err(
                ResourceError::UnknownSprite { id },
            ) && id@ == builder.image_display@),
            find_size(resources.sizes@, builder.default_size) is Some && first_unknown(
                builder_items(builder),
                resources.items@,
            ) is None && contains_id(resources.sprites@, builder.image_display@) ==> (r matches Ok(a)
                && a.id == builder.id && a.player == builder.player.unwrap_or(false)
                && a.text_display == builder.text_display && a.image_display@
                == builder.image_display@ && a.default_size == find_size(
                resources.sizes@,
                builder.default_size,
            ).unwrap() && a.items@ == builder_items(builder)),
    {
        let ghost b = builder;
        let ActorBuilder { id, player, text_display, image_display, default_size, items } =
            builder;
        let size = match resources.get_size(default_size) {
            None => {
                return Err(ResourceError::UnknownSize { owner: id, size: default_size });
            },
            Some(size) => size,
        };
        let items: Vec<String> = match items {
            Some(v) => v,
            None => Vec::new(),
        };
        assert(items@ == builder_items(b));
        proof {
            lemma_first_unknown_bounds(items@, resources.items@);
        }
        let mut i: usize = 0;
        #[verifier::loop_isolation(false)]
        while i < items.len()
            invariant
                i <= items.len(),
                items@ == builder_items(b),
                id == b.id,
                default_size == b.default_size,
                find_size(resources.sizes@, b.default_size) is Some,
                forall|j: int| 0 <= j < i ==> contains_id(resources.items@, (#[trigger] items@[j])@),
                first_unknown(items@, resources.items@) matches Some(k) ==> i <= k,
                first_unknown(items@, resources.items@) matches Some(k) ==> 0 <= k < items@.len()
                    && !contains_id(resources.items@, items@[k]@) && (forall|j: int|
                    0 <= j < k ==> contains_id(resources.items@, (#[trigger] items@[j])@)),
                first_unknown(items@, resources.items@) is None ==> forall|j: int|
                    0 <= j < items@.len() ==> contains_id(resources.items@, (#[trigger] items@[j])@),
            decreases items.len() - i,
        {
            if !resources.has_item(&items[i]) {
                proof {
                    if let Some(k) = first_unknown(items@, resources.items@) {
                        if i < k {
                            assert(contains_id(resources.items@, items@[i as int]@));
                        }
                    }
                }
                return Err(ResourceError::UnknownItem { owner: id, item: items[i].clone() });
            }
            i = i + 1;
        }
        let sprite = match resources.get_sprite(&image_display) {
            Ok(s) => s,
            Err(e) => {
                return Err(e);
            },
        };
        let player = match player {
            Some(p) => p,
            None => false,
        };
        Ok(Actor { id, player, text_display, image_display: sprite, default_size: size, items })
    }
}

} // verus!
