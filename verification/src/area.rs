use vstd::prelude::*;

use std::collections::HashMap;
use vstd::std_specs::iter::IteratorSpec;

use crate::geometry::{spec_in_bounds, Point, Size};
use crate::resource::{
    contains_id, first_unknown, lemma_first_unknown_bounds, ResourceError, ResourceSet,
};
use crate::terrain::{grid_of, side, square_passable, PathFinderGrid, Terrain};

verus! {

broadcast use vstd::std_specs::hash::group_hash_axioms;

/// A doorway out of an area, as described in a resource file.
pub struct TransitionBuilder {
    pub from: Point,
    pub size: Size,
    pub to: Point,
    pub to_area: Option<String>,
    pub image_display: String,
    pub text_display: char,
}

/// A doorway out of an area: the rectangle at `from` of extent `size` leads to `to` in the
/// area `to_area`, or in the same area when there is none.
pub struct Transition {
    pub from: Point,
    pub size: Size,
    pub to: Point,
    pub to_area: Option<String>,
    /// The id of the doorway's sprite.
    pub image_display: String,
    pub text_display: char,
}

/// An actor placed in an area.
pub struct ActorData {
    pub id: String,
    pub location: Point,
}

/// An area as described in a resource file.
pub struct AreaBuilder {
    pub id: String,
    pub name: String,
    pub width: usize,
    pub height: usize,
    /// The terrain layers by name, each a grid of tile indices.
    pub terrain: Vec<(String, Vec<Vec<usize>>)>,
    pub generate: bool,
    pub actors: Vec<ActorData>,
    pub transitions: Vec<TransitionBuilder>,
}

/// The terrain of an area with a path finding grid for each of some entity footprints, each
/// the grid of the terrain for its footprint.
pub struct AreaMap {
    terrain: Terrain,
    path_grids: HashMap<i32, PathFinderGrid>,
}

impl AreaMap {
    #[verifier::type_invariant]
    closed spec fn inv(self) -> bool {
        forall|k: i32| #[trigger] self.path_grids@.contains_key(k) ==> grid_of(self.path_grids@[k], self.terrain, k)
    }

    /// The terrain.
    pub closed spec fn spec_terrain(&self) -> Terrain {
        self.terrain
    }

    /// The path finding grid for each footprint that has one.
    pub closed spec fn spec_grids(&self) -> Map<i32, PathFinderGrid> {
        self.path_grids@
    }

    /// The terrain.
    pub fn terrain(&self) -> (r: &Terrain)
        ensures
            *r == self.spec_terrain(),
    {
        &self.terrain
    }

    /// The path finding grid for each footprint that has one.
    pub fn path_grids(&self) -> (r: &HashMap<i32, PathFinderGrid>)
        ensures
            r@ == self.spec_grids(),
    {
        &self.path_grids
    }

    /// The path finding grid for entities of footprint `size`: the grid of the terrain for
    /// that footprint.
    pub fn get_path_grid(&self, size: i32) -> (grid: &PathFinderGrid)
        requires
            self.spec_grids().contains_key(size),
        ensures
            *grid == self.spec_grids()[size],
            grid_of(*grid, self.spec_terrain(), size),
    {
        proof {
            use_type_invariant(self);
        }
        self.path_grids.get(&size).unwrap()
    }
}

/// An area of the game world.
pub struct Area {
    pub id: String,
    pub name: String,
    pub width: i32,
    pub height: i32,
    /// The terrain with its path finding grids.
    pub map: AreaMap,
    pub actors: Vec<ActorData>,
    pub transitions: Vec<Transition>,
}

/// The sprite ids of the doorways `tbs`, in order.
pub open spec fn transition_sprites(tbs: Seq<TransitionBuilder>) -> Seq<String> {
    tbs.map_values(|tb: TransitionBuilder| tb.image_display)
}

/// Whether the doorway `tb` lies inside a `width` by `height` area: both its corner and
/// the point one past its extent are on the grid.
pub open spec fn transition_fits(tb: TransitionBuilder, width: i32, height: i32) -> bool {
    &&& spec_in_bounds(tb.from.x as int, tb.from.y as int, width as int, height as int)
    &&& spec_in_bounds(
        tb.from.x + tb.size.width,
        tb.from.y + tb.size.height,
        width as int,
        height as int,
    )
}

/// Whether the far corner of a doorway that starts on the grid can be computed.
pub open spec fn transition_extent_fits(tb: TransitionBuilder, width: i32, height: i32) -> bool {
    spec_in_bounds(tb.from.x as int, tb.from.y as int, width as int, height as int) ==> {
        &&& i32::MIN <= tb.from.x + tb.size.width <= i32::MAX
        &&& i32::MIN <= tb.from.y + tb.size.height <= i32::MAX
    }
}

/// Whether the sprites of the doorways `ts` up to and including the one at `i` are all known.
pub open spec fn sprites_known_through(ts: Seq<TransitionBuilder>, sprites: Seq<String>, i: int) -> bool {
    forall|j: int| 0 <= j <= i ==> contains_id(sprites, (#[trigger] ts[j]).image_display@)
}

/// Whether the far corner of each doorway can be computed where building the area gets to
/// it: at each doorway whose sprite, and the sprites of all before it, are known.
pub open spec fn extents_fit_where_reached(
    ts: Seq<TransitionBuilder>,
    sprites: Seq<String>,
    width: i32,
    height: i32,
) -> bool {
    forall|i: int|
        0 <= i < ts.len() && #[trigger] sprites_known_through(ts, sprites, i)
            ==> transition_extent_fits(ts[i], width, height)
}

/// The doorway that `tb` describes.
pub open spec fn transition_of(tb: TransitionBuilder) -> Transition {
    Transition {
        from: tb.from,
        size: tb.size,
        to: tb.to,
        to_area: tb.to_area,
        image_display: tb.image_display,
        text_display: tb.text_display,
    }
}

/// Whether the doorway `tr` carries each field of the description `tb` unchanged.
pub open spec fn carries(tr: Transition, tb: TransitionBuilder) -> bool {
    &&& tr.from == tb.from
    &&& tr.size == tb.size
    &&& tr.to == tb.to
    &&& tr.to_area == tb.to_area
    &&& tr.image_display == tb.image_display
    &&& tr.text_display == tb.text_display
}

/// Whether `tr` carries every field of one of the descriptions `tbs` that lies inside a
/// `width` by `height` area.
pub open spec fn carries_one_of(tr: Transition, tbs: Seq<TransitionBuilder>, width: i32, height: i32) -> bool {
    exists|j: int| 0 <= j < tbs.len() && transition_fits(tbs[j], width, height) && #[trigger] carries(tr, tbs[j])
}

/// The doorways an area keeps are its descriptions unchanged: each carries every field of a
/// description that lies inside the area, the point it leads to among them, and when every
/// description lies inside the area, the `k`-th doorway carries the `k`-th description.
pub proof fn law_doorways_carry_their_descriptions(tbs: Seq<TransitionBuilder>, width: i32, height: i32)
    ensures
        forall|k: int|
            0 <= k < kept_transitions(tbs, width, height).len() ==> carries_one_of(
                #[trigger] kept_transitions(tbs, width, height)[k],
                tbs,
                width,
                height,
            ),
        (forall|j: int| 0 <= j < tbs.len() ==> transition_fits(#[trigger] tbs[j], width, height)) ==> {
            &&& kept_transitions(tbs, width, height).len() == tbs.len()
            &&& forall|k: int|
                0 <= k < tbs.len() ==> carries(#[trigger] kept_transitions(tbs, width, height)[k], tbs[k])
        },
    decreases tbs.len(),
{
    if tbs.len() > 0 {
        let d = tbs.drop_last();
        law_doorways_carry_their_descriptions(d, width, height);
        let rest = kept_transitions(d, width, height);
        let kept = kept_transitions(tbs, width, height);
        let n = tbs.len() - 1;
        assert(tbs.last() == tbs[n]);
        assert forall|k: int| 0 <= k < kept.len() implies carries_one_of(
            #[trigger] kept_transitions(tbs, width, height)[k],
            tbs,
            width,
            height,
        ) by {
            if k < rest.len() {
                assert(kept[k] == rest[k]);
                assert(carries_one_of(rest[k], d, width, height));
                let j = choose|j: int| 0 <= j < d.len() && transition_fits(d[j], width, height) && #[trigger] carries(rest[k], d[j]);
                assert(d[j] == tbs[j]);
                assert(0 <= j < tbs.len() && transition_fits(tbs[j], width, height) && carries(kept[k], tbs[j]));
            } else {
                assert(transition_fits(tbs.last(), width, height));
                assert(kept == rest.push(transition_of(tbs.last())));
                assert(kept[k] == transition_of(tbs[n]));
                assert(carries(kept[k], tbs[n]));
                assert(0 <= n < tbs.len() && transition_fits(tbs[n], width, height) && carries(kept[k], tbs[n]));
            }
        }
        if forall|j: int| 0 <= j < tbs.len() ==> transition_fits(#[trigger] tbs[j], width, height) {
            assert forall|j: int| 0 <= j < d.len() implies transition_fits(#[trigger] d[j], width, height) by {
                assert(d[j] == tbs[j]);
            }
            assert(transition_fits(tbs[n], width, height));
            assert forall|k: int| 0 <= k < tbs.len() implies carries(
                #[trigger] kept_transitions(tbs, width, height)[k],
                tbs[k],
            ) by {
                if k < n {
                    assert(kept[k] == rest[k]);
                    assert(d[k] == tbs[k]);
                }
            }
        }
    }
}

/// Whether the rectangle at `from` of extent `size` has its corner and the point one past its
/// extent on a `width` by `height` grid.
pub open spec fn rectangle_inside(from: Point, size: Size, width: i32, height: i32) -> bool {
    &&& 0 <= from.x < width
    &&& 0 <= from.y < height
    &&& 0 <= from.x + size.width < width
    &&& 0 <= from.y + size.height < height
}

/// The doorways an area keeps are exactly those of its descriptions that lie inside it: each
/// kept doorway lies inside, and each description that lies inside is carried, unchanged, by
/// a kept doorway. No more doorways are kept than described.
pub proof fn law_doorways_are_those_inside(tbs: Seq<TransitionBuilder>, width: i32, height: i32)
    ensures
        kept_transitions(tbs, width, height).len() <= tbs.len(),
        forall|k: int|
            0 <= k < kept_transitions(tbs, width, height).len() ==> rectangle_inside(
                (#[trigger] kept_transitions(tbs, width, height)[k]).from,
                kept_transitions(tbs, width, height)[k].size,
                width,
                height,
            ),
        forall|j: int|
            0 <= j < tbs.len() && rectangle_inside((#[trigger] tbs[j]).from, tbs[j].size, width, height)
                ==> exists|k: int|
                0 <= k < kept_transitions(tbs, width, height).len() && #[trigger] carries(
                    kept_transitions(tbs, width, height)[k],
                    tbs[j],
                ),
    decreases tbs.len(),
{
    if tbs.len() > 0 {
        let d = tbs.drop_last();
        law_doorways_are_those_inside(d, width, height);
        let rest = kept_transitions(d, width, height);
        let kept = kept_transitions(tbs, width, height);
        let n = tbs.len() - 1;
        assert(tbs.last() == tbs[n]);
        assert forall|k: int| 0 <= k < kept.len() implies rectangle_inside(
            (#[trigger] kept_transitions(tbs, width, height)[k]).from,
            kept_transitions(tbs, width, height)[k].size,
            width,
            height,
        ) by {
            if k < rest.len() {
                assert(kept[k] == rest[k]);
            } else {
                assert(transition_fits(tbs.last(), width, height));
                assert(kept == rest.push(transition_of(tbs.last())));
            }
        }
        assert forall|j: int|
            0 <= j < tbs.len() && rectangle_inside((#[trigger] tbs[j]).from, tbs[j].size, width, height)
                implies exists|k: int|
                0 <= k < kept_transitions(tbs, width, height).len() && #[trigger] carries(
                    kept_transitions(tbs, width, height)[k],
                    tbs[j],
                ) by {
            if j < n {
                assert(d[j] == tbs[j]);
                assert(rectangle_inside(d[j].from, d[j].size, width, height));
                let k = choose|k: int| 0 <= k < rest.len() && #[trigger] carries(rest[k], d[j]);
                assert(kept[k] == rest[k]);
                assert(carries(kept[k], tbs[j]));
            } else {
                assert(transition_fits(tbs.last(), width, height));
                assert(kept == rest.push(transition_of(tbs.last())));
                assert(kept[rest.len() as int] == transition_of(tbs[n]));
                assert(carries(kept[rest.len() as int], tbs[j]));
            }
        }
    }
}

/// The doorways of `tbs` that lie inside a `width` by `height` area, in order.
pub open spec fn kept_transitions(tbs: Seq<TransitionBuilder>, width: i32, height: i32) -> Seq<
    Transition,
>
    decreases tbs.len(),
{
    if tbs.len() == 0 {
        Seq::empty()
    } else {
        let rest = kept_transitions(tbs.drop_last(), width, height);
        if transition_fits(tbs.last(), width, height) {
            rest.push(transition_of(tbs.last()))
        } else {
            rest
        }
    }
}

/// Whether `size` is the footprint of one of the entity sizes `sizes`.
pub open spec fn has_footprint(sizes: Map<usize, crate::resource::EntitySize>, size: i32) -> bool {
    exists|key: usize| sizes.contains_key(key) && (#[trigger] sizes[key]).size == size
}

impl PartialEq for Area {
    /// Two areas are equal when their ids are.
    fn eq(&self, other: &Area) -> (r: bool) {
        self.id == other.id
    }
}

impl vstd::std_specs::cmp::PartialEqSpecImpl for Area {
    open spec fn obeys_eq_spec() -> bool {
        true
    }

    open spec fn eq_spec(&self, other: &Area) -> bool {
        self.id@ == other.id@
    }
}

impl AreaBuilder {
    /// The id of the area described.
    pub fn owned_id(&self) -> (r: String)
        ensures
            r@ == self.id@,
    {
        self.id.clone()
    }
}

/// Whether an entity of footprint `size` can stand with its corner at `p` in `a`: the point
/// lies in the area and on its terrain, the area has a path finding grid for the footprint,
/// and every tile of the footprint's square there can be walked on.
pub open spec fn can_stand(a: Area, size: i32, p: Point) -> bool {
    &&& spec_in_bounds(p.x as int, p.y as int, a.width as int, a.height as int)
    &&& a.spec_grids().contains_key(size)
    &&& 0 <= p.x < a.spec_terrain().spec_width()
    &&& 0 <= p.y < a.spec_terrain().spec_height()
    &&& square_passable(a.spec_terrain(), side(size), p.x as int, p.y as int)
}

impl Area {
    /// The terrain of the area.
    pub open spec fn spec_terrain(&self) -> Terrain {
        self.map.spec_terrain()
    }

    /// The path finding grid of the area for each entity footprint that has one.
    pub open spec fn spec_grids(&self) -> Map<i32, PathFinderGrid> {
        self.map.spec_grids()
    }

    /// The terrain of the area.
    pub fn terrain(&self) -> (r: &Terrain)
        ensures
            *r == self.spec_terrain(),
    {
        self.map.terrain()
    }

    /// The path finding grid of the area for each entity footprint that has one.
    pub fn path_grids(&self) -> (r: &HashMap<i32, PathFinderGrid>)
        ensures
            r@ == self.spec_grids(),
    {
        self.map.path_grids()
    }

    /// Builds the area that `builder` describes on `terrain`, the terrain built from the
    /// builder's layers, or the error that building it gave, which is passed on. The area gets
    /// a path finding grid of its terrain for each entity size of `resources`. Each doorway's
    /// sprite must be known; the first that is not is the error. Doorways that do not lie
    /// inside the area are left out.
    pub fn new(builder: AreaBuilder, resources: &ResourceSet, terrain: Result<Terrain, ResourceError>) -> (r: Result<Area, ResourceError>)
        requires
            terrain is Ok ==> extents_fit_where_reached(
                builder.transitions@,
                resources.sprites@,
                builder.width as i32,
                builder.height as i32,
            ),
        ensures
            terrain matches Err(e) ==> r == Err::<Area, ResourceError>(e),
            terrain is Ok ==> (first_unknown(transition_sprites(builder.transitions@), resources.sprites@) matches Some(
                k,
            ) ==> (r matches Err(ResourceError::UnknownSprite { id }) && id@
                == builder.transitions@[k].image_display@)),
            terrain matches Ok(t) ==> (first_unknown(transition_sprites(builder.transitions@), resources.sprites@) is None ==> (
            r matches Ok(area) && area.id == builder.id && area.name == builder.name && area.width
                == builder.width as i32 && area.height == builder.height as i32 && area.actors
                == builder.actors && area.spec_terrain() == t && area.transitions@ == kept_transitions(
                builder.transitions@,
                builder.width as i32,
                builder.height as i32,
            ) && forall|k: i32|
                #[trigger] area.spec_grids().contains_key(k) == has_footprint(resources.sizes@, k))),
    {
        let terrain = match terrain {
            Ok(t) => t,
            Err(e) => {
                return Err(e);
            },
        };
        let ghost b = builder;
        let AreaBuilder { id, name, width, height, terrain: _, generate: _, actors, transitions } =
            builder;
        let w = width as i32;
        let h = height as i32;
        let path_grids = build_grids(&terrain, resources);
        let kept = match build_transitions(&transitions, resources, w, h) {
            Ok(k) => k,
            Err(e) => {
                return Err(e);
            },
        };
        Ok(Area { id, name, width: w, height: h, map: AreaMap { terrain, path_grids }, actors, transitions: kept })
    }
}

/// A path finding grid of `terrain` for the footprint of each entity size of `resources`.
fn build_grids(terrain: &Terrain, resources: &ResourceSet) -> (g: HashMap<i32, PathFinderGrid>)
    ensures
        forall|k: i32| #[trigger] g@.contains_key(k) ==> grid_of(g@[k], *terrain, k),
        forall|k: i32| #[trigger] g@.contains_key(k) == has_footprint(resources.sizes@, k),
{
    let mut path_grids: HashMap<i32, PathFinderGrid> = HashMap::new();
    let ghost all = vstd::std_specs::hash::spec_values_iter(&resources.sizes).remaining().unref();
    let ghost mut n: int = 0;
    for s in it: resources.sizes.values()
        invariant
            n == it.index(),
            it.seq().unref() == all,
            all.to_set() == resources.sizes@.values(),
            forall|k: i32| #[trigger] path_grids@.contains_key(k) ==> grid_of(path_grids@[k], *terrain, k),
            forall|k: i32| #[trigger] path_grids@.contains_key(k) <==> exists|j: int| 0 <= j < n && all[j].size == k,
    {
        proof {
            assert(all[n] == *s);
        }
        path_grids.insert(s.size, PathFinderGrid::new(*s, terrain));
        proof {
            n = n + 1;
        }
    }
    assert(n == all.len());
    assert forall|k: i32| #[trigger] path_grids@.contains_key(k) == has_footprint(resources.sizes@, k) by {
        if has_footprint(resources.sizes@, k) {
            let key = choose|key: usize| resources.sizes@.contains_key(key) && (#[trigger] resources.sizes@[key]).size == k;
            assert(resources.sizes@.values().contains(resources.sizes@[key]));
            assert(all.to_set().contains(resources.sizes@[key]));
            assert(all.contains(resources.sizes@[key]));
        }
        if path_grids@.contains_key(k) {
            let j = choose|j: int| 0 <= j < n && all[j].size == k;
            assert(all.contains(all[j]));
            assert(all.to_set().contains(all[j]));
            assert(resources.sizes@.values().contains(all[j]));
            let key = choose|key: usize| resources.sizes@.contains_key(key) && resources.sizes@[key] == all[j];
            assert(resources.sizes@[key].size == k);
        }
    }
    path_grids
}

/// The doorways of `transitions` that lie inside a `w` by `h` area, or the error for the
/// first whose sprite is not known.
fn build_transitions(transitions: &Vec<TransitionBuilder>, resources: &ResourceSet, w: i32, h: i32) -> (r: Result<Vec<Transition>, ResourceError>)
    requires
        extents_fit_where_reached(transitions@, resources.sprites@, w, h),
    ensures
        first_unknown(transition_sprites(transitions@), resources.sprites@) matches Some(k) ==> (r matches Err(
            ResourceError::UnknownSprite { id },
        ) && id@ == transitions@[k].image_display@),
        first_unknown(transition_sprites(transitions@), resources.sprites@) is None ==> (r matches Ok(kept)
            && kept@ == kept_transitions(transitions@, w, h)),
{
        let ghost sprites = transition_sprites(transitions@);
        proof {
            lemma_first_unknown_bounds(sprites, resources.sprites@);
        }
        let mut kept: Vec<Transition> = Vec::new();
        let mut i: usize = 0;
        assert(transitions@.subrange(0, 0) =~= Seq::<TransitionBuilder>::empty());
        while i < transitions.len()
            invariant
                i <= transitions@.len(),
                extents_fit_where_reached(transitions@, resources.sprites@, w, h),
                first_unknown(sprites, resources.sprites@) matches Some(k) ==> 0 <= k < sprites.len()
                    && !contains_id(resources.sprites@, sprites[k]@) && (forall|j: int|
                    0 <= j < k ==> contains_id(resources.sprites@, (#[trigger] sprites[j])@)),
                first_unknown(sprites, resources.sprites@) is None ==> forall|j: int|
                    0 <= j < sprites.len() ==> contains_id(resources.sprites@, (#[trigger] sprites[j])@),
                sprites == transition_sprites(transitions@),
                forall|j: int| 0 <= j < i ==> contains_id(resources.sprites@, (#[trigger] sprites[j])@),
                kept@ == kept_transitions(transitions@.subrange(0, i as int), w, h),
            decreases transitions.len() - i,
        {
            let tb = &transitions[i];
            assert(sprites[i as int] == tb.image_display);
            let sprite = match resources.get_sprite(&tb.image_display) {
                Ok(sprite) => sprite,
                Err(e) => {
                    proof {
                        if let Some(k) = first_unknown(sprites, resources.sprites@) {
                            if (i as int) < k {
                                assert(contains_id(resources.sprites@, sprites[i as int]@));
                            }
                        }
                    }
                    return Err(e);
                },
            };
            let ghost prefix = transitions@.subrange(0, i + 1);
            assert(prefix.drop_last() =~= transitions@.subrange(0, i as int));
            assert(prefix.last() == *tb);
            let mut p = tb.from;
            if !p.in_bounds(w, h) {
                i = i + 1;
                continue;
            }
            assert(sprites_known_through(transitions@, resources.sprites@, i as int)) by {
                assert forall|j: int| 0 <= j <= i implies contains_id(resources.sprites@, (#[trigger] transitions@[j]).image_display@) by {
                    assert(sprites[j] == transitions@[j].image_display);
                }
            }
            assert(transition_extent_fits(transitions@[i as int], w, h));
            p.add(tb.size.width, tb.size.height);
            if !p.in_bounds(w, h) {
                i = i + 1;
                continue;
            }
            let to_area = match &tb.to_area {
                Some(a) => Some(a.clone()),
                None => None,
            };
            kept.push(
                Transition {
                    from: tb.from,
                    size: tb.size,
                    to: tb.to,
                    to_area,
                    image_display: sprite,
                    text_display: tb.text_display,
                },
            );
            i = i + 1;
        }
        assert(transitions@.subrange(0, transitions@.len() as int) =~= transitions@);
        proof {
            if let Some(k) = first_unknown(sprites, resources.sprites@) {
                assert(contains_id(resources.sprites@, sprites[k]@));
            }
        }
        Ok(kept)
}

impl Area {
    /// Whether `(x, y)` lies inside the area.
    pub fn coords_valid(&self, x: i32, y: i32) -> (r: bool)
        ensures
            r == spec_in_bounds(x as int, y as int, self.width as int, self.height as int),
            r ==> 0 <= x < self.width && 0 <= y < self.height,
            x < 0 || y < 0 || x >= self.width || y >= self.height ==> !r,
    {
        if x < 0 || y < 0 {
            return false;
        }
        if x >= self.width || y >= self.height {
            return false;
        }
        true
    }

    /// The path finding grid for entities of footprint `size`: the grid of the terrain for
    /// that footprint.
    pub fn get_path_grid(&self, size: i32) -> (grid: &PathFinderGrid)
        requires
            self.spec_grids().contains_key(size),
        ensures
            *grid == self.spec_grids()[size],
            grid_of(*grid, self.spec_terrain(), size),
    {
        self.map.get_path_grid(size)
    }

    /// Whether an entity of footprint `size` can stand with its corner at `p`.
    pub fn is_passable(&self, size: i32, p: Point) -> (r: bool)
        ensures
            r == can_stand(*self, size, p),
    {
        if !self.coords_valid(p.x, p.y) {
            return false;
        }
        if !self.map.path_grids().contains_key(&size) {
            return false;
        }
        let g = self.map.get_path_grid(size);
        let r = g.is_passable(p.x, p.y);
        proof {
            if 0 <= p.x < g.width && 0 <= p.y < g.height {
                let row = g.passable@[p.y as int];
                assert(row@.len() == g.width);
                assert(row@[p.x as int] == square_passable(self.spec_terrain(), side(size), p.x as int, p.y as int));
            }
        }
        r
    }
}

} // verus!
