//! Game state, resources and input events of a turn based role playing game.

mod mouse_event;

pub use mouse_event::{Kind, MouseEvent};

mod geometry;
mod resource;
mod terrain;

pub use geometry::{law_in_bounds_means_on_grid, spec_in_bounds, Point, Size};
pub use terrain::{grid_of, side, square_passable, tile_passable, PathFinderGrid, Terrain};
pub use resource::{
    contains_id, find_size, first_unknown, has_id, lemma_first_unknown_bounds, EntitySize,
    ResourceError, ResourceSet,
};

mod entity;
mod turn_timer;

pub use entity::{
    ai_active_at, all_live, has_uid, lemma_clear_uid, lemma_push_uid, lemma_uid_slot, live, pc_at,
    state_at, table_wf, takes_turns, uids_distinct, EntityState, TurnAction,
};
pub use turn_timer::{
    initiative_at, lemma_with_initiative_append, lemma_with_initiative_none,
    live_indices, sorted_by_initiative, stable_initiative_order, with_initiative,
    activated, awake, current_of, end_all, first_taker, has_taker, in_queue, init_pcs,
    is_first_taker, lemma_first_taker, lemma_rotate_step, lemma_with_initiative_push, next_order,
    no_ai_active, rotate, set_active_actions, takers, wake_table, wakes, wakes_any, without,
    in_queue_prefix, wake_prefix, lemma_without_members,
    ActiveEntityIterator, TurnTimer,
};

mod turn_laws;

pub use turn_laws::{
    idle_watcher, law_active_entities_take_turns, law_ai_activation_wakes_only_idle,
    law_remove_keeps_mode_while_ai_left, law_initiative_order_unique, law_next_gives_turn_to_taker,
    law_next_keeps_cyclic_order, law_next_keeps_entities, law_remove_takes_entity_out, law_remove_undoes_add,
    law_set_active_same_mode, law_sorted_classes_determine_order, law_turn_belongs_to_front,
    law_waking_gives_a_taker,
};

mod actor;

pub use actor::{builder_items, Actor, ActorBuilder};

mod area;

pub use area::{
    can_stand, carries, carries_one_of, law_doorways_are_those_inside, rectangle_inside, extents_fit_where_reached, law_doorways_carry_their_descriptions, has_footprint, kept_transitions, sprites_known_through, transition_extent_fits, transition_fits, transition_of,
    transition_sprites, ActorData, Area, AreaBuilder, AreaMap, Transition,
    TransitionBuilder,
};

mod area_state;

pub use area_state::{add_actions, area_state_wf, fresh_in, placed, populate_spec, AreaState};

mod game_state;

pub use game_state::{
    area_loaded, call_keeps, can_move, checked, fresh_for, ids_distinct, law_exit_only_by_set_exit,
    law_pc_identity_kept, lemma_only_slot, loaded_has_uid, only_slot, uids_unique, GameCall, checked_against, first_area_with_id, kept_animations,
    law_area_lookup_by_ids, law_can_move_then_move, law_move_checks_only_own_animations, law_loaded_area_is_reused, lemma_no_area_with_id, law_queued_animation_updated_next,
    lemma_first_area_with_id, mode_after_remove, moved, remove_actions, same_but_animations,
    same_but_flags, updated, Animation, GameError, GameState, GameStateMainLoopUpdater,
};
