# sulis

The state of a turn based role playing game: input events, resource descriptions of
actors and areas, the turn order of the entities in an area, and the game state that the
main loop drives. The library under `src/` is verified with Verus.

- `mouse_event` — mouse events.
- `geometry` — grid points and extents.
- `resource` — the resources that actors and areas name by key.
- `actor`, `area` — building actors and areas from their descriptions.
- `entity`, `turn_timer`, `turn_laws` — the turn order of an area and what it keeps.
- `area_state`, `game_state` — loaded areas and the running game.

The calls that the turn order makes on an entity's actor (starting and ending its turn,
telling listeners) are returned as `TurnAction`s for the caller to perform. `app/` reads
descriptions from JSON and YAML and keeps the running game for the main loop.
