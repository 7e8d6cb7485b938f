# hanui

The view models of a Home Assistant dashboard, verified with Verus.

From a dashboard's configuration and a snapshot of the entities the library
computes what is drawn, and decides when it may be drawn:

- `tiles`, `tile`: one tile for each widget, in document order, whether or not its
  entity is known; `alarm`, `camera`, `climate`, `cover`, `fan`, `history`, `lock`,
  `media_player` and `power_flow` read the entities.
- `kinds`, `split`, `row_index`: the rows of the window's models, one model for each
  kind of tile, and the index from an entity to the rows that show it.
- `packing`, `layout`, `switcher`, `wire`: where tiles sit, and the properties of the
  windows.
- `live`: what the listeners, the flush and the watch do at each event.
- `pin`, `more_info`: asking for a code, and the dialog for an entity.
- `number`, `arith`, `text`: readings are held by the bits of their IEEE 754 numbers,
  so that rounding, differences and proportions are integer arithmetic with exact
  contracts.
- `schema`, `profiles`, `entity`, `store`: the configuration and the entities.

Contracts speak of models: a tile is a `TileModel`, an entity an `EntityModel`, a
store a map from ids to entities. Laws that span several functions are public proof
functions beside the functions they are about. The library has no trusted items.

`app/` holds what surrounds the library: the tasks and channels, the handles of the
compiled windows, and the reading of decimal text.
