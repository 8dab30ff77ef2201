# gpui-navigator

Declarative client-side navigation for GPUI applications: route matching,
nested layouts resolved into a match stack, navigation history, guards and
middleware ordered by priority, named routes, transitions and a bounded LRU
cache of resolutions.

The library in `src/` is written in Verus. Its functions carry contracts
over a mathematical model (paths as character sequences, parameters as maps,
the history as a sequence with a cursor) and the contracts are proved. The
exceptions are the three navigation-counter functions of `RouterState`
(`navigation_id`, `start_navigation`, `is_navigation_current`): the counter
is an atomic shared by every clone of the state, so what they return depends
on calls made through the other clones, and they promise nothing about it. Laws that relate several operations are public proof functions, for
example:

- normalizing a path keeps its segments and is idempotent (`nested`);
- going back after a push returns to the previous entry, and forward undoes
  back (`state`);
- the cached route match is always the one the routes give (`state`);
- guards and middleware run in a stable priority order, and a guard on a
  route protects every path below it (`order`, `context`);
- decoding undoes encoding, and parsing a serialized query string gives the
  parameters back, for text whose characters fit in one byte (`params`);
- a lookup right after a set hits the LRU cache, which never exceeds its
  capacity (`cache`).

Layout:

- `src/` — the verified library. The navigation pipeline is a state machine:
  `GlobalRouter::navigation_step` names the guards to run,
  `GlobalRouter::apply_verdict` decides what their answer means and
  `GlobalRouter::commit` changes the history and resolves the new path.
- `app/` — the GPUI side: guards, middleware and lifecycle hooks as trait
  objects, the global router that runs the navigation loop, the `Navigator`
  API, outlet widgets and the floating-point animation helpers.
- `tests/` — scenario tests of the library.

Route parameters, query parameters and the named-route registry keep their
entries in vectors of key/value pairs with distinct keys, viewed as maps,
rather than in `HashMap`s: with `String` keys the `HashMap` specifications
available to Verus gave no usable facts about lookups after inserts.
Parameters are changed through `insert`, `set` and `remove`; there is no
mutable access to the underlying collection, since that would let a caller
break the distinct-keys invariant.
