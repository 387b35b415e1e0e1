# baldej

The rules of the baldej game engine that do not depend on rendering,
physics simulation or floating point, as a Verus-verified library.

- `src/` — the library. Every function is verified except three trusted
  wrappers around outside crates, whose contracts are taken on trust:
  `client_id::md5_machine_id` (machineid-rs's `IdBuilder::build`),
  `saves::parse_value_names` (`serde_json::from_str`) and
  `saves::value_names_to_json` (`serde_json::to_string_pretty`). The modules:
  - `string_map` — the string-keyed map that the registries share;
  - `input` — binds, held, just pressed and just released keys and buttons;
  - `assets`, `shaders` — asset registries, shader loading, asset paths;
  - `saves` — which values a save holds and what saving writes;
  - `framework` — global values, loading saves into them, the debug mode;
  - `networking`, `client_id` — connection state, message routing, the
    client id made from a hardware hash;
  - `physics`, `navigation`, `render_order` — collision groups, triangle
    lists for colliders and navigation meshes, draw order;
  - `ui` — windows and widget trees;
  - `objects` — object ids, names, systems and groups;
  - `model_object` — which animation a model plays, and its shadows.
- `tests/` — tests of the library on concrete values.
- `app/` — the executable: arguments, files, sockets and the game loop.
