# deadline-gui host requirements

The host requirements panel of the job submitter, as a verified library.

- `src/json.rs` — the JSON values the serializers build, their model, and
  `obj[key] = value` on object members.
- `src/text.rs` — splitting and joining at a separator, reading and writing
  decimal `i32`s, with the laws that tie them together.
- `src/host_requirements.rs` — OS, hardware, custom amount and custom attribute
  requirements and their `hostRequirements` JSON.
- `src/model_state.rs` — the UI state, the decoding of its `|`-separated custom
  entries, custom name validation, and the state's JSON.
- `src/host_requirements_model.rs` — the panel model and the editing operations
  on its custom entries, with the laws relating edits to what decodes.
- `app/` — the Qt object that exposes the model to QML and writes the JSON text
  with `serde_json`.
