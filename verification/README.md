# fight_arena

The rules and the dialog system of Fight Arena, a test arena for the
characters and combats of the FTO game, as a library verified with Verus,
and the Bevy game around it.

## Layout

- `src/` — the verified library.
  - `dialog.rs`: dialog trees (`DialogNode`, `DialogType`, `DialogCondition`)
    and their events.
  - `dialog_print.rs`: the flat form and the file form that a tree is
    written in.
  - `dialog_file.rs`, `dialog_flat.rs`: reading those forms back, one
    character at a time; `arena.rs` holds the tree while it is read.
  - `file_format.rs`: the file form as a specification (`file_text`) and
    the proof that reading it gives the tree back, for every tree the file
    form carries; `file_writing.rs`: the proof that `print_file` writes
    exactly that form for those trees.
  - `flat_writing.rs`: what `print_flat` writes, stated as texts and
    children joined in brackets.
  - `dialog_flow.rs`: how the dialog panel goes on after a skip or a choice.
  - `dialog_states.rs`: the dialog states of `yml_dialog` and the world
    events that open them; `dialog_loading.rs`: reading such states from
    their YAML form and moving from one to another.
  - `combat.rs`, `movement.rs`, `constants.rs`: statistics, initiative
    rolls, the start of a combat, directions of movement.
  - `text.rs`, `text_facts.rs`: character sequences, `replace_all` and the
    facts the proofs use about them.
- `tests/` — the tests of the library.
- `app/` — the Bevy game: windows, sprites, physics and user interface,
  calling the library for every decision.

## Notes

- `DialogNode::is_text` tells whether the first element of a node is a
  text, `DialogNode::is_choice` whether it is a choice; the two never hold
  together (`lemma_choice_excludes_text`).
