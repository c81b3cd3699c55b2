# image_sorter

A window for sorting the images of a directory: the images load in the
background, can be dragged between three panels (main, assist, and the
panel of images that are not renamed), merged into groups and opened, and
are finally copied into a new directory under names taken from a pattern
such as `a1b2` (one letter, two digits: `a00`, `a01`, ...).

## Layout

- `src/` is the library, verified with Verus:
  - `rename/idx_name.rs`: the patterns and the sequence of names they give;
  - `image_item.rs`, `test_text.rs`, `mix_item.rs`: image items, groups,
    text items and the loading states of the main view;
  - `self_trait.rs`: what the panels ask of their items;
  - `vec_ops.rs`: moving, removing and merging items within a panel;
  - `main_struct.rs`: the panels and the layers of opened groups, the size
    a save needs, and the list of copies a save makes;
  - `dir.rs`, `input_panel.rs`, `app.rs`, `related_struct.rs`: the inputs,
    the buttons, and the decisions the window takes in each frame;
  - `file_filter.rs`, `egui_types.rs`: which files are images, and the few
    `egui` values the items carry.
- `app/` is the window itself (drawing with `egui`/`eframe`, file system,
  threads that decode images and make thumbnails).
- `tests/` exercises the library.
