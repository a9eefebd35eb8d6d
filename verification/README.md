# smearor_wrot_pie_menu

The model behind a circular (pie) menu for touch interfaces, verified with
Verus: the menu item tree, the collection of items, overlap checks with
rollback, the distribution of flexible items between fixed ones, keyboard and
controller selection, hover and click decisions, pinch and rotation gestures,
and submenu navigation with its messages to the application.

Floating-point values (angles, radii, colours, pinch scales) are carried as
their IEEE-754 bit patterns. Geometry that needs floating-point arithmetic is
computed by functions the caller hands in; the model decides what to do with
their answers.

- `src/` — the verified library.
  - `item.rs`, `menu.rs` — items, their submenu tree, and the item collection
    (a `dashmap::DashMap` behind a few trusted wrappers).
  - `layout.rs` — the whole-number steps of angle redistribution.
  - `selection.rs`, `hover.rs` — which item a key, stick or pointer selects.
  - `widget.rs` — the ring: items, geometry settings, selection, submenu stack.
  - `overlay.rs`, `controls.rs`, `gestures.rs` — the overlay: showing and
    hiding, submenus, settings, and what each input does.
  - `color.rs`, `error.rs`, `text.rs`, `context.rs` — hex colours, errors and
    their messages, and the context handed to item widgets.
- `tests/` — tests run against the compiled library.
- `app/` — GTK4 widgets, floating-point geometry, and serialisable copies of
  the library's types.
