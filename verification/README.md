# spaceship_menu

The sign-up terminal of a space-invaders game: an OpenGL window shows a menu in
which a player spreads ten points over four spaceship settings, gets a unique
nickname, and is posted to a player server and printed on a receipt.

- `src/` is the library, verified with Verus: the menu state machine and its
  text (`text_scene`), the settings (`spaceship_settings`), the nickname
  generator (`nickname_generator`), the player-server form and endpoints
  (`execut_http_client`, `execut_api`), the receipt text (`printer`), vertex
  attribute offsets (`gl_buffers`), OpenGL error names (`helpers`), and the
  character-level text functions they share (`text`, `string_map`).
- `app/` is the program around it: window, OpenGL rendering, events, HTTP and
  the receipt printer.
- `tests/` runs the library on concrete inputs, and compares the text functions
  with the standard library's.
