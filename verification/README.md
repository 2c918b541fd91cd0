# Vireo interface core

The decisions and text transformations behind the Vireo mail reader's
interface, written in Verus with their contracts proved: the message list
(search, sort, paging, threading into conversations, selection and removals),
the reader (the conversation document, its content policy, remote-content
detection and stripping, printing), the attachment drawer and gallery, the
compose window's recipient completion, the contacts page, and the account
settings (the accounts' order and switches, the sender lists, the provider
table, the connection-test report, and the editor's add, edit, save,
remove, switch, emoji and alias steps), and the layout of context menus.

- `src/` — the verified library. `list_model`, `row_state`,
  `reader_state`, `gallery_state`, `drawer_state`, `compose_state`,
  `contacts_state` and `accounts_state` describe whole components as state
  machines; the other modules hold the functions they are built from.
- `tests/` — tests of the library on concrete values.
- `app/` — the platform side: staging files, the session bus, GLib and GDK
  values, and hashing for render caches.
