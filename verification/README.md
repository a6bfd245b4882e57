# vault_tasks

Task management over a vault of Markdown notes: task lines such as
`- [ ] water the plants tomorrow p2 #home`, the headers and files that hold them,
trackers (tables of events kept at a frequency), search filters, sorting, and the
settings and timer of the time management techniques.

The library under `src/` is verified with Verus: each public function states in its
contract what it returns or changes, over mathematical views of the data (`Seq`,
`Map`, `int`), and the laws that span several functions stand as public proof
functions (`lemma_*`). Calls into `chrono`, `lexical-sort` and `tabled` go through a
few small trusted wrappers whose contracts say what those crates document.

- `date`, `text`: dates, times and the character-level helpers.
- `task`, `token`, `task_parser`, `round_trip`: the task line syntax, its parser, and
  the law that a task written back reads as the same task.
- `vault`, `file_parser`, `rewrite`, `scan`, `manager`: the vault tree, reading a
  Markdown file into it, writing fixed task lines back, and the task manager.
- `filter`, `sorter`, `display`, `explorer`: search, ordering, the text shown for
  tasks, and the lines of the explorer.
- `frequency`, `parse_frequency`, `tracker*`: trackers and their frequencies.
- `keys`, `style`, `config`, `merge`: key bindings, styles and settings of the
  configuration, and how the defaults complete the user's.
- `timer`, `settings`, `engine`, `calendar`: the time management tab and its actions,
  the calendar's moves and the task that it previews.

`app/` is the command line front end (`list`, `add`, `mark`): it reads the vault from
the disk, hands plain values to the library and writes back what it returns. It also
holds the Pomodoro and Flowtime techniques, whose arithmetic is floating point.
