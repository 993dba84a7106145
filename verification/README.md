# nemclass-ui

The user interface of nemclass, a tool for looking at the memory of a running
process: classes laid over memory, a disassembler, a debugger, a cheat table and
scripts that drive them.

`src/` is the core of it, verified with Verus: what the panels compute, decide and
remember. It draws nothing and touches no process. Where something has to be read,
written or asked outside, a function says what is wanted, and another one takes the
answer in.

- the application: `app_state`, `app_project`, `app_class`, `app_edit`, `app_table`,
  `app_scripts`
- the class view: `model`, `class_view`, `rebuild`, `live_rows`, `class_actions`,
  `edit_state`, `scalar`, `selection`, `node_path`, `node_copy`, `node_edit`,
  `node_menu`, `auto_dissect`, `class_names`, `enum_editor`
- the panels: `disassembly`, `regions`, `xrefs`, `history`, `navigator`,
  `memory_viewer`, `debugger`, `cheat_table`, `scan_value`, `modules_panel`,
  `generator`, `processes`, `process_reader`, `key_file`, `dock`
- what scripts call: `host_api` and the modules whose names begin with `host_`,
  `json`
- text, numbers and order: `text`, `address`, `encoding`, `bytes`, `order`, `sort`

`app/` is the window around it, in ordinary Rust: drawing with egui, files, dialogs,
jobs, and the traits through which a target process and a script engine are used.

`tests/` runs the library.
