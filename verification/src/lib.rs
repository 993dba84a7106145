//! Verified core of the nemclass user interface: what its panels compute,
//! decide and remember, without the drawing and the target process.
pub mod address;
pub mod app_class;
pub mod app_edit;
pub mod app_project;
pub mod app_scripts;
pub mod app_state;
pub mod app_table;
pub mod auto_dissect;
pub mod bytes;
pub mod cheat_table;
pub mod class_actions;
pub mod class_edits;
pub mod class_layout;
pub mod class_names;
pub mod class_view;
pub mod debugger;
pub mod disassembly;
pub mod dock;
pub mod edit_state;
pub mod encoding;
pub mod enum_editor;
pub mod generator;
pub mod history;
pub mod host_api;
pub mod host_classes;
pub mod host_disasm;
pub mod host_error;
pub mod host_mem;
pub mod host_ops;
pub mod host_proc;
pub mod host_scan;
pub mod json;
pub mod key_file;
pub mod live_rows;
pub mod memory_model;
pub mod memory_viewer;
pub mod model;
pub mod modules_panel;
pub mod navigator;
pub mod node_copy;
pub mod node_edit;
pub mod node_menu;
pub mod node_path;
pub mod order;
pub mod process_reader;
pub mod processes;
pub mod rebuild;
pub mod regions;
pub mod scalar;
pub mod scan_value;
pub mod script_reads;
pub mod script_state;
pub mod selection;
pub mod sort;
pub mod text;
pub mod typed_values;
pub mod user_actions;
pub mod view_rows;
pub mod written_memory;
pub mod xrefs;
