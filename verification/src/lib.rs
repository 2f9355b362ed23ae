//! Lifec runtime model: engines as sequences of events, node commands and
//! statuses with their wire framing, the debugger's logs, sections of
//! attributes and the editor's decision logic.
pub mod entity;
pub mod text;
pub mod keyed;
pub mod order;
pub mod attributes;
pub mod node;
pub mod wire;
pub mod engine;
pub mod appendix;
pub mod debugger;
pub mod section;
pub mod event;
pub mod cancel;
pub mod operation;
pub mod controls;
pub mod host;
pub mod editor;
pub mod file_editor;
pub mod event_editor;
pub mod web;
pub mod dispatch;
pub mod debugger_wire;
pub mod program;
pub mod catalog;
pub mod node_graph;
pub mod node_editor;
