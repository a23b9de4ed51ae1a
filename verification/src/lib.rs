//! ByteForge: the verified core of a binary editor.
//!
//! The library holds a piece-table document with undo and redo, byte search,
//! hex parsing, a data inspector and read-only field decoders for common file
//! formats, and the editor around them: open files, split panes, cursor and
//! selection, typed and pasted bytes, find and replace, "go to offset", and
//! what the hex view and the panels beside it show.
//!
//! Every user action of the editor is a method whose contract gives the next
//! state as a spec function of the state before (`editor::EditorView`); the
//! window around the editor draws that state and performs what lies outside
//! it (files, the clipboard).

pub mod bmp;
pub mod detect;
pub mod document;
pub mod editing;
pub mod editor;
pub mod editor_laws;
pub mod formats;
pub mod gif;
pub mod hex;
pub mod hexview;
pub mod input;
pub mod inspector;
pub mod jpeg;
pub mod keys;
pub mod laws;
pub mod navigation;
pub mod numbers;
pub mod offsets;
pub mod panel;
pub mod panes;
pub mod pieces;
pub mod png;
pub mod reading_laws;
pub mod replacing;
pub mod search;
pub mod selection;
pub mod text;
pub mod wav;
pub mod zip;
