//! The core of a modal text editor: buffers over a rope, the normal-mode
//! command grammar, the window layout, and the editor state that ties them
//! together.

use vstd::prelude::*;

pub mod again;
pub mod batch;
pub mod buffer;
pub mod bufopts;
pub mod changes;
pub mod clipboard;
pub mod cmdcomplete;
pub mod cmdline;
pub mod command;
pub mod complete;
pub mod decor;
pub mod desk;
pub mod edit;
pub mod editor;
pub mod eol;
pub mod ex;
pub mod find;
pub mod idmap;
pub mod input;
pub mod laws;
pub mod layout;
pub mod listing;
pub mod log;
pub mod mode;
pub mod motion;
pub mod motions;
pub mod nav;
pub mod num;
pub mod objects;
pub mod open;
pub mod operate;
pub mod options;
pub mod panel;
pub mod paths;
pub mod pending;
pub mod points;
pub mod registers;
pub mod rope;
pub mod rows;
pub mod scroll;
pub mod search;
pub mod searching;
pub mod setting;
pub mod splits;
pub mod strings;
pub mod text;
pub mod typing;
pub mod unicode;
pub mod virt;
pub mod window;
pub mod wins;
pub mod wrap;

verus! {

} // verus!
