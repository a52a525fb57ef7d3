//! Core logic of the kyute UI toolkit: text selection and editing, borrow
//! flags, event subscriptions, callback scheduling, keyboard focus, the
//! compositor layer stack, and the node tree.

pub mod keys;
pub mod selection;
pub mod rc_cell;
pub mod weak;
pub mod layout;
pub mod style;
pub mod event;
pub mod model;
pub mod application;
pub mod platform;
pub mod focus;
pub mod compositor;
pub mod text_units;
pub mod text_edit;
pub mod tree;
pub mod change_flags;
pub mod elements;
pub mod drawing;
