//! Verified core of an entity editor: selection, filtering, list editing,
//! text layout and editor state decisions.


pub mod camera;
pub mod change_viewer;
pub mod chunks;
pub mod editor_state;
pub mod filter;
pub mod hierarchy;
pub mod layout;
pub mod list_ops;
pub mod multi_edit;
pub mod selection;
pub mod settings;
pub mod text;
