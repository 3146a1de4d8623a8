//! The interface, as far as it decides: statuses, the search bar, menus,
//! the tree of visible nodes, the toolbar, and what keys and the mouse do.

pub mod app;
pub mod context_menu;
pub mod event;
pub mod key_handler;
pub mod log_state;
pub mod mouse_handler;
pub mod render;
pub mod session;
pub mod toolbar;
pub mod tree_state;
pub mod tree_widget;
