//! The shell: what the window's events and the passing of time do to the
//! scene.
pub mod binds;
pub mod caret;
pub mod drag;
pub mod flush;
pub mod focus;
pub mod hover;
pub mod images;
pub mod keys;
pub mod layers;
pub mod lazy;
pub mod motion;
pub mod overlay;
pub mod rebuild;
pub mod rescene;
pub mod shell;
pub mod turn;
pub mod typing;
pub mod window;
