pub mod anim;
pub mod app;
pub mod automation;
pub mod editor;
pub mod event;
pub mod frame_sink;
pub mod gpu;
pub mod input;
pub mod layer;
pub mod layout;
pub mod lazy_list;
pub mod node;
pub mod num;
pub mod pointing;
pub mod scrolling;
pub mod signal;
