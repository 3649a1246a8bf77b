//! A directory tree shown as nested panels: the tree model, the layout of its
//! panels, the cursor that walks it and the status colours laid over it.

pub mod geometry;
pub mod layout;
pub mod layout_laws;
pub mod navigation;
pub mod navigation_laws;
pub mod overlay;
pub mod packing;
pub mod packing_laws;
pub mod packing_lemmas;
pub mod paths;
pub mod preload;
pub mod render;
pub mod status;
pub mod tree;
pub mod walk;
