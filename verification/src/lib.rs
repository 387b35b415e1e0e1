//! Core logic of the baldej game framework: registries, input bindings,
//! save bookkeeping, networking decisions and the other engine rules that
//! do not depend on rendering or floating point.

pub mod objects;
pub mod model_object;
pub mod string_map;
pub mod input;
pub mod assets;
pub mod shaders;
pub mod saves;
pub mod networking;
pub mod client_id;
pub mod physics;
pub mod render_order;
pub mod framework;
pub mod ui;
pub mod navigation;
