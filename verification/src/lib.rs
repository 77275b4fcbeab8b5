//! The verified half of a file browser's disk map and its local-model chat.

pub mod cells;
pub mod fit;
pub mod fit_laws;
pub mod hub;
pub mod kind;
pub mod map_laws;
pub mod model_file;
pub mod model_laws;
pub mod paint;
pub mod paint_laws;
pub mod path;
pub mod path_laws;
pub mod prompt;
pub mod prompt_laws;
pub mod scan;
pub mod shape_laws;
pub mod text;
pub mod text_laws;
pub mod tool_call;
pub mod tool_call_laws;
pub mod tree;
pub mod tree_laws;
pub mod view;
pub mod view_laws;
pub mod view_ref;
pub mod worker;
pub mod worker_laws;
