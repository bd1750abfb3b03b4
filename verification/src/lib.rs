//! Core logic of the Rover file manager: path decoding, settings, drives,
//! trash, version control status, the operations queue and the file chooser.
pub mod text;
pub mod path_codec;
pub mod json;
pub mod settings;
pub mod chooser;
pub mod drives;
pub mod order;
pub mod paths;
pub mod operations_queue;
pub mod status_map;
pub mod vcs;
pub mod vcs_git;
pub mod vcs_pig;
pub mod trash;
pub mod fs_ops;
pub mod file_actions;
pub mod portal;
pub mod file_manager_bus;
pub mod web_entry;
pub mod system_status;
pub mod window_shape;
