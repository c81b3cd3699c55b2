pub mod app;
pub mod dir;
pub mod egui_types;
pub mod input_panel;
pub mod related_struct;
pub mod rename;
pub mod self_trait;
pub mod test_text;
pub mod vec_ops;
pub use rename::idx_name;
pub mod image_item;
pub mod mix_item;
pub mod main_struct;
pub mod file_filter;
pub mod image_load;
