pub mod idx_name;
