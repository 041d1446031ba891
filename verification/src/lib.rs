//! Layout, text measurement and view-model logic of the Andamento workflow sidebar.

pub mod width;
pub mod text;
pub mod inline_layout;
pub mod segment_bar;
pub mod model;
pub mod stats;
pub mod render;
pub mod border;
pub mod rail;
pub mod cards;
pub mod viewport;
pub mod footer;
pub mod template_fields;
pub mod metadata_block;
pub mod group_header;
