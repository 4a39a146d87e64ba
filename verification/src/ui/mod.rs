pub mod bar;
pub mod editor;
pub mod export;
pub mod fileview;
pub mod highlight;
pub mod paint;
pub mod picker;
pub mod popups;
pub mod review;
pub mod rows;
pub mod selection_laws;
pub mod stream_laws;
pub mod stream_view;
pub mod style;
pub mod tree;
pub mod width;
pub mod wrap;
