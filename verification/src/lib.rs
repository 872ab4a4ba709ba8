//! Verified core of an image editor: the layered document model with undo and
//! redo, pixel buffers, blend modes, image-format rules and the small binary
//! formats the editor reads and writes.
pub mod bits;
pub mod color;
pub mod error;
pub mod geometry;
pub mod ids;
pub mod layer;
pub mod pixel;
pub mod text;
pub mod format;
pub mod psd;
pub mod tiff;
pub mod mcp;
pub mod models;
pub mod upscaling;
pub mod gpu;
pub mod vector;
pub mod selection;
pub mod brush;
pub mod filters;
pub mod batch;
pub mod project;
pub mod render;
pub mod apply;
pub mod compositor;
pub mod command;
pub mod document;
pub mod session;
pub mod tools;
pub mod tool_defs;
pub mod pipeline;
