//! Core logic of an interactive, terminal-rendered Mandelbrot explorer.
//!
//! The crate holds the incremental viewport renderer: a toroidal pixel
//! buffer with a rotating origin, the partitioning and result-application
//! logic of the parallel render pass, the zoom-time pixel-salvage
//! heuristic, frame assembly, and the status-bar overlay layout.
//! Floating-point plane arithmetic, terminal I/O and thread plumbing live
//! in the surrounding binary, which feeds this crate plain values.

pub mod buffer;
pub mod frame;
pub mod input;
pub mod pixel;
pub mod salvage;
pub mod scheduler;
pub mod status_bar;

pub use buffer::Buffer;
pub use buffer::Direction;
pub use frame::render_frame;
pub use input::get_char;
pub use pixel::Classification;
pub use pixel::CoreError;
pub use pixel::Pixel;
pub use salvage::in_range;
pub use salvage::salvage;
pub use salvage::salvage_cell;
pub use scheduler::apply_results;
pub use scheduler::collect_recompute_coords;
pub use scheduler::complete_render_pass;
pub use scheduler::make_chunks;
pub use status_bar::clear_stat_bar;
pub use status_bar::render_status_bar;
