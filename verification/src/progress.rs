//! Progress reporting for the mutation-testing pipeline.
pub mod event;
pub mod phase;
pub mod render;
pub mod reporter;
pub mod style;

pub use event::SummaryInfo;
pub use reporter::{resolve_render_mode, RenderMode};
pub use style::styled_score;
