pub mod parse;
pub mod point;
pub mod render;

pub use parse::parse_corpus;
pub use point::ParseError;
pub use point::Point;
pub use render::Canvas;
pub use render::render_points;
pub use render::slot_points;
