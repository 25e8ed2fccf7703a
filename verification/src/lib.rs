//! Feed-to-ranked-view pipeline: field extraction from item descriptions,
//! scoring, stable ranking, markup rendering and stream composition.

pub mod content;
pub mod extract;
pub mod feed;
pub mod html;
pub mod rank;
pub mod score;
pub mod stream;
pub mod template;
pub mod text;
pub mod view;
