//! Bulk deletion of REST resources: list once, delete each listed item once,
//! report every outcome.

pub mod config;
pub mod decode;
pub mod deleter;
pub mod exchange;
pub mod json;
pub mod lister;
pub mod locator;
pub mod model;
pub mod run;

pub use model::{Item, ResponseData};
