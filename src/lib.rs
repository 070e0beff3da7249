//! A breadth-first crawler of a product catalogue whose pages link to one
//! another, with a verified crawl state, scheduling decisions and price
//! normalisation.

pub mod coordinator;
pub mod extract;
pub mod laws;
pub mod links;
pub mod page;
pub mod price;
pub mod product;
pub mod state;
pub mod text;
