//! Product records.

use vstd::prelude::*;

verus! {

/// What the crawl records of one product: its identifier, name, tags and
/// price in hundredths of the currency unit. Records are told apart by their
/// identifier alone.
#[derive(Clone, Debug)]
pub struct App {
    pub id: u32,
    pub name: String,
    pub tags: Vec<String>,
    pub price: u64,
}

impl App {
    pub fn new(id: u32, name: String, tags: Vec<String>, price: u64) -> (r: App)
        ensures
            r.id == id,
            r.name == name,
            r.tags == tags,
            r.price == price,
    {
        App { id, name, tags, price }
    }
}

} // verus!
