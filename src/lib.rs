//! Search-results scraping: extraction of ranked result links from a
//! results page and of heading text from each linked page.

pub mod text;
pub mod extract;
pub mod document;
pub mod serp;
