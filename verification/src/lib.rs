//! A client library for image boards: request builders, the page-counting
//! search that finds how many images a query has, the random sampling of
//! images, the image-count cache and the keys that identify a query.

pub mod api;
pub mod bytes;
pub mod files;
pub mod models;
pub mod text;
