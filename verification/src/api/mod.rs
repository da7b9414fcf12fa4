//! Requests to image boards.

pub mod paging;
pub mod requests;
pub mod yandere;
