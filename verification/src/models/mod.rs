//! Records returned by image boards.

pub mod api_responses;
pub mod yandere;
