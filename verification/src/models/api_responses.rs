//! One image as a site's configured parser describes it.

use vstd::prelude::*;

verus! {

/// An image: its identity, tags, rating, files and their sizes.
#[derive(Default, Debug, Clone, PartialEq)]
pub struct APIResponse {
    pub id: i64,
    pub tags: Vec<String>,
    pub created_at: i64,
    pub author: Option<String>,
    pub rating: String,
    pub score: Option<i64>,
    pub md5: String,
    pub file_ext: String,
    pub file_url: String,
    pub sample_url: String,
    pub preview_url: String,
    pub width: i64,
    pub height: i64,
    pub sample_width: i64,
    pub sample_height: i64,
    pub preview_width: i64,
    pub preview_height: i64,
    pub file_size: i64,
    pub sample_file_size: i64,
    pub jpeg_url: Option<String>,
    pub jpeg_width: Option<i64>,
    pub jpeg_height: Option<i64>,
    pub jpeg_file_size: Option<i64>,
    pub has_children: bool,
    pub parent_id: Option<i64>,
}

} // verus!
