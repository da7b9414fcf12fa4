//! One post of yande.re as its JSON API returns it.

use vstd::prelude::*;

use serde_json::Value;

verus! {

/// A JSON value, kept as it came.
#[verifier::external_type_specification]
#[verifier::external_body]
pub struct ExValue(Value);

/// A post: its identity, tags, files, sizes and state.
#[derive(Default, Debug, Clone, PartialEq)]
pub struct Yandere {
    pub id: i64,
    pub tags: String,
    pub created_at: Option<i64>,
    pub updated_at: Option<i64>,
    pub creator_id: Option<i64>,
    pub approver_id: Option<i64>,
    pub author: String,
    pub change: Option<i64>,
    pub source: Option<String>,
    pub score: Option<i64>,
    pub md5: String,
    pub file_size: i64,
    pub file_ext: String,
    pub file_url: String,
    pub is_shown_in_index: bool,
    pub preview_url: String,
    pub preview_width: i64,
    pub preview_height: i64,
    pub actual_preview_width: i64,
    pub actual_preview_height: i64,
    pub sample_url: String,
    pub sample_width: i64,
    pub sample_height: i64,
    pub sample_file_size: i64,
    pub jpeg_url: String,
    pub jpeg_width: i64,
    pub jpeg_height: i64,
    pub jpeg_file_size: i64,
    pub rating: String,
    pub is_rating_locked: bool,
    pub has_children: bool,
    pub parent_id: Option<i64>,
    pub status: String,
    pub is_pending: bool,
    pub width: i64,
    pub height: i64,
    pub is_held: bool,
    pub frames_pending_string: String,
    pub frames_pending: Vec<Value>,
    pub frames_string: String,
    pub frames: Vec<Value>,
    pub is_note_locked: bool,
    pub last_noted_at: i64,
    pub last_commented_at: i64,
}

} // verus!
