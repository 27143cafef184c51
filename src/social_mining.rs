use vstd::prelude::*;

verus! {

/// The kinds of social action that earn rewards.
#[derive(Debug, Clone, Copy, PartialEq, Eq, Structural)]
pub enum SocialActionType {
    Post,
    Like,
    Comment,
}

/// How many actions of each kind a user has made on `date`.
#[derive(Debug, Clone)]
pub struct DailyLimits {
    pub date: String,
    pub posts: u64,
    pub likes: u64,
    pub comments: u64,
}

#[derive(Debug, Clone)]
pub struct SocialPostRequest {
    pub user_address: String,
    pub post_id: String,
    pub content: String,
}

#[derive(Debug, Clone)]
pub struct SocialLikeRequest {
    pub user_address: String,
    pub post_id: String,
    pub post_author: String,
}

#[derive(Debug, Clone)]
pub struct SocialCommentRequest {
    pub user_address: String,
    pub post_id: String,
    pub post_author: String,
    pub comment_content: String,
}

} // verus!
