use vstd::prelude::*;

verus! {

/// Who may see a post.
#[derive(Clone, Copy, Debug, PartialEq, Eq, Structural)]
pub enum Visibility {
    Draft,
    Public,
}

/// A link to an entity elsewhere on the web.
#[derive(Clone, Debug)]
pub struct Source {
    pub id: i64,
    pub url: String,
    pub icon: Option<u128>,
}

/// The public profile of a user or a tag.
#[derive(Clone, Debug)]
pub struct EntityProfile {
    pub name: String,
    pub aliases: Vec<String>,
    pub description: String,
    pub sources: Vec<Source>,
    pub avatar: Option<u128>,
    pub banner: Option<u128>,
    pub created: i64,
}

#[derive(Clone, Debug)]
pub struct UserPreview {
    pub id: u128,
    pub name: String,
    pub avatar: Option<u128>,
}

#[derive(Clone, Debug)]
pub struct TagPreview {
    pub id: u128,
    pub name: String,
    pub avatar: Option<u128>,
}

#[derive(Clone, Debug)]
pub struct ObjectPreview {
    pub id: u128,
    pub preview_id: Option<u128>,
    pub media_type: String,
    pub subtype: String,
}

#[derive(Clone, Debug)]
pub struct PostPreview {
    pub id: u128,
    pub poster: Option<UserPreview>,
    pub title: String,
    pub preview: Option<ObjectPreview>,
    pub comment_count: u32,
    pub object_count: u32,
    pub created: i64,
}

/// A comment as it appears in a thread.
#[derive(Clone, Debug)]
pub struct CommentData {
    pub id: u128,
    pub user: Option<UserPreview>,
    pub content: String,
    pub level: u8,
    pub created: i64,
}

/// A single comment, with the post and the parent it belongs to.
#[derive(Clone, Debug)]
pub struct CommentInfo {
    pub id: u128,
    pub user: Option<UserPreview>,
    pub post_id: u128,
    pub parent_id: Option<u128>,
    pub level: u8,
    pub content: String,
    pub created: i64,
}

#[derive(Clone, Debug)]
pub struct UserInfo {
    pub id: u128,
    pub email: String,
    pub admin: bool,
    pub profile: EntityProfile,
    pub post_count: u32,
    pub comment_count: u32,
    pub tag_count: u32,
}

#[derive(Clone, Debug)]
pub struct TagInfo {
    pub id: u128,
    pub profile: EntityProfile,
    pub creator: Option<UserPreview>,
    pub post_count: u32,
}

/// A profile's name and aliases.
#[derive(Clone, Debug)]
pub struct ProfileName {
    pub name: String,
    pub aliases: Vec<String>,
}

/// What the server says about itself.
#[derive(Clone, Copy, Debug)]
pub struct About {
    pub version: &'static str,
}

/// The claims of an invitation to sign up: the inviting user.
#[derive(Clone, Copy, Debug)]
pub struct Invitation {
    sub: u128,
}

impl Invitation {
    pub closed spec fn subject(&self) -> u128 {
        self.sub
    }

    pub fn new(user: u128) -> (invitation: Self)
        ensures
            invitation.subject() == user,
    {
        Invitation { sub: user }
    }

    pub fn user(&self) -> (user: u128)
        ensures
            user == self.subject(),
    {
        self.sub
    }
}

/// A new session, for its cookie: the ID, the user, and how long it lasts,
/// in seconds.
#[derive(Clone, Copy, Debug)]
pub struct SessionInfo {
    pub id: crate::auth::SessionId,
    pub user_id: u128,
    pub max_age: i64,
}

/// A post with everything it shows.
#[derive(Clone, Debug)]
pub struct PostInfo {
    pub id: u128,
    pub poster: Option<UserPreview>,
    pub title: String,
    pub description: String,
    pub visibility: Visibility,
    pub created: i64,
    pub modified: i64,
    pub objects: Vec<ObjectPreview>,
    pub posts: Vec<PostPreview>,
    pub tags: Vec<TagPreview>,
    pub comment_count: u32,
}

/// An object with the posts it appears in.
#[derive(Clone, Debug)]
pub struct ObjectInfo {
    pub id: u128,
    pub hash: String,
    pub size: u64,
    pub media_type: String,
    pub subtype: String,
    pub added: i64,
    pub preview_id: Option<u128>,
    pub posts: Vec<PostPreview>,
}

/// Why an object's preview could not be made.
#[derive(Clone, Debug)]
pub struct ObjectError {
    pub id: u128,
    pub message: String,
}

} // verus!
