use vstd::prelude::*;

use crate::model;

verus! {

/// A comment as the database stores it.
#[derive(Debug)]
pub struct Comment {
    pub id: u128,
    pub user_id: Option<u128>,
    pub post_id: u128,
    pub parent_id: Option<u128>,
    pub level: u16,
    pub content: String,
    pub created: i64,
}

impl Clone for Comment {
    fn clone(&self) -> (copy: Self)
        ensures
            copy == *self,
    {
        Comment {
            id: self.id,
            user_id: self.user_id,
            post_id: self.post_id,
            parent_id: self.parent_id,
            level: self.level,
            content: self.content.clone(),
            created: self.created,
        }
    }
}

#[derive(Clone, Debug)]
pub struct EntityProfile {
    pub name: String,
    pub aliases: Vec<String>,
    pub description: String,
    pub sources: Vec<model::Source>,
    pub avatar: Option<u128>,
    pub banner: Option<u128>,
    pub created: i64,
}

impl EntityProfile {
    pub fn into_model(self) -> (profile: model::EntityProfile)
        ensures
            profile.name == self.name,
            profile.aliases == self.aliases,
            profile.description == self.description,
            profile.sources == self.sources,
            profile.avatar == self.avatar,
            profile.banner == self.banner,
            profile.created == self.created,
    {
        model::EntityProfile {
            name: self.name,
            aliases: self.aliases,
            description: self.description,
            sources: self.sources,
            avatar: self.avatar,
            banner: self.banner,
            created: self.created,
        }
    }
}

#[derive(Clone, Debug)]
pub struct User {
    pub id: u128,
    pub email: String,
    pub admin: bool,
    pub profile: EntityProfile,
    pub post_count: u32,
    pub comment_count: u32,
    pub tag_count: u32,
}

#[derive(Clone, Debug)]
pub struct Tag {
    pub id: u128,
    pub profile: EntityProfile,
    pub creator: Option<u128>,
    pub post_count: u32,
}

#[derive(Clone, Debug)]
pub struct Object {
    pub id: u128,
    pub preview_id: Option<u128>,
    pub posts: Vec<u128>,
}

#[derive(Clone, Debug)]
pub struct Post {
    pub id: u128,
    pub poster: Option<u128>,
    pub title: String,
    pub description: String,
    pub objects: Vec<u128>,
    pub posts: Vec<u128>,
    pub tags: Vec<u128>,
    pub comment_count: u32,
    pub visibility: Visibility,
    pub created: i64,
    pub modified: i64,
}

/// What the search index stores of a post.
#[derive(Clone, Debug)]
pub struct PostSearch {
    pub id: u128,
    pub poster: Option<u128>,
    pub title: String,
    pub description: String,
    pub visibility: Visibility,
    pub created: i64,
    pub modified: i64,
    pub tags: Vec<u128>,
}

impl Post {
    /// The post's searchable fields.
    pub fn search(&self) -> (search: PostSearch)
        ensures
            search.id == self.id,
            search.poster == self.poster,
            search.title@ == self.title@,
            search.description@ == self.description@,
            search.visibility == self.visibility,
            search.created == self.created,
            search.modified == self.modified,
            search.tags@ == self.tags@,
    {
        PostSearch {
            id: self.id,
            poster: self.poster,
            title: self.title.clone(),
            description: self.description.clone(),
            visibility: self.visibility,
            created: self.created,
            modified: self.modified,
            tags: self.tags.clone(),
        }
    }
}

/// A stored sign-in session.
#[derive(Clone, Debug)]
pub struct Session {
    pub user_id: u128,
    pub expiration: i64,
}

/// A post's visibility as the database names it.
#[derive(Clone, Copy, Debug, PartialEq, Eq, Structural)]
pub enum Visibility {
    Draft,
    Public,
}

impl Visibility {
    pub fn from_minty(value: model::Visibility) -> (result: Self)
        ensures
            (value == model::Visibility::Draft) == (result == Visibility::Draft),
    {
        match value {
            model::Visibility::Draft => Visibility::Draft,
            model::Visibility::Public => Visibility::Public,
        }
    }

    pub fn into_minty(self) -> (result: model::Visibility)
        ensures
            (self == Visibility::Draft) == (result == model::Visibility::Draft),
    {
        match self {
            Visibility::Draft => model::Visibility::Draft,
            Visibility::Public => model::Visibility::Public,
        }
    }

    pub fn as_str(&self) -> (name: &'static str)
        ensures
            name@ == (match self {
                Visibility::Draft => "draft"@,
                Visibility::Public => "public"@,
            }),
    {
        match self {
            Visibility::Draft => "draft",
            Visibility::Public => "public",
        }
    }
}

/// A profile's name and aliases.
#[derive(Clone, Debug)]
pub struct ProfileName {
    pub name: String,
    pub aliases: Vec<String>,
}

impl ProfileName {
    pub fn into_model(self) -> (names: model::ProfileName)
        ensures
            names.name == self.name,
            names.aliases == self.aliases,
    {
        model::ProfileName { name: self.name, aliases: self.aliases }
    }
}

/// A profile's names after a rename, with the name it replaced, if the
/// new name was not already one of its aliases.
#[derive(Clone, Debug)]
pub struct ProfileNameUpdate {
    pub names: ProfileName,
    pub old_name: Option<String>,
}

impl User {
    pub fn into_model(self) -> (user: model::UserInfo)
        ensures
            user.id == self.id,
            user.email == self.email,
            user.admin == self.admin,
            user.profile.name == self.profile.name,
            user.profile.aliases == self.profile.aliases,
            user.profile.description == self.profile.description,
            user.profile.created == self.profile.created,
            user.post_count == self.post_count,
            user.comment_count == self.comment_count,
            user.tag_count == self.tag_count,
    {
        model::UserInfo {
            id: self.id,
            email: self.email,
            admin: self.admin,
            profile: self.profile.into_model(),
            post_count: self.post_count,
            comment_count: self.comment_count,
            tag_count: self.tag_count,
        }
    }
}

/// Why an object's preview could not be made.
#[derive(Clone, Debug)]
pub struct ObjectError {
    pub id: u128,
    pub message: String,
}

impl ObjectError {
    pub fn into_model(self) -> (error: model::ObjectError)
        ensures
            error.id == self.id,
            error.message == self.message,
    {
        model::ObjectError { id: self.id, message: self.message }
    }
}

} // verus!
