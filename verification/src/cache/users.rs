use vstd::prelude::*;

use super::inner::Id;
use super::lock::CacheLock;
use crate::db;
use crate::error::{Error, Result};
use crate::model::{EntityProfile, UserInfo, UserPreview};

verus! {

/// The parts of a user that change.
#[derive(Debug)]
pub struct UserMut {
    pub email: String,
    pub admin: bool,
    pub profile: EntityProfile,
    pub post_count: u32,
    pub comment_count: u32,
    pub tag_count: u32,
}

/// A cached user. Once deleted, it has no state left.
#[derive(Debug)]
pub struct User {
    pub id: u128,
    pub mutable: CacheLock<UserMut>,
}

impl Id for User {
    open spec fn spec_id(&self) -> u128 {
        self.id
    }

    fn id(&self) -> (id: u128) {
        self.id
    }
}

impl User {
    /// The user a database row describes.
    pub fn from_db(value: db::User) -> (user: User)
        ensures
            user.id == value.id,
            user.mutable@ matches Some(m) && m.email == value.email && m.admin == value.admin
                && m.profile.name == value.profile.name && m.post_count == value.post_count
                && m.comment_count == value.comment_count && m.tag_count == value.tag_count,
    {
        User {
            id: value.id,
            mutable: CacheLock::new(
                UserMut {
                    email: value.email,
                    admin: value.admin,
                    profile: value.profile.into_model(),
                    post_count: value.post_count,
                    comment_count: value.comment_count,
                    tag_count: value.tag_count,
                },
            ),
        }
    }

    pub open spec fn spec_is_admin(&self) -> bool {
        self.mutable@ matches Some(m) && m.admin
    }

    /// Whether the user is an administrator; a deleted user is not.
    pub fn is_admin(&self) -> (admin: bool)
        ensures
            admin == self.spec_is_admin(),
    {
        match self.mutable.get() {
            Some(user) => user.admin,
            None => false,
        }
    }

    pub fn is_deleted(&self) -> (deleted: bool)
        ensures
            deleted == (self.mutable@ is None),
    {
        self.mutable.is_deleted()
    }

    /// The user's full description, unless deleted.
    pub fn model(&self) -> (info: Option<UserInfo>)
        ensures
            self.mutable@ is None ==> info is None,
            self.mutable@ matches Some(m) ==> (info matches Some(i) && i.id == self.id && i.email@
                == m.email@ && i.admin == m.admin && i.profile.name@ == m.profile.name@
                && i.post_count == m.post_count && i.comment_count == m.comment_count
                && i.tag_count == m.tag_count),
    {
        match self.mutable.get() {
            Some(user) => Some(
                UserInfo {
                    id: self.id,
                    email: user.email.clone(),
                    admin: user.admin,
                    profile: clone_profile(&user.profile),
                    post_count: user.post_count,
                    comment_count: user.comment_count,
                    tag_count: user.tag_count,
                },
            ),
            None => None,
        }
    }

    /// The user's name and avatar, unless deleted.
    pub fn preview(&self) -> (preview: Option<UserPreview>)
        ensures
            self.mutable@ is None ==> preview is None,
            self.mutable@ matches Some(m) ==> (preview matches Some(p) && p.id == self.id
                && p.name@ == m.profile.name@ && p.avatar == m.profile.avatar),
    {
        match self.mutable.get() {
            Some(user) => Some(
                UserPreview { id: self.id, name: user.profile.name.clone(), avatar: user.profile.avatar },
            ),
            None => None,
        }
    }

    pub fn delete(&mut self)
        ensures
            final(self).id == old(self).id,
            final(self).mutable@ is None,
    {
        self.mutable.delete();
    }

    /// Lets an administrator through; anyone else is refused.
    pub fn deny_permission(&self) -> (result: Result<()>)
        ensures
            self.spec_is_admin() ==> result is Ok,
            !self.spec_is_admin() ==> result matches Err(Error::Unauthorized),
    {
        if self.is_admin() {
            Ok(())
        } else {
            Err(Error::Unauthorized)
        }
    }
}

/// A copy of a profile.
pub fn clone_profile(profile: &EntityProfile) -> (copy: EntityProfile)
    ensures
        copy.name@ == profile.name@,
        copy.description@ == profile.description@,
        copy.avatar == profile.avatar,
        copy.banner == profile.banner,
        copy.created == profile.created,
        copy.aliases@.len() == profile.aliases@.len(),
        copy.sources@.len() == profile.sources@.len(),
{
    EntityProfile {
        name: profile.name.clone(),
        aliases: profile.aliases.clone(),
        description: profile.description.clone(),
        sources: profile.sources.clone(),
        avatar: profile.avatar,
        banner: profile.banner,
        created: profile.created,
    }
}

} // verus!
