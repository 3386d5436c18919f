use vstd::prelude::*;

use super::comment::shows_user;
use super::inner::{Cache, Id};
use super::lock::CacheLock;
use super::posts::Held;
use super::users::{clone_profile, User};
use crate::db;
use crate::error::{Error, Result};
use crate::model::{EntityProfile, TagInfo, TagPreview};

verus! {

/// The parts of a tag that change.
#[derive(Debug)]
pub struct TagMut {
    pub profile: EntityProfile,
    pub post_count: u32,
}

/// A cached tag. Once deleted, it has no state left.
#[derive(Debug)]
pub struct Tag {
    pub id: u128,
    /// The tag's creator, held in the user cache.
    pub creator: Option<Held>,
    pub mutable: CacheLock<TagMut>,
}

impl Id for Tag {
    open spec fn spec_id(&self) -> u128 {
        self.id
    }

    fn id(&self) -> (id: u128) {
        self.id
    }
}

impl Tag {
    /// The tag a database row describes, with its creator.
    pub fn with_creator(tag: db::Tag, creator: Option<Held>) -> (t: Self)
        ensures
            t.id == tag.id,
            t.creator == creator,
            t.mutable@ matches Some(m) && m.post_count == tag.post_count && m.profile.name
                == tag.profile.name,
    {
        Tag {
            id: tag.id,
            creator,
            mutable: CacheLock::new(TagMut { profile: tag.profile.into_model(), post_count: tag.post_count }),
        }
    }

    pub fn is_deleted(&self) -> (deleted: bool)
        ensures
            deleted == (self.mutable@ is None),
    {
        self.mutable.is_deleted()
    }

    /// The tag's full description, unless deleted.
    pub fn model(&self, users: &Cache<User>) -> (info: Option<TagInfo>)
        ensures
            self.mutable@ is None ==> info is None,
            self.mutable@ matches Some(m) ==> (info matches Some(i) && i.id == self.id
                && i.post_count == m.post_count && i.profile.name@ == m.profile.name@
                && shows_user(users@, self.creator_handle(), i.creator)),
    {
        match self.mutable.get() {
            Some(tag) => Some(
                TagInfo {
                    id: self.id,
                    profile: clone_profile(&tag.profile),
                    creator: match self.creator {
                        Some(c) => super::comment::user_preview(users, Some(c.handle)),
                        None => None,
                    },
                    post_count: tag.post_count,
                },
            ),
            None => None,
        }
    }

    pub open spec fn creator_handle(&self) -> Option<u64> {
        match self.creator {
            Some(c) => Some(c.handle),
            None => None,
        }
    }

    /// Lets the creator through; anyone else needs to be an administrator.
    pub fn can_edit(&self, user: Held, users: &Cache<User>) -> (result: Result<()>)
        ensures
            ({
                let admin = users@.slots.contains_key(user.handle) && users@.slots[user.handle].value.spec_is_admin();
                if (self.creator matches Some(c) && c.id == user.id) || admin {
                    result is Ok
                } else {
                    result matches Err(Error::Unauthorized)
                }
            }),
    {
        let is_creator = match self.creator {
            Some(c) => c.id == user.id,
            None => false,
        };
        if is_creator {
            Ok(())
        } else {
            match users.value(user.handle) {
                Some(u) => u.deny_permission(),
                None => Err(Error::Unauthorized),
            }
        }
    }

    /// The tag's name and avatar, unless deleted.
    pub fn preview(&self) -> (preview: Option<TagPreview>)
        ensures
            self.mutable@ is None ==> preview is None,
            self.mutable@ matches Some(m) ==> (preview matches Some(p) && p.id == self.id
                && p.name@ == m.profile.name@ && p.avatar == m.profile.avatar),
    {
        match self.mutable.get() {
            Some(tag) => Some(
                TagPreview { id: self.id, name: tag.profile.name.clone(), avatar: tag.profile.avatar },
            ),
            None => None,
        }
    }
}

} // verus!
