use vstd::prelude::*;

use super::inner::CacheModel;
use super::posts::{is_poster, Held, Post};
use super::store::{release_all, released, Cache};
use super::tags::Tag;
use crate::model::{ObjectInfo, ObjectPreview, PostInfo, PostPreview, TagPreview, Visibility};
use super::comment::{shows_user, user_preview};
use super::objects::Object;
use super::posts::object_preview;
use super::posts::shows_object;
use super::users::User;

verus! {

/// Whether the live post behind `h` shows a preview to `user`: it is not
/// deleted, and it is not a draft of someone else.
pub open spec fn post_shown(posts: CacheModel<Post>, h: u64, user: Option<Held>) -> bool {
    &&& posts.slots.contains_key(h)
    &&& posts.slots[h].value.mutable@ matches Some(m) && (m.visibility != Visibility::Draft || is_poster(
        posts.slots[h].value,
        user,
    ))
    &&& posts.slots[h].value.mutable@->0.objects@.len() <= u32::MAX
}

/// The IDs of the posts behind `hs` that show a preview to `user`, in order.
pub open spec fn shown_posts(posts: CacheModel<Post>, hs: Seq<u64>, user: Option<Held>) -> Seq<u128>
    decreases hs.len(),
{
    if hs.len() == 0 {
        Seq::empty()
    } else {
        let rest = shown_posts(posts, hs.drop_last(), user);
        if post_shown(posts, hs.last(), user) {
            rest.push(posts.slots[hs.last()].value.id)
        } else {
            rest
        }
    }
}

/// Whether the live tag behind `h` shows a preview: it is not deleted.
pub open spec fn tag_shown(tags: CacheModel<Tag>, h: u64) -> bool {
    tags.slots.contains_key(h) && tags.slots[h].value.mutable@ is Some
}

/// The IDs of the tags behind `hs` that show a preview, in order.
pub open spec fn shown_tags(tags: CacheModel<Tag>, hs: Seq<u64>) -> Seq<u128>
    decreases hs.len(),
{
    if hs.len() == 0 {
        Seq::empty()
    } else {
        let rest = shown_tags(tags, hs.drop_last());
        if tag_shown(tags, hs.last()) {
            rest.push(tags.slots[hs.last()].value.id)
        } else {
            rest
        }
    }
}

/// The handles among `hs` whose posts show a preview to `user`, in order.
pub open spec fn shown_post_handles(posts: CacheModel<Post>, hs: Seq<u64>, user: Option<Held>) -> Seq<u64>
    decreases hs.len(),
{
    if hs.len() == 0 {
        Seq::empty()
    } else {
        let rest = shown_post_handles(posts, hs.drop_last(), user);
        if post_shown(posts, hs.last(), user) {
            rest.push(hs.last())
        } else {
            rest
        }
    }
}

/// `p` is the preview of the live post behind `h`: its ID, title, counts and
/// creation time, its poster as the user cache shows it, and its first
/// object as the object cache shows it.
pub open spec fn shows_post(
    posts: CacheModel<Post>,
    users: CacheModel<User>,
    objects: CacheModel<Object>,
    h: u64,
    p: PostPreview,
) -> bool {
    let post = posts.slots[h].value;
    let m = post.mutable@->0;
    &&& p.id == post.id
    &&& p.title@ == m.title@
    &&& p.comment_count == m.comment_count
    &&& p.object_count == m.objects@.len()
    &&& p.created == m.created
    &&& shows_user(users, post.poster_handle(), p.poster)
    &&& if m.objects@.len() == 0 {
        p.preview is None
    } else {
        shows_object(objects, m.objects@[0], p.preview)
    }
}

/// The handles among `hs` whose tags show a preview, in order.
pub open spec fn shown_tag_handles(tags: CacheModel<Tag>, hs: Seq<u64>) -> Seq<u64>
    decreases hs.len(),
{
    if hs.len() == 0 {
        Seq::empty()
    } else {
        let rest = shown_tag_handles(tags, hs.drop_last());
        if tag_shown(tags, hs.last()) {
            rest.push(hs.last())
        } else {
            rest
        }
    }
}

/// `p` is the preview of the live tag behind `h`: its ID, name and avatar.
pub open spec fn shows_tag(tags: CacheModel<Tag>, h: u64, p: TagPreview) -> bool {
    let t = tags.slots[h].value;
    let m = t.mutable@->0;
    p.id == t.id && p.name@ == m.profile.name@ && p.avatar == m.profile.avatar
}

impl Cache {
    /// The previews that the posts behind `handles` show to `user` (see
    /// `Post::preview`), in order; the handles are let go afterwards.
    pub fn post_previews(&mut self, handles: Vec<u64>, user: Option<Held>) -> (previews: Vec<PostPreview>)
        requires
            old(self).wf(),
        ensures
            final(self).wf(),
            previews@.map_values(|p: PostPreview| p.id) == shown_posts(old(self).posts@, handles@, user),
            previews@.len() == shown_post_handles(old(self).posts@, handles@, user).len(),
            forall|k: int|
                0 <= k < previews@.len() ==> shows_post(
                    old(self).posts@,
                    old(self).users@,
                    old(self).objects@,
                    shown_post_handles(old(self).posts@, handles@, user)[k],
                    #[trigger] previews@[k],
                ),
            final(self).posts@ == released(old(self).posts@, handles@),
            final(self).users == old(self).users,
            final(self).tags == old(self).tags,
            final(self).objects == old(self).objects,
            final(self).comments == old(self).comments,
    {
        let mut previews: Vec<PostPreview> = Vec::new();
        let mut i: usize = 0;
        while i < handles.len()
            invariant
                0 <= i <= handles@.len(),
                self == old(self),
                previews@.map_values(|p: PostPreview| p.id) == shown_posts(self.posts@, handles@.take(i as int), user),
                previews@.len() == shown_post_handles(self.posts@, handles@.take(i as int), user).len(),
                forall|k: int|
                    0 <= k < previews@.len() ==> shows_post(
                        self.posts@,
                        self.users@,
                        self.objects@,
                        shown_post_handles(self.posts@, handles@.take(i as int), user)[k],
                        #[trigger] previews@[k],
                    ),
            decreases handles@.len() - i,
        {
            let h = handles[i];
            proof {
                assert(handles@.take(i + 1).drop_last() =~= handles@.take(i as int));
                assert(handles@.take(i + 1).last() == h);
            }
            let ghost before = previews@;
            match self.posts.value(h) {
                Some(post) => {
                    let fits = match post.mutable.get() {
                        Some(m) => m.objects.len() <= 0xffff_ffff,
                        None => false,
                    };
                    if fits {
                        match post.preview(user, &self.users, &self.objects) {
                            Some(p) => {
                                previews.push(p);
                                proof {
                                    assert(previews@.map_values(|p: PostPreview| p.id) =~= before.map_values(
                                        |p: PostPreview| p.id,
                                    ).push(post.id));
                                }
                            },
                            None => {},
                        }
                    }
                },
                None => {},
            }
            i += 1;
        }
        proof {
            assert(handles@.take(i as int) =~= handles@);
        }
        release_all(&mut self.posts, &handles);
        previews
    }

    /// The previews of the tags behind `handles` that are not deleted, in
    /// order; the handles are let go afterwards.
    pub fn tag_previews(&mut self, handles: Vec<u64>) -> (previews: Vec<TagPreview>)
        requires
            old(self).wf(),
        ensures
            final(self).wf(),
            previews@.map_values(|p: TagPreview| p.id) == shown_tags(old(self).tags@, handles@),
            previews@.len() == shown_tag_handles(old(self).tags@, handles@).len(),
            forall|k: int|
                0 <= k < previews@.len() ==> shows_tag(
                    old(self).tags@,
                    shown_tag_handles(old(self).tags@, handles@)[k],
                    #[trigger] previews@[k],
                ),
            final(self).tags@ == released(old(self).tags@, handles@),
            final(self).users == old(self).users,
            final(self).posts == old(self).posts,
            final(self).objects == old(self).objects,
            final(self).comments == old(self).comments,
    {
        let mut previews: Vec<TagPreview> = Vec::new();
        let mut i: usize = 0;
        while i < handles.len()
            invariant
                0 <= i <= handles@.len(),
                self == old(self),
                previews@.map_values(|p: TagPreview| p.id) == shown_tags(self.tags@, handles@.take(i as int)),
                previews@.len() == shown_tag_handles(self.tags@, handles@.take(i as int)).len(),
                forall|k: int|
                    0 <= k < previews@.len() ==> shows_tag(
                        self.tags@,
                        shown_tag_handles(self.tags@, handles@.take(i as int))[k],
                        #[trigger] previews@[k],
                    ),
            decreases handles@.len() - i,
        {
            let h = handles[i];
            proof {
                assert(handles@.take(i + 1).drop_last() =~= handles@.take(i as int));
                assert(handles@.take(i + 1).last() == h);
            }
            let ghost before = previews@;
            match self.tags.value(h) {
                Some(tag) => match tag.preview() {
                    Some(p) => {
                        previews.push(p);
                        proof {
                            assert(previews@.map_values(|p: TagPreview| p.id) =~= before.map_values(
                                |p: TagPreview| p.id,
                            ).push(tag.id));
                        }
                    },
                    None => {},
                },
                None => {},
            }
            i += 1;
        }
        proof {
            assert(handles@.take(i as int) =~= handles@);
        }
        release_all(&mut self.tags, &handles);
        previews
    }
}

/// The IDs of the live objects behind `hs`, in order.
pub open spec fn shown_objects(objects: CacheModel<Object>, hs: Seq<u64>) -> Seq<u128>
    decreases hs.len(),
{
    if hs.len() == 0 {
        Seq::empty()
    } else {
        let rest = shown_objects(objects, hs.drop_last());
        if objects.slots.contains_key(hs.last()) {
            rest.push(objects.slots[hs.last()].value.id)
        } else {
            rest
        }
    }
}

/// The handles among `hs` of live objects, in order.
pub open spec fn shown_object_handles(objects: CacheModel<Object>, hs: Seq<u64>) -> Seq<u64>
    decreases hs.len(),
{
    if hs.len() == 0 {
        Seq::empty()
    } else {
        let rest = shown_object_handles(objects, hs.drop_last());
        if objects.slots.contains_key(hs.last()) {
            rest.push(hs.last())
        } else {
            rest
        }
    }
}

/// `previews` are, in order, the previews of the live objects behind `hs`
/// (see `shows_object`).
pub open spec fn shows_objects(objects: CacheModel<Object>, hs: Seq<u64>, previews: Seq<ObjectPreview>) -> bool {
    &&& previews.len() == shown_object_handles(objects, hs).len()
    &&& forall|k: int|
        0 <= k < previews.len() ==> shows_object(
            objects,
            shown_object_handles(objects, hs)[k],
            Some(#[trigger] previews[k]),
        )
}

/// `previews` are, in order, the previews of the live, undeleted tags behind
/// `hs` (see `shows_tag`).
pub open spec fn shows_tags(tags: CacheModel<Tag>, hs: Seq<u64>, previews: Seq<TagPreview>) -> bool {
    &&& previews.len() == shown_tag_handles(tags, hs).len()
    &&& forall|k: int| 0 <= k < previews.len() ==> shows_tag(tags, shown_tag_handles(tags, hs)[k], #[trigger] previews[k])
}

impl Cache {
    /// The previews of the live objects behind `handles`, in order.
    pub fn object_previews(&self, handles: &Vec<u64>) -> (previews: Vec<ObjectPreview>)
        ensures
            previews@.map_values(|p: ObjectPreview| p.id) == shown_objects(self.objects@, handles@),
            shows_objects(self.objects@, handles@, previews@),
    {
        let mut previews: Vec<ObjectPreview> = Vec::new();
        let mut i: usize = 0;
        while i < handles.len()
            invariant
                0 <= i <= handles@.len(),
                previews@.map_values(|p: ObjectPreview| p.id) == shown_objects(self.objects@, handles@.take(i as int)),
                shows_objects(self.objects@, handles@.take(i as int), previews@),
            decreases handles@.len() - i,
        {
            let h = handles[i];
            proof {
                assert(handles@.take(i + 1).drop_last() =~= handles@.take(i as int));
                assert(handles@.take(i + 1).last() == h);
            }
            let ghost before = previews@;
            match object_preview(&self.objects, h) {
                Some(p) => {
                    previews.push(p);
                    proof {
                        assert(previews@.map_values(|p: ObjectPreview| p.id) =~= before.map_values(
                            |p: ObjectPreview| p.id,
                        ).push(self.objects@.slots[h].value.id));
                    }
                },
                None => {},
            }
            i += 1;
        }
        proof {
            assert(handles@.take(i as int) =~= handles@);
        }
        previews
    }

    /// The previews of the tags behind `handles` that are live and not
    /// deleted, in order.
    pub fn live_tag_previews(&self, handles: &Vec<u64>) -> (previews: Vec<TagPreview>)
        ensures
            previews@.map_values(|p: TagPreview| p.id) == shown_tags(self.tags@, handles@),
            shows_tags(self.tags@, handles@, previews@),
    {
        let mut previews: Vec<TagPreview> = Vec::new();
        let mut i: usize = 0;
        while i < handles.len()
            invariant
                0 <= i <= handles@.len(),
                previews@.map_values(|p: TagPreview| p.id) == shown_tags(self.tags@, handles@.take(i as int)),
                shows_tags(self.tags@, handles@.take(i as int), previews@),
            decreases handles@.len() - i,
        {
            let h = handles[i];
            proof {
                assert(handles@.take(i + 1).drop_last() =~= handles@.take(i as int));
                assert(handles@.take(i + 1).last() == h);
            }
            let ghost before = previews@;
            match self.tags.value(h) {
                Some(tag) => match tag.preview() {
                    Some(p) => {
                        previews.push(p);
                        proof {
                            assert(previews@.map_values(|p: TagPreview| p.id) =~= before.map_values(
                                |p: TagPreview| p.id,
                            ).push(tag.id));
                        }
                    },
                    None => {},
                },
                None => {},
            }
            i += 1;
        }
        proof {
            assert(handles@.take(i as int) =~= handles@);
        }
        previews
    }

    /// The post behind `handle` with everything it shows, given the
    /// previews of its related posts: nothing once it is deleted.
    pub fn post_model(&self, handle: u64, posts: Vec<PostPreview>) -> (info: Option<PostInfo>)
        ensures
            !(self.posts@.slots.contains_key(handle) && self.posts@.slots[handle].value.mutable@ is Some)
                ==> info is None,
            self.posts@.slots.contains_key(handle) && self.posts@.slots[handle].value.mutable@ is Some ==> {
                let post = self.posts@.slots[handle].value;
                let m = post.mutable@->0;
                &&& info matches Some(i)
                &&& info->0.id == post.id
                &&& shows_user(self.users@, post.poster_handle(), info->0.poster)
                &&& info->0.title@ == m.title@
                &&& info->0.description@ == m.description@
                &&& info->0.visibility == m.visibility
                &&& info->0.created == m.created
                &&& info->0.modified == m.modified
                &&& info->0.comment_count == m.comment_count
                &&& info->0.posts == posts
                &&& info->0.objects@.map_values(|p: ObjectPreview| p.id) == shown_objects(self.objects@, m.objects@)
                &&& shows_objects(self.objects@, m.objects@, info->0.objects@)
                &&& info->0.tags@.map_values(|p: TagPreview| p.id) == shown_tags(self.tags@, m.tags@)
                &&& shows_tags(self.tags@, m.tags@, info->0.tags@)
            },
    {
        match self.posts.value(handle) {
            Some(post) => match post.mutable.get() {
                Some(m) => {
                    let poster = match post.poster {
                        Some(p) => user_preview(&self.users, Some(p.handle)),
                        None => None,
                    };
                    Some(
                        PostInfo {
                            id: post.id,
                            poster,
                            title: m.title.clone(),
                            description: m.description.clone(),
                            visibility: m.visibility,
                            created: m.created,
                            modified: m.modified,
                            objects: self.object_previews(&m.objects),
                            posts,
                            tags: self.live_tag_previews(&m.tags),
                            comment_count: m.comment_count,
                        },
                    )
                },
                None => None,
            },
            None => None,
        }
    }

    /// The object behind `handle` with the previews of the posts it appears
    /// in, if it is live.
    pub fn object_model(&self, handle: u64, posts: Vec<PostPreview>) -> (info: Option<ObjectInfo>)
        ensures
            !self.objects@.slots.contains_key(handle) ==> info is None,
            self.objects@.slots.contains_key(handle) ==> {
                let o = self.objects@.slots[handle].value;
                &&& info matches Some(i)
                &&& info->0.id == o.id
                &&& info->0.hash@ == o.hash@
                &&& info->0.size == o.size
                &&& info->0.media_type@ == o.media_type@
                &&& info->0.subtype@ == o.subtype@
                &&& info->0.added == o.added
                &&& info->0.preview_id == o.preview_id
                &&& info->0.posts == posts
            },
    {
        match self.objects.value(handle) {
            Some(o) => Some(
                ObjectInfo {
                    id: o.id,
                    hash: o.hash.clone(),
                    size: o.size,
                    media_type: o.media_type.clone(),
                    subtype: o.subtype.clone(),
                    added: o.added,
                    preview_id: o.preview_id,
                    posts,
                },
            ),
            None => None,
        }
    }
}

} // verus!
