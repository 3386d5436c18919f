use vstd::prelude::*;

use super::discussion::{lemma_post_unchanged_unless, post_changed};
use super::inner::{Cache as ValueCache, CacheModel};
use super::objects::Object;
use super::posts::{PostMut, Post};
use super::store::{objects_posted, post_objects, release_all, released, Cache};
use super::tags::Tag;

verus! {

/// `hs` split, in order, into the handles that `drop` keeps and those it
/// drops.
pub open spec fn split_handles(hs: Seq<u64>, drop: spec_fn(u64) -> bool) -> (Seq<u64>, Seq<u64>)
    decreases hs.len(),
{
    if hs.len() == 0 {
        (Seq::empty(), Seq::empty())
    } else {
        let (kept, dropped) = split_handles(hs.drop_last(), drop);
        if drop(hs.last()) {
            (kept, dropped.push(hs.last()))
        } else {
            (kept.push(hs.last()), dropped)
        }
    }
}

/// Whether the object behind `h` is live and one of `ids`.
pub open spec fn object_listed(objects: CacheModel<Object>, ids: Seq<u128>, h: u64) -> bool {
    objects.slots.contains_key(h) && ids.contains(objects.slots[h].value.id)
}

/// Whether the tag behind `h` is live and deleted, or live with ID `id`.
pub open spec fn tag_dropped(tags: CacheModel<Tag>, id: Option<u128>, h: u64) -> bool {
    tags.slots.contains_key(h) && (tags.slots[h].value.mutable@ is None || Some(tags.slots[h].value.id) == id)
}

/// Whether `hs` holds a live tag with the ID of the live tag behind `h`.
pub open spec fn holds_tag(tags: CacheModel<Tag>, hs: Seq<u64>, h: u64) -> bool {
    exists|i: int|
        0 <= i < hs.len() && tags.slots.contains_key(hs[i]) && tags.slots.contains_key(h) && #[trigger] tags.slots[hs[i]].value.id
            == tags.slots[h].value.id
}

/// Splits the object handles `hs` into those that are not one of the
/// objects `ids` and those that are.
fn split_objects(objects: &ValueCache<Object>, hs: &Vec<u64>, ids: &Vec<u128>) -> (split: (Vec<u64>, Vec<u64>))
    ensures
        (split.0@, split.1@) == split_handles(hs@, |h: u64| object_listed(objects@, ids@, h)),
{
    let ghost drop = |h: u64| object_listed(objects@, ids@, h);
    let mut kept: Vec<u64> = Vec::new();
    let mut dropped: Vec<u64> = Vec::new();
    let mut i: usize = 0;
    while i < hs.len()
        invariant
            0 <= i <= hs@.len(),
            drop == (|h: u64| object_listed(objects@, ids@, h)),
            (kept@, dropped@) == split_handles(hs@.take(i as int), drop),
        decreases hs@.len() - i,
    {
        let h = hs[i];
        let listed = match objects.value(h) {
            Some(object) => super::objects::contains_id(ids, object.id),
            None => false,
        };
        proof {
            assert(hs@.take(i + 1).drop_last() =~= hs@.take(i as int));
            assert(hs@.take(i + 1).last() == h);
            assert(listed == drop(h));
        }
        if listed {
            dropped.push(h);
        } else {
            kept.push(h);
        }
        i += 1;
    }
    proof {
        assert(hs@.take(i as int) =~= hs@);
    }
    (kept, dropped)
}

/// Splits the tag handles `hs` into those to keep and those that are
/// deleted or have ID `id`.
fn split_tags(tags: &ValueCache<Tag>, hs: &Vec<u64>, id: Option<u128>) -> (split: (Vec<u64>, Vec<u64>))
    ensures
        (split.0@, split.1@) == split_handles(hs@, |h: u64| tag_dropped(tags@, id, h)),
{
    let ghost drop = |h: u64| tag_dropped(tags@, id, h);
    let mut kept: Vec<u64> = Vec::new();
    let mut dropped: Vec<u64> = Vec::new();
    let mut i: usize = 0;
    while i < hs.len()
        invariant
            0 <= i <= hs@.len(),
            drop == (|h: u64| tag_dropped(tags@, id, h)),
            (kept@, dropped@) == split_handles(hs@.take(i as int), drop),
        decreases hs@.len() - i,
    {
        let h = hs[i];
        let gone = match tags.value(h) {
            Some(tag) => tag.is_deleted() || id == Some(tag.id),
            None => false,
        };
        proof {
            assert(hs@.take(i + 1).drop_last() =~= hs@.take(i as int));
            assert(hs@.take(i + 1).last() == h);
            assert(gone == drop(h));
        }
        if gone {
            dropped.push(h);
        } else {
            kept.push(h);
        }
        i += 1;
    }
    proof {
        assert(hs@.take(i as int) =~= hs@);
    }
    (kept, dropped)
}

/// Whether `hs` holds a live tag with the ID of the live tag behind `h`.
fn has_tag(tags: &ValueCache<Tag>, hs: &Vec<u64>, h: u64) -> (found: bool)
    ensures
        found == holds_tag(tags@, hs@, h),
{
    let id = match tags.value(h) {
        Some(tag) => tag.id,
        None => {
            return false;
        },
    };
    let mut i: usize = 0;
    while i < hs.len()
        invariant
            0 <= i <= hs@.len(),
            tags@.slots.contains_key(h),
            id == tags@.slots[h].value.id,
            forall|j: int|
                0 <= j < i ==> !(tags@.slots.contains_key(hs@[j]) && #[trigger] tags@.slots[hs@[j]].value.id == id),
        decreases hs@.len() - i,
    {
        match tags.value(hs[i]) {
            Some(tag) => {
                if tag.id == id {
                    proof {
                        assert(tags@.slots[hs@[i as int]].value.id == tags@.slots[h].value.id);
                    }
                    return true;
                }
            },
            None => {},
        }
        i += 1;
    }
    false
}

impl Cache {
    /// Sets the objects of the post behind `handle` to `objects`, modified
    /// at `modified`: each records the post. The post lets go of the objects
    /// it held; a deleted post keeps none and lets go of the new ones.
    pub fn add_objects(&mut self, handle: u64, objects: Vec<u64>, modified: i64)
        requires
            old(self).wf(),
        ensures
            final(self).wf(),
            final(self).users == old(self).users,
            final(self).tags == old(self).tags,
            final(self).comments == old(self).comments,
            !old(self).posts@.slots.contains_key(handle) ==> final(self).posts@ == old(self).posts@
                && final(self).objects@ == released(old(self).objects@, objects@),
            old(self).posts@.slots.contains_key(handle) ==> {
                let post = old(self).posts@.slots[handle].value;
                &&& post_changed(
                    old(self).posts@,
                    final(self).posts@,
                    handle,
                    |m0: PostMut, m1: PostMut| m1 == (PostMut { objects: objects, modified, ..m0 }),
                )
                &&& exists|recorded: CacheModel<Object>|
                    #![trigger objects_posted(old(self).objects@, recorded, objects@, post.id, true)]
                    objects_posted(old(self).objects@, recorded, objects@, post.id, true)
                        && final(self).objects@ == match post.mutable@ {
                        Some(m0) => released(recorded, m0.objects@),
                        None => released(recorded, objects@),
                    }
            },
    {
        let id = match self.posts.value(handle) {
            Some(post) => post.id,
            None => {
                release_all(&mut self.objects, &objects);
                return ;
            },
        };
        post_objects(&mut self.objects, &objects, id, true);
        let ghost recorded = self.objects@;
        let ghost before_posts = self.posts@;
        let mut objects = objects;
        match self.posts.value_mut(handle) {
            Some(p) => match p.mutable.update() {
                Some(m) => {
                    std::mem::swap(&mut m.objects, &mut objects);
                    m.modified = modified;
                },
                None => {},
            },
            None => {},
        }
        proof {
            lemma_post_unchanged_unless(before_posts, self.posts@, handle);
        }
        release_all(&mut self.objects, &objects);
    }

    /// Removes the objects `ids` from the post behind `handle`, if it is
    /// live and not deleted, modified at `modified`: each removed object
    /// forgets the post and is let go.
    pub fn delete_objects(&mut self, handle: u64, ids: &Vec<u128>, modified: i64)
        requires
            old(self).wf(),
        ensures
            final(self).wf(),
            final(self).users == old(self).users,
            final(self).tags == old(self).tags,
            final(self).comments == old(self).comments,
            match old(self).posts@.slots.contains_key(handle) {
                true => {
                    let post = old(self).posts@.slots[handle].value;
                    match post.mutable@ {
                        Some(m) => {
                            let (kept, dropped) = split_handles(
                                m.objects@,
                                |h: u64| object_listed(old(self).objects@, ids@, h),
                            );
                            &&& post_changed(
                                old(self).posts@,
                                final(self).posts@,
                                handle,
                                |m0: PostMut, m1: PostMut| m1.objects@ == kept && m1 == (PostMut { objects: m1.objects, modified, ..m0 }),
                            )
                            &&& exists|forgot: CacheModel<Object>|
                                #![trigger objects_posted(old(self).objects@, forgot, dropped, post.id, false)]
                                objects_posted(old(self).objects@, forgot, dropped, post.id, false)
                                    && final(self).objects@ == released(forgot, dropped)
                        },
                        None => final(self).posts@ == old(self).posts@ && final(self).objects@ == old(self).objects@,
                    }
                },
                false => final(self).posts@ == old(self).posts@ && final(self).objects@ == old(self).objects@,
            },
    {
        let ghost before_posts = self.posts@;
        let mut dropped: Vec<u64> = Vec::new();
        let mut id: u128 = 0;
        match self.posts.value_mut(handle) {
            Some(p) => {
                id = p.id;
                match p.mutable.update() {
                    Some(m) => {
                        let (kept, removed) = split_objects(&self.objects, &m.objects, ids);
                        m.objects = kept;
                        m.modified = modified;
                        dropped = removed;
                    },
                    None => {},
                }
            },
            None => {},
        }
        proof {
            lemma_post_unchanged_unless(before_posts, self.posts@, handle);
        }
        post_objects(&mut self.objects, &dropped, id, false);
        let ghost forgot = self.objects@;
        release_all(&mut self.objects, &dropped);
        proof {
            assert(self.objects@ == released(forgot, dropped@));
            assert(objects_posted(old(self).objects@, forgot, dropped@, id, false));
            if dropped@.len() == 0 {
                assert(forgot.slots =~= old(self).objects@.slots);
                assert(self.objects@ == old(self).objects@);
            }
            if old(self).posts@.slots.contains_key(handle) {
                let post = old(self).posts@.slots[handle].value;
                assert(id == post.id);
                if let Some(m) = post.mutable@ {
                    let (kept, gone) = split_handles(m.objects@, |h: u64| object_listed(old(self).objects@, ids@, h));
                    assert(gone == dropped@);
                    assert(self.posts@.slots[handle].value.mutable@->0.objects@ == kept);
                }
            }
        }
    }
}

impl Cache {
    /// Adds the tag behind `tag` to the post behind `handle`, if it is live
    /// and not deleted: the post first lets go of its deleted tags, then
    /// keeps the new tag unless it holds one with the same ID already, in
    /// which case the new handle is let go. A deleted post lets it go too.
    pub fn add_tag(&mut self, handle: u64, tag: u64)
        requires
            old(self).wf(),
        ensures
            final(self).wf(),
            final(self).users == old(self).users,
            final(self).objects == old(self).objects,
            final(self).comments == old(self).comments,
            ({
                let live = old(self).posts@.slots.contains_key(handle)
                    && old(self).posts@.slots[handle].value.mutable@ is Some;
                if live {
                    let m = old(self).posts@.slots[handle].value.mutable@->0;
                    let (kept, gone) = split_handles(m.tags@, |h: u64| tag_dropped(old(self).tags@, None, h));
                    let dup = holds_tag(old(self).tags@, kept, tag);
                    &&& post_changed(
                        old(self).posts@,
                        final(self).posts@,
                        handle,
                        |m0: PostMut, m1: PostMut| m1 == (PostMut { tags: m1.tags, ..m0 }) && m1.tags@ == if dup {
                            kept
                        } else {
                            kept.push(tag)
                        },
                    )
                    &&& final(self).tags@ == released(old(self).tags@, if dup {
                        gone.push(tag)
                    } else {
                        gone
                    })
                } else {
                    &&& final(self).posts@ == old(self).posts@
                    &&& final(self).tags@ == released(old(self).tags@, seq![tag])
                }
            }),
    {
        let ghost before_posts = self.posts@;
        let mut dropped: Vec<u64> = Vec::new();
        match self.posts.value_mut(handle) {
            Some(p) => match p.mutable.update() {
                Some(m) => {
                    let (mut kept, removed) = split_tags(&self.tags, &m.tags, None);
                    dropped = removed;
                    if has_tag(&self.tags, &kept, tag) {
                        dropped.push(tag);
                    } else {
                        kept.push(tag);
                    }
                    m.tags = kept;
                },
                None => {
                    dropped.push(tag);
                },
            },
            None => {
                dropped.push(tag);
            },
        }
        proof {
            lemma_post_unchanged_unless(before_posts, self.posts@, handle);
            if !before_posts.slots.contains_key(handle) || before_posts.slots[handle].value.mutable@ is None {
                assert(dropped@ =~= seq![tag]);
            }
        }
        release_all(&mut self.tags, &dropped);
    }

    /// Removes the tag `id` from the post behind `handle`, if it is live and
    /// not deleted; deleted tags go too, and every tag removed is let go.
    pub fn delete_tag(&mut self, handle: u64, id: u128)
        requires
            old(self).wf(),
        ensures
            final(self).wf(),
            final(self).users == old(self).users,
            final(self).objects == old(self).objects,
            final(self).comments == old(self).comments,
            ({
                let live = old(self).posts@.slots.contains_key(handle)
                    && old(self).posts@.slots[handle].value.mutable@ is Some;
                if live {
                    let m = old(self).posts@.slots[handle].value.mutable@->0;
                    let (kept, gone) = split_handles(m.tags@, |h: u64| tag_dropped(old(self).tags@, Some(id), h));
                    &&& post_changed(
                        old(self).posts@,
                        final(self).posts@,
                        handle,
                        |m0: PostMut, m1: PostMut| m1 == (PostMut { tags: m1.tags, ..m0 }) && m1.tags@ == kept,
                    )
                    &&& final(self).tags@ == released(old(self).tags@, gone)
                } else {
                    &&& final(self).posts@ == old(self).posts@
                    &&& final(self).tags@ == old(self).tags@
                }
            }),
    {
        let ghost before_posts = self.posts@;
        let mut dropped: Vec<u64> = Vec::new();
        match self.posts.value_mut(handle) {
            Some(p) => match p.mutable.update() {
                Some(m) => {
                    let (kept, removed) = split_tags(&self.tags, &m.tags, Some(id));
                    dropped = removed;
                    m.tags = kept;
                },
                None => {},
            },
            None => {},
        }
        proof {
            lemma_post_unchanged_unless(before_posts, self.posts@, handle);
        }
        release_all(&mut self.tags, &dropped);
        proof {
            if dropped@.len() == 0 {
                assert(released(old(self).tags@, dropped@) == old(self).tags@);
            }
        }
    }
}

} // verus!
