use vstd::prelude::*;

use super::inner::Id;
use crate::db;
use crate::model::ObjectPreview;

verus! {

/// What the object store knows of an object.
#[derive(Clone, Debug)]
pub struct StoredObject {
    pub hash: String,
    pub size: u64,
    pub media_type: String,
    pub subtype: String,
    pub added: i64,
}

/// A cached object, with the posts it appears in, most recent first.
#[derive(Debug)]
pub struct Object {
    pub id: u128,
    pub hash: String,
    pub size: u64,
    pub media_type: String,
    pub subtype: String,
    pub added: i64,
    pub preview_id: Option<u128>,
    pub posts: Vec<u128>,
}

impl Id for Object {
    open spec fn spec_id(&self) -> u128 {
        self.id
    }

    fn id(&self) -> (id: u128) {
        self.id
    }
}

impl Object {
    /// The object a database row and the object store describe.
    pub fn new(data: db::Object, obj: StoredObject) -> (o: Self)
        ensures
            o.id == data.id,
            o.preview_id == data.preview_id,
            o.posts == data.posts,
            o.hash == obj.hash,
            o.size == obj.size,
            o.media_type == obj.media_type,
            o.subtype == obj.subtype,
            o.added == obj.added,
    {
        Object {
            id: data.id,
            hash: obj.hash,
            size: obj.size,
            media_type: obj.media_type,
            subtype: obj.subtype,
            added: obj.added,
            preview_id: data.preview_id,
            posts: data.posts,
        }
    }

    pub fn preview(&self) -> (preview: ObjectPreview)
        ensures
            preview.id == self.id,
            preview.preview_id == self.preview_id,
            preview.media_type@ == self.media_type@,
            preview.subtype@ == self.subtype@,
    {
        ObjectPreview {
            id: self.id,
            preview_id: self.preview_id,
            media_type: self.media_type.clone(),
            subtype: self.subtype.clone(),
        }
    }

    /// Records that the object appears in post `id`, as the most recent,
    /// unless it is recorded already.
    pub fn add_post(&mut self, id: u128)
        ensures
            final(self).id == old(self).id,
            final(self).hash == old(self).hash,
            final(self).size == old(self).size,
            final(self).media_type == old(self).media_type,
            final(self).subtype == old(self).subtype,
            final(self).added == old(self).added,
            final(self).preview_id == old(self).preview_id,
            final(self).posts@ == with_post(old(self).posts@, id),
    {
        if !contains_id(&self.posts, id) {
            self.posts.insert(0, id);
            proof {
                assert(self.posts@ =~= seq![id] + old(self).posts@);
            }
        }
    }

    /// Forgets that the object appears in post `id`.
    pub fn delete_post(&mut self, id: u128)
        ensures
            final(self).id == old(self).id,
            final(self).hash == old(self).hash,
            final(self).size == old(self).size,
            final(self).media_type == old(self).media_type,
            final(self).subtype == old(self).subtype,
            final(self).added == old(self).added,
            final(self).preview_id == old(self).preview_id,
            final(self).posts@ == without_post(old(self).posts@, id),
    {
        self.posts = without_id(&self.posts, id);
    }
}

/// `posts` with post `id` recorded as the most recent, unless it is
/// recorded already.
pub open spec fn with_post(posts: Seq<u128>, id: u128) -> Seq<u128> {
    if posts.contains(id) {
        posts
    } else {
        seq![id] + posts
    }
}

/// `posts` without post `id`.
pub open spec fn without_post(posts: Seq<u128>, id: u128) -> Seq<u128> {
    posts.filter(|p: u128| p != id)
}

/// Whether `id` occurs in `ids`.
pub fn contains_id(ids: &Vec<u128>, id: u128) -> (found: bool)
    ensures
        found == ids@.contains(id),
{
    let mut i: usize = 0;
    while i < ids.len()
        invariant
            0 <= i <= ids@.len(),
            forall|k: int| 0 <= k < i ==> ids@[k] != id,
        decreases ids@.len() - i,
    {
        if ids[i] == id {
            return true;
        }
        i += 1;
    }
    false
}

/// `ids` without any occurrence of `id`, in order.
pub fn without_id(ids: &Vec<u128>, id: u128) -> (kept: Vec<u128>)
    ensures
        kept@ == without_post(ids@, id),
{
    let mut kept: Vec<u128> = Vec::new();
    let mut i: usize = 0;
    while i < ids.len()
        invariant
            0 <= i <= ids@.len(),
            kept@ == without_post(ids@.take(i as int), id),
        decreases ids@.len() - i,
    {
        proof {
            assert(ids@.take(i + 1).drop_last() =~= ids@.take(i as int));
            reveal(Seq::filter);
        }
        if ids[i] != id {
            kept.push(ids[i]);
        }
        i += 1;
    }
    proof {
        assert(ids@.take(i as int) =~= ids@);
    }
    kept
}

} // verus!
