use vstd::prelude::*;

use crate::model::Visibility;

verus! {

/// Which page of results a search asks for: where it starts and how many
/// results it holds.
#[derive(Clone, Copy, Debug, PartialEq, Eq, Structural)]
pub struct Pagination {
    pub from: u32,
    pub size: u32,
}

/// A search for posts, ordered by `sort`.
#[derive(Debug)]
pub struct PostQuery<S> {
    pub pagination: Pagination,
    pub poster: Option<u128>,
    pub text: String,
    pub tags: Vec<u128>,
    pub visibility: Visibility,
    pub sort: S,
}

/// The search for posts that `find post` makes: drafts or published posts,
/// by `poster` if given, with all of `tags`, matching `text` (everything
/// when not given), in the order `sort`, on the page `pagination`.
pub fn post_query<S>(
    drafts: bool,
    poster: Option<u128>,
    sort: S,
    tags: Vec<u128>,
    text: Option<String>,
    pagination: Pagination,
) -> (query: PostQuery<S>)
    ensures
        query.pagination == pagination,
        query.poster == poster,
        query.sort == sort,
        query.tags@ == tags@,
        query.text@ == match text {
            Some(t) => t@,
            None => Seq::<char>::empty(),
        },
        query.visibility == if drafts {
            Visibility::Draft
        } else {
            Visibility::Public
        },
{
    let text = match text {
        Some(t) => t,
        None => String::new(),
    };
    let visibility = if drafts {
        Visibility::Draft
    } else {
        Visibility::Public
    };
    PostQuery { pagination, poster, text, tags, visibility, sort }
}

/// What a new post is made of. What is not given takes the server's
/// default: no visibility means published.
#[derive(Debug)]
pub struct PostParts {
    pub title: Option<String>,
    pub description: Option<String>,
    pub visibility: Option<Visibility>,
    pub objects: Option<Vec<u128>>,
    pub posts: Option<Vec<u128>>,
    pub tags: Option<Vec<u128>>,
}

/// The parts of the post that `new post` creates: a draft when `draft` is
/// set, published otherwise; `objects` are the IDs of the files uploaded
/// for it, given only when there are any.
pub fn post_parts(
    title: Option<String>,
    description: Option<String>,
    draft: bool,
    tags: Option<Vec<u128>>,
    posts: Option<Vec<u128>>,
    objects: Vec<u128>,
) -> (parts: PostParts)
    ensures
        parts.title == title,
        parts.description == description,
        parts.visibility == if draft {
            Some(Visibility::Draft)
        } else {
            None
        },
        parts.tags == tags,
        parts.posts == posts,
        match parts.objects {
            Some(o) => objects@.len() > 0 && o@ == objects@,
            None => objects@.len() == 0,
        },
{
    let visibility = if draft {
        Some(Visibility::Draft)
    } else {
        None
    };
    let objects = if objects.len() == 0 {
        None
    } else {
        Some(objects)
    };
    PostParts { title, description, visibility, objects, posts, tags }
}

} // verus!
