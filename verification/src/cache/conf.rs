use vstd::prelude::*;

verus! {

/// How many values each cache holds when its own size is not configured.
pub const DEFAULT_CACHE_SIZE: usize = 10_000;

pub fn default_cache_size() -> (size: usize)
    ensures
        size == DEFAULT_CACHE_SIZE,
{
    DEFAULT_CACHE_SIZE
}

/// The sizes of the caches: one default, and an optional size for each
/// kind of value. Every size is positive.
#[derive(Clone, Debug)]
pub struct Config {
    pub default: usize,
    pub objects: Option<usize>,
    pub posts: Option<usize>,
    pub sessions: Option<usize>,
    pub tags: Option<usize>,
    pub users: Option<usize>,
}

/// The configured size, or the default.
pub open spec fn size_or(size: Option<usize>, default: usize) -> usize {
    match size {
        Some(s) => s,
        None => default,
    }
}

impl Config {
    pub open spec fn wf(&self) -> bool {
        &&& self.default > 0
        &&& self.objects matches Some(s) ==> s > 0
        &&& self.posts matches Some(s) ==> s > 0
        &&& self.sessions matches Some(s) ==> s > 0
        &&& self.tags matches Some(s) ==> s > 0
        &&& self.users matches Some(s) ==> s > 0
    }

    pub fn objects(&self) -> (size: usize)
        ensures
            size == size_or(self.objects, self.default),
    {
        match self.objects {
            Some(s) => s,
            None => self.default,
        }
    }

    pub fn posts(&self) -> (size: usize)
        ensures
            size == size_or(self.posts, self.default),
    {
        match self.posts {
            Some(s) => s,
            None => self.default,
        }
    }

    pub fn sessions(&self) -> (size: usize)
        ensures
            size == size_or(self.sessions, self.default),
    {
        match self.sessions {
            Some(s) => s,
            None => self.default,
        }
    }

    pub fn tags(&self) -> (size: usize)
        ensures
            size == size_or(self.tags, self.default),
    {
        match self.tags {
            Some(s) => s,
            None => self.default,
        }
    }

    pub fn users(&self) -> (size: usize)
        ensures
            size == size_or(self.users, self.default),
    {
        match self.users {
            Some(s) => s,
            None => self.default,
        }
    }
}

impl Default for Config {
    fn default() -> (config: Self)
        ensures
            config.wf(),
            config.default == DEFAULT_CACHE_SIZE,
            config.objects is None,
            config.posts is None,
            config.sessions is None,
            config.tags is None,
            config.users is None,
    {
        Config {
            default: default_cache_size(),
            objects: None,
            posts: None,
            sessions: None,
            tags: None,
            users: None,
        }
    }
}

/// Settings of the repository's own session cache.
#[derive(Clone, Debug)]
pub struct CacheConfig {
    pub sessions: usize,
}

impl CacheConfig {
    pub fn default_cache_size() -> (size: usize)
        ensures
            size == DEFAULT_CACHE_SIZE,
    {
        DEFAULT_CACHE_SIZE
    }
}

impl Default for CacheConfig {
    fn default() -> (config: Self)
        ensures
            config.sessions == DEFAULT_CACHE_SIZE,
    {
        CacheConfig { sessions: DEFAULT_CACHE_SIZE }
    }
}

/// The credentials for the search engine: an API key and its ID.
#[derive(Clone, Debug)]
pub struct SearchAuth {
    pub id: String,
    pub api_key: String,
}

} // verus!
