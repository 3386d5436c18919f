use vstd::prelude::*;

verus! {

/// A slot holding a cached entity's mutable state until the entity is
/// deleted. Once deleted, reads and updates find nothing.
#[derive(Debug)]
pub struct CacheLock<T> {
    data: Option<T>,
}

impl<T> View for CacheLock<T> {
    type V = Option<T>;

    closed spec fn view(&self) -> Option<T> {
        self.data
    }
}

impl<T> CacheLock<T> {
    pub fn new(data: T) -> (lock: Self)
        ensures
            lock@ == Some(data),
    {
        CacheLock { data: Some(data) }
    }

    /// Deletes the state, handing back what was stored (if anything was).
    pub fn delete(&mut self) -> (taken: Option<T>)
        ensures
            final(self)@ is None,
            taken == old(self)@,
    {
        self.data.take()
    }

    pub fn is_deleted(&self) -> (deleted: bool)
        ensures
            deleted == (self@ is None),
    {
        self.data.is_none()
    }

    /// The state, if it has not been deleted.
    pub fn get(&self) -> (state: Option<&T>)
        ensures
            match state {
                Some(v) => self@ == Some(*v),
                None => self@ is None,
            },
    {
        self.data.as_ref()
    }

    /// Applies `f` to the state, if it has not been deleted.
    pub fn map<F, R>(&self, f: F) -> (result: Option<R>)
        where
            F: FnOnce(&T) -> R,
        requires
            self@ matches Some(v) ==> f.requires((&v,)),
        ensures
            self@ is None ==> result is None,
            self@ matches Some(v) ==> (result matches Some(r) && f.ensures((&v,), r)),
    {
        match &self.data {
            Some(value) => Some(f(value)),
            None => None,
        }
    }

    /// Gives mutable access to the state, if it has not been deleted.
    pub fn update(&mut self) -> (result: Option<&mut T>)
        ensures
            old(self)@ is None ==> result is None && final(self)@ is None,
            old(self)@ is Some ==> result is Some,
            result matches Some(r) ==> *r == old(self)@->0 && final(self)@ == Some(*final(r)),
    {
        self.data.as_mut()
    }
}

/// Two locks that hold the same state are the same lock.
pub proof fn lemma_lock_view_eq<T>(a: CacheLock<T>, b: CacheLock<T>)
    requires
        a@ == b@,
    ensures
        a == b,
{
}

} // verus!
