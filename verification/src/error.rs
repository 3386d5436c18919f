use vstd::prelude::*;

verus! {

/// What went wrong in a request to the repository.
#[derive(Debug)]
pub enum Error {
    /// The entity of the given kind with the given ID does not exist.
    NotFound { entity: &'static str, id: u128 },
    /// An entity of the given kind with the given identifier already exists.
    AlreadyExists { entity: &'static str, identifier: String },
    InvalidInput(String),
    /// The request needs a signed-in user; the message says why, if given.
    Unauthenticated(Option<&'static str>),
    /// The user may not do this.
    Unauthorized,
    Internal(String),
}

pub type Result<T> = std::result::Result<T, Error>;

/// Turns the absence of something into a not-found error.
pub trait Found: Sized {
    type Value;

    /// Whether `self` holds something.
    spec fn spec_present(&self) -> bool;

    /// The thing `self` holds, when it holds one.
    spec fn spec_value(&self) -> Self::Value;

    fn found(self, entity: &'static str, id: u128) -> (result: Result<Self::Value>)
        ensures
            self.spec_present() ==> result == Ok::<Self::Value, Error>(self.spec_value()),
            !self.spec_present() ==> result == Err::<Self::Value, Error>(Error::NotFound { entity, id }),
    ;
}

impl Found for bool {
    type Value = ();

    open spec fn spec_present(&self) -> bool {
        *self
    }

    open spec fn spec_value(&self) -> () {
        ()
    }

    fn found(self, entity: &'static str, id: u128) -> (result: Result<()>) {
        if self {
            Ok(())
        } else {
            Err(Error::NotFound { entity, id })
        }
    }
}

impl<T> Found for Option<T> {
    type Value = T;

    open spec fn spec_present(&self) -> bool {
        self is Some
    }

    open spec fn spec_value(&self) -> T {
        self->0
    }

    fn found(self, entity: &'static str, id: u128) -> (result: Result<T>) {
        match self {
            Some(value) => Ok(value),
            None => Err(Error::NotFound { entity, id }),
        }
    }
}

} // verus!
