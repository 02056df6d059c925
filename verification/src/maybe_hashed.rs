//! A call, or the hash under which its encoding is stored.

use vstd::prelude::*;

verus! {

/// Either a value or the hash of the encoding of such a value.
#[derive(Clone, Debug, PartialEq, Eq)]
pub enum MaybeHashed<T, H> {
    /// The value itself.
    Value(T),
    /// The hash of the encoded value which this stands for.
    Hash(H),
}

/// Why the value behind a hash could not be produced.
#[derive(Clone, Copy, Debug, PartialEq, Eq, Structural)]
pub enum LookupError {
    /// No preimage is known for the hash.
    Unknown,
    /// A preimage is known but does not decode into the expected value.
    BadFormat,
}

/// What the preimage store has to be told about a hash.
#[derive(Debug, PartialEq, Eq)]
pub enum PreimageAction<'a, H> {
    /// Nothing: the reference holds its value inline.
    Nothing,
    /// Pin the preimage of this hash.
    Request(&'a H),
    /// Release the pin on the preimage of this hash.
    Unrequest(&'a H),
}

/// Classifies the answer of a preimage store and a decoder for one hash:
/// `None` where the store holds nothing, `Some(Err(_))` where the bytes it
/// holds do not decode, `Some(Ok(v))` where they decode into `v`.
pub fn lookup<T, E>(preimage: Option<Result<T, E>>) -> (r: Result<T, LookupError>)
    ensures
        r == match preimage {
            None => Err::<T, LookupError>(LookupError::Unknown),
            Some(Err(_)) => Err(LookupError::BadFormat),
            Some(Ok(v)) => Ok(v),
        },
{
    match preimage {
        None => Err(LookupError::Unknown),
        Some(Err(_)) => Err(LookupError::BadFormat),
        Some(Ok(v)) => Ok(v),
    }
}

impl<T, H> MaybeHashed<T, H> {
    /// The reference after a lookup that returned `lookup`, and the hash that
    /// the lookup consumed.
    pub open spec fn spec_resolved(self, lookup: Result<T, LookupError>) -> (Self, Option<H>) {
        match self {
            MaybeHashed::Value(c) => (MaybeHashed::Value(c), None),
            MaybeHashed::Hash(h) => match lookup {
                Ok(c) => (MaybeHashed::Value(c), Some(h)),
                Err(_) => (MaybeHashed::Hash(h), None),
            },
        }
    }

    /// The value, if it is held inline.
    pub fn as_value(&self) -> (r: Option<&T>)
        ensures
            r == match *self {
                MaybeHashed::Value(c) => Some(&c),
                MaybeHashed::Hash(_) => None,
            },
    {
        match self {
            MaybeHashed::Value(c) => Some(c),
            MaybeHashed::Hash(_) => None,
        }
    }

    /// The hash, if only the hash is held.
    pub fn as_hash(&self) -> (r: Option<&H>)
        ensures
            r == match *self {
                MaybeHashed::Value(_) => None,
                MaybeHashed::Hash(h) => Some(&h),
            },
    {
        match self {
            MaybeHashed::Value(_) => None,
            MaybeHashed::Hash(h) => Some(h),
        }
    }

    /// What to tell the preimage store when this reference enters the agenda:
    /// a hash must be pinned, an inline value needs nothing.
    pub fn ensure_requested(&self) -> (r: PreimageAction<'_, H>)
        ensures
            r == match *self {
                MaybeHashed::Value(_) => PreimageAction::Nothing,
                MaybeHashed::Hash(h) => PreimageAction::Request(&h),
            },
    {
        match self {
            MaybeHashed::Value(_) => PreimageAction::Nothing,
            MaybeHashed::Hash(h) => PreimageAction::Request(h),
        }
    }

    /// What to tell the preimage store when this reference leaves the agenda:
    /// the pin on a hash is released, an inline value needs nothing.
    pub fn ensure_unrequested(&self) -> (r: PreimageAction<'_, H>)
        ensures
            r == match *self {
                MaybeHashed::Value(_) => PreimageAction::Nothing,
                MaybeHashed::Hash(h) => PreimageAction::Unrequest(&h),
            },
    {
        match self {
            MaybeHashed::Value(_) => PreimageAction::Nothing,
            MaybeHashed::Hash(h) => PreimageAction::Unrequest(h),
        }
    }

    /// Resolves the reference against the outcome of looking its hash up.
    ///
    /// An inline value is returned as it is. A hash whose lookup succeeded
    /// becomes the decoded value, and the hash is handed back so that its pin
    /// can be released. A hash whose lookup failed stays a hash.
    pub fn resolved(self, lookup: Result<T, LookupError>) -> (r: (Self, Option<H>))
        ensures
            r == self.spec_resolved(lookup),
    {
        match self {
            MaybeHashed::Value(c) => (MaybeHashed::Value(c), None),
            MaybeHashed::Hash(h) => match lookup {
                Ok(c) => (MaybeHashed::Value(c), Some(h)),
                Err(_) => (MaybeHashed::Hash(h), None),
            },
        }
    }
}

impl<T, H> From<T> for MaybeHashed<T, H> {
    fn from(t: T) -> (r: Self) {
        MaybeHashed::Value(t)
    }
}

impl<T, H> vstd::std_specs::convert::FromSpecImpl<T> for MaybeHashed<T, H> {
    open spec fn obeys_from_spec() -> bool {
        true
    }

    open spec fn from_spec(t: T) -> Self {
        MaybeHashed::Value(t)
    }
}

} // verus!
