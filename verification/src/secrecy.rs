//! Wrapper that marks key material and plaintext as secret.
use vstd::prelude::*;

verus! {

/// A secret value; reaching it takes an explicit `expose_secret`.
#[derive(Clone, PartialEq, Eq)]
pub struct Secret<T> {
    inner: T,
}

impl<T> Secret<T> {
    /// The wrapped value.
    pub closed spec fn value(&self) -> T {
        self.inner
    }

    pub fn new(val: T) -> (r: Self)
        ensures
            r.value() == val,
    {
        Secret { inner: val }
    }

    /// The secret value, for cryptographic use.
    pub fn expose_secret(&self) -> (r: &T)
        ensures
            *r == self.value(),
    {
        &self.inner
    }

    /// How a secret is shown in text: never its value.
    pub fn to_string(&self) -> (r: String)
        ensures
            r@ == "<REDACTED>"@,
    {
        "<REDACTED>".to_owned()
    }

    /// Mutable access to the secret value.
    pub fn expose_secret_mut(&mut self) -> (r: &mut T)
        ensures
            *r == old(self).value(),
            final(self).value() == *final(r),
    {
        &mut self.inner
    }
}

} // verus!
