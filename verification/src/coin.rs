//! The currency value carried by transaction outputs: a bounded amount.

use vstd::prelude::*;

verus! {

use crate::cbor::{Value, ValueModel, DecodeError, ErrorKind, spec_u64, expect_u64};

/// The largest representable amount.
pub const MAX_COIN: u64 = 45000000000000000;

/// Why an amount was refused.
#[derive(Debug, Clone, Copy, PartialEq, Eq, PartialOrd, Ord, Structural)]
pub enum Error {
    /// The amount lay above the largest representable one; it is given.
    OutOfBound(u64),
}

/// A currency amount between zero and the largest representable one.
#[derive(Debug, Clone, Copy, PartialEq, Eq, PartialOrd, Ord)]
pub struct Coin(u64);

impl Coin {
    /// Every amount stays within the representable bound.
    #[verifier::type_invariant]
    pub closed spec fn wf(self) -> bool {
        self.0 <= MAX_COIN
    }

    /// The amount as a plain number.
    pub closed spec fn spec_value(self) -> u64 {
        self.0
    }

    /// Returns the amount as a plain number.
    pub fn value(&self) -> (r: u64)
        ensures
            r == self.spec_value(),
            r <= MAX_COIN,
    {
        proof {
            use_type_invariant(self);
        }
        self.0
    }

    /// The zero amount.
    pub fn zero() -> (r: Coin)
        ensures
            r.spec_value() == 0,
    {
        Coin(0)
    }

    /// Accepts an amount within the bound, refusing a larger one.
    pub fn new(v: u64) -> (r: Result<Coin, Error>)
        ensures
            v <= MAX_COIN ==> ({
                &&& r matches Ok(c)
                &&& c.spec_value() == v
            }),
            v > MAX_COIN ==> r == Err::<Coin, Error>(Error::OutOfBound(v)),
    {
        if v <= MAX_COIN {
            Ok(Coin(v))
        } else {
            Err(Error::OutOfBound(v))
        }
    }

    /// The tree an amount encodes to: the plain number.
    pub open spec fn spec_encoded(self) -> ValueModel {
        ValueModel::U64(self.spec_value())
    }

    /// The amount a tree decodes to: an unsigned integer within the
    /// bound; a larger one is refused with the allowed range.
    pub open spec fn spec_decoded(v: ValueModel) -> Result<u64, ErrorKind> {
        match spec_u64(v) {
            Err(k) => Err(k),
            Ok(n) => if n <= MAX_COIN {
                Ok(n)
            } else {
                Err(ErrorKind::Between(0, MAX_COIN))
            },
        }
    }

    pub fn encode(&self) -> (r: Value)
        ensures
            r@ == self.spec_encoded(),
    {
        Value::U64(self.0)
    }

    pub fn decode(value: Value) -> (r: Result<Coin, DecodeError>)
        ensures
            r matches Ok(c) ==> Self::spec_decoded(value@) == Ok::<u64, ErrorKind>(c.spec_value()),
            r matches Err(e) ==> Self::spec_decoded(value@) matches Err(k) && e.kind() == k,
    {
        let n = match expect_u64(value) {
            Ok(n) => n,
            Err(e) => {
                return Err(e);
            },
        };
        if n <= MAX_COIN {
            Ok(Coin(n))
        } else {
            Err(DecodeError::Cause(ErrorKind::Between(0, MAX_COIN)))
        }
    }

    /// Decoding an encoded amount gives it back.
    pub proof fn lemma_roundtrip(self)
        requires
            self.wf(),
        ensures
            Self::spec_decoded(self.spec_encoded()) == Ok::<u64, ErrorKind>(self.spec_value()),
    {
    }

    /// Adds two amounts; a sum above the bound is refused, as when an
    /// amount of that size is made directly.
    pub fn add(self, other: Coin) -> (r: Result<Coin, Error>)
        ensures
            self.spec_value() + other.spec_value() <= MAX_COIN ==> ({
                &&& r matches Ok(c)
                &&& c.spec_value() == self.spec_value() + other.spec_value()
            }),
            self.spec_value() + other.spec_value() > MAX_COIN ==> r == Err::<Coin, Error>(
                Error::OutOfBound((self.spec_value() + other.spec_value()) as u64),
            ),
    {
        proof {
            use_type_invariant(self);
            use_type_invariant(other);
        }
        Coin::new(self.0 + other.0)
    }

    /// Subtracts an amount; taking away more than there is gives nothing.
    pub fn sub(self, other: Coin) -> (r: Option<Coin>)
        ensures
            other.spec_value() > self.spec_value() ==> r is None,
            other.spec_value() <= self.spec_value() ==> ({
                &&& r matches Some(c)
                &&& c.spec_value() == self.spec_value() - other.spec_value()
            }),
    {
        proof {
            use_type_invariant(self);
            use_type_invariant(other);
        }
        if other.0 > self.0 {
            None
        } else {
            Some(Coin(self.0 - other.0))
        }
    }
}

} // verus!
