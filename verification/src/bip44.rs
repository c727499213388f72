//! Sequential address derivation paths.
//!
//! A derivation path has five components: a fixed purpose, a fixed coin
//! type, a hardened account, a soft change level and a soft index.  The
//! types here enforce the hard and soft bounds at construction, so that a
//! path built through them is well-formed by contract.

use vstd::prelude::*;

verus! {

/// The exact number of components of a derivation path.
pub const BIP44_PATH_LENGTH: usize = 5;

/// The fixed purpose component, a hardened derivation.
pub const BIP44_PURPOSE: u32 = 0x8000002c;

/// The fixed coin-type component, a hardened derivation.
pub const BIP44_COIN_TYPE: u32 = 0x80000717;

/// Components below this bound derive softly; at or above it, hardened.
pub const BIP44_SOFT_UPPER_BOUND: u32 = 0x80000000;

/// Why a path or a component was refused.
#[derive(Debug, Clone, Copy, PartialEq, Eq, PartialOrd, Ord, Structural)]
pub enum Error {
    /// The path has the wrong number of components; the found number is
    /// given.
    InvalidLength(usize),
    /// The path's first component is not the fixed purpose.
    InvalidPurpose(u32),
    /// The path's second component is not the fixed coin type.
    InvalidType(u32),
    /// The account component is not hardened.
    AccountOutOfBound(u32),
    /// The change component is not soft.
    ChangeOutOfBound(u32),
    /// The index component is not soft.
    IndexOutOfBound(u32),
}

/// A raw derivation path: its components in order.
#[derive(Debug, PartialEq, Eq)]
pub struct Path(pub Vec<u32>);

/// An account component: hardened by construction.
#[derive(Debug, Clone, Copy, PartialEq, Eq, Structural)]
pub struct Account(pub u32);

impl Account {
    /// Accepts a hardened account component, refusing a soft one.
    pub fn new(account: u32) -> (r: Result<Account, Error>)
        ensures
            account < BIP44_SOFT_UPPER_BOUND ==> r == Err::<Account, Error>(
                Error::AccountOutOfBound(account),
            ),
            account >= BIP44_SOFT_UPPER_BOUND ==> r == Ok::<Account, Error>(Account(account)),
    {
        if account < BIP44_SOFT_UPPER_BOUND {
            return Err(Error::AccountOutOfBound(account));
        }
        Ok(Account(account))
    }

    /// The change level of addresses kept for internal use.
    pub fn internal(&self) -> (r: Result<Change, Error>)
        ensures
            r == Ok::<Change, Error>(Change { account: *self, change: 1 }),
    {
        Change::new(*self, 1)
    }

    /// The change level of addresses handed out.
    pub fn external(&self) -> (r: Result<Change, Error>)
        ensures
            r == Ok::<Change, Error>(Change { account: *self, change: 0 }),
    {
        Change::new(*self, 0)
    }
}

/// An account with its change level: the change is soft by construction.
#[derive(Debug, Clone, Copy, PartialEq, Eq, Structural)]
pub struct Change {
    pub account: Account,
    pub change: u32,
}

impl Change {
    /// Accepts a soft change level under the account, refusing a hardened
    /// one.
    pub fn new(account: Account, change: u32) -> (r: Result<Change, Error>)
        ensures
            change >= BIP44_SOFT_UPPER_BOUND ==> r == Err::<Change, Error>(
                Error::ChangeOutOfBound(change),
            ),
            change < BIP44_SOFT_UPPER_BOUND ==> r == Ok::<Change, Error>(
                Change { account, change },
            ),
    {
        if change >= BIP44_SOFT_UPPER_BOUND {
            return Err(Error::ChangeOutOfBound(change));
        }
        Ok(Change { account, change })
    }

    /// Derives the addressing at the given index under this change level.
    pub fn index(&self, index: u32) -> (r: Result<Addressing, Error>)
        ensures
            index >= BIP44_SOFT_UPPER_BOUND ==> r == Err::<Addressing, Error>(
                Error::IndexOutOfBound(index),
            ),
            index < BIP44_SOFT_UPPER_BOUND ==> r == Ok::<Addressing, Error>(
                Addressing { account: self.account.0, change: self.change, index },
            ),
    {
        Addressing::new_from_change(self, index)
    }
}

/// A full addressing: account, change level and index.
#[derive(Debug, Clone, Copy, PartialEq, Eq, Structural)]
pub struct Addressing {
    pub account: u32,
    pub change: u32,
    pub index: u32,
}

/// Whether an address is handed out or kept for internal use.
#[derive(Debug, Clone, Copy, PartialEq, Eq, Structural)]
pub enum AddrType {
    Internal,
    External,
}

impl Addressing {
    /// Starts an addressing for the account at index zero, on the change
    /// level the address type names.
    pub fn new(account: u32, typ: AddrType) -> (r: Result<Addressing, Error>)
        ensures
            account < BIP44_SOFT_UPPER_BOUND ==> r == Err::<Addressing, Error>(
                Error::AccountOutOfBound(account),
            ),
            account >= BIP44_SOFT_UPPER_BOUND ==> r == Ok::<Addressing, Error>(
                Addressing {
                    account,
                    change: if typ == AddrType::Internal {
                        1
                    } else {
                        0
                    },
                    index: 0,
                },
            ),
    {
        let change: u32 = match typ {
            AddrType::Internal => 1,
            AddrType::External => 0,
        };
        if account < BIP44_SOFT_UPPER_BOUND {
            return Err(Error::AccountOutOfBound(account));
        }
        Ok(Addressing { account, change, index: 0 })
    }

    /// Derives the addressing at the given index under a change level.
    pub fn new_from_change(change: &Change, index: u32) -> (r: Result<Addressing, Error>)
        ensures
            index >= BIP44_SOFT_UPPER_BOUND ==> r == Err::<Addressing, Error>(
                Error::IndexOutOfBound(index),
            ),
            index < BIP44_SOFT_UPPER_BOUND ==> r == Ok::<Addressing, Error>(
                Addressing { account: change.account.0, change: change.change, index },
            ),
    {
        if index >= BIP44_SOFT_UPPER_BOUND {
            return Err(Error::IndexOutOfBound(index));
        }
        Ok(Addressing { account: change.account.0, change: change.change, index })
    }

    /// Writes the addressing out as a raw path, ready for derivation.
    pub fn to_path(&self) -> (r: Path)
        ensures
            r.0@ == seq![BIP44_PURPOSE, BIP44_COIN_TYPE, self.account, self.change, self.index],
    {
        let mut v: Vec<u32> = Vec::new();
        v.push(BIP44_PURPOSE);
        v.push(BIP44_COIN_TYPE);
        v.push(self.account);
        v.push(self.change);
        v.push(self.index);
        proof {
            assert(v@ =~= seq![
                BIP44_PURPOSE,
                BIP44_COIN_TYPE,
                self.account,
                self.change,
                self.index,
            ]);
        }
        Path(v)
    }

    /// The address type the change level stands for.
    pub fn address_type(&self) -> (r: AddrType)
        ensures
            r == if self.change == 0 {
                AddrType::External
            } else {
                AddrType::Internal
            },
    {
        if self.change == 0 {
            AddrType::External
        } else {
            AddrType::Internal
        }
    }

    /// Reads an addressing back from a raw path, refusing any path whose
    /// length, fixed components or bounds do not fit.
    pub fn from_path(path: Path) -> (r: Result<Addressing, Error>)
        ensures
            path.0@.len() != BIP44_PATH_LENGTH ==> r == Err::<Addressing, Error>(
                Error::InvalidLength(path.0@.len() as usize),
            ),
            path.0@.len() == BIP44_PATH_LENGTH ==> ({
                let p = path.0@[0];
                let t = path.0@[1];
                let a = path.0@[2];
                let c = path.0@[3];
                let i = path.0@[4];
                if p != BIP44_PURPOSE {
                    r == Err::<Addressing, Error>(Error::InvalidPurpose(p))
                } else if t != BIP44_COIN_TYPE {
                    r == Err::<Addressing, Error>(Error::InvalidType(t))
                } else if a < BIP44_SOFT_UPPER_BOUND {
                    r == Err::<Addressing, Error>(Error::AccountOutOfBound(a))
                } else if c >= BIP44_SOFT_UPPER_BOUND {
                    r == Err::<Addressing, Error>(Error::ChangeOutOfBound(c))
                } else if i >= BIP44_SOFT_UPPER_BOUND {
                    r == Err::<Addressing, Error>(Error::IndexOutOfBound(i))
                } else {
                    r == Ok::<Addressing, Error>(Addressing { account: a, change: c, index: i })
                }
            }),
    {
        let len = path.0.len();
        if len != BIP44_PATH_LENGTH {
            return Err(Error::InvalidLength(len));
        }
        let p = path.0[0];
        if p != BIP44_PURPOSE {
            return Err(Error::InvalidPurpose(p));
        }
        let t = path.0[1];
        if t != BIP44_COIN_TYPE {
            return Err(Error::InvalidType(t));
        }
        let a = path.0[2];
        if a < BIP44_SOFT_UPPER_BOUND {
            return Err(Error::AccountOutOfBound(a));
        }
        let c = path.0[3];
        if c >= BIP44_SOFT_UPPER_BOUND {
            return Err(Error::ChangeOutOfBound(c));
        }
        let i = path.0[4];
        if i >= BIP44_SOFT_UPPER_BOUND {
            return Err(Error::IndexOutOfBound(i));
        }
        Ok(Addressing { account: a, change: c, index: i })
    }

    /// Steps the index forward by the given soft amount.  The addressing
    /// must itself hold a soft index, so the step cannot wrap.
    pub fn incr(&self, incr: u32) -> (r: Result<Addressing, Error>)
        requires
            self.index < BIP44_SOFT_UPPER_BOUND,
        ensures
            incr >= BIP44_SOFT_UPPER_BOUND ==> r == Err::<Addressing, Error>(
                Error::IndexOutOfBound(incr),
            ),
            incr < BIP44_SOFT_UPPER_BOUND ==> r == Ok::<Addressing, Error>(
                Addressing {
                    account: self.account,
                    change: self.change,
                    index: (self.index + incr) as u32,
                },
            ),
    {
        if incr >= BIP44_SOFT_UPPER_BOUND {
            return Err(Error::IndexOutOfBound(incr));
        }
        Ok(Addressing { account: self.account, change: self.change, index: self.index + incr })
    }

    /// Enumerates the next addressings in sequence, starting at this one,
    /// up to the chunk size or to the last soft step, whichever comes
    /// first.
    pub fn next_chunks(&self, chunk_size: usize) -> (r: Result<Vec<Addressing>, Error>)
        requires
            self.index < BIP44_SOFT_UPPER_BOUND,
        ensures
            r matches Ok(v) && v@.len() == (if chunk_size <= BIP44_SOFT_UPPER_BOUND as usize {
                chunk_size as int
            } else {
                BIP44_SOFT_UPPER_BOUND as int
            }),
            r matches Ok(v) ==> forall|j: int|
                0 <= j < v@.len() ==> #[trigger] v@[j] == (Addressing {
                    account: self.account,
                    change: self.change,
                    index: (self.index + j) as u32,
                }),
    {
        let mut v: Vec<Addressing> = Vec::new();
        let mut i: usize = 0;
        while i < chunk_size
            invariant
                self.index < BIP44_SOFT_UPPER_BOUND,
                i <= chunk_size,
                i <= BIP44_SOFT_UPPER_BOUND as usize,
                v@.len() == i,
                forall|j: int|
                    0 <= j < i ==> #[trigger] v@[j] == (Addressing {
                        account: self.account,
                        change: self.change,
                        index: (self.index + j) as u32,
                    }),
            decreases chunk_size - i,
        {
            if i >= BIP44_SOFT_UPPER_BOUND as usize {
                // the next step would leave the soft range
                return Ok(v);
            }
            match self.incr(i as u32) {
                Err(Error::IndexOutOfBound(_)) => {
                    return Ok(v);
                },
                Err(err) => {
                    return Err(err);
                },
                Ok(a) => {
                    v.push(a);
                },
            }
            i = i + 1;
        }
        Ok(v)
    }
}

} // verus!
