//! Users: identity, verified-email marker, point balance and cached rank.

use vstd::prelude::*;

use crate::error::Error;
use crate::rank::Rank;

verus! {

/// A community member tracked by the points ledger.
#[derive(Debug, PartialEq, Eq)]
pub struct User {
    /// Platform identity of the user.
    pub id: u64,
    /// Verified email address, if identity verification completed.
    pub email: Option<String>,
    /// Point balance, stored in tenths of a displayed point.
    pub points: i64,
    /// Last rank this user was granted, cached to drive role changes.
    pub rank: Rank,
}

impl User {
    /// Whether the user completed identity verification.
    pub fn is_verified(&self) -> (r: bool)
        ensures
            r == (self.email is Some),
    {
        self.email.is_some()
    }
}

impl Clone for User {
    fn clone(&self) -> (r: Self)
        ensures
            r == *self,
    {
        User {
            id: self.id,
            email: match &self.email {
                Some(e) => Some(e.clone()),
                None => None,
            },
            points: self.points,
            rank: self.rank,
        }
    }
}

/// A user row as the storage layer holds it: the cached rank is a nullable
/// integer index.
#[derive(Debug, PartialEq, Eq)]
pub struct UserRaw {
    pub id: u64,
    pub email: Option<String>,
    pub points: i64,
    pub rank: Option<i64>,
}

impl User {
    /// Decodes a stored user row, rejecting a rank index that maps to no
    /// rank (negative or beyond the address range) as a corrupt record.
    pub fn from_raw(raw: UserRaw) -> (r: Result<User, Error>)
        ensures
            match r {
                Ok(u) => {
                    &&& u.id == raw.id
                    &&& u.email == raw.email
                    &&& u.points == raw.points
                    &&& (match raw.rank {
                        None => u.rank == Rank::Unranked,
                        Some(i) => 0 <= i <= usize::MAX && u.rank == Rank::Rank(i as usize),
                    })
                },
                Err(e) => {
                    &&& e == Error::CorruptRecord
                    &&& (raw.rank matches Some(i) && !(0 <= i <= usize::MAX))
                },
            },
    {
        let rank = match raw.rank {
            None => Rank::Unranked,
            Some(i) => {
                if i < 0 {
                    return Err(Error::CorruptRecord);
                }
                if (i as u64) > (usize::MAX as u64) {
                    return Err(Error::CorruptRecord);
                }
                Rank::Rank(i as usize)
            },
        };
        Ok(User { id: raw.id, email: raw.email, points: raw.points, rank })
    }

    /// Encodes the user for storage. The cached rank index must fit the
    /// storage integer.
    pub fn to_raw(self) -> (r: UserRaw)
        requires
            self.rank matches Rank::Rank(i) ==> i <= i64::MAX,
        ensures
            r.id == self.id,
            r.email == self.email,
            r.points == self.points,
            (match self.rank {
                Rank::Unranked => r.rank is None,
                Rank::Rank(i) => r.rank == Some(i as i64),
            }),
    {
        let rank = match self.rank {
            Rank::Unranked => None,
            Rank::Rank(i) => Some(i as i64),
        };
        UserRaw { id: self.id, email: self.email, points: self.points, rank }
    }
}

} // verus!
