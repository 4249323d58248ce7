//! Solves: claims that a challenge was solved, awaiting a moderation
//! decision.

use vstd::prelude::*;

use crate::error::Error;

verus! {

/// The tri-state approval gate of a solve. `Approved` and `Declined` are
/// terminal: a solve leaves `Pending` exactly once.
#[derive(Clone, Copy, Debug, PartialEq, Eq, Structural)]
pub enum ApprovalStatus {
    Pending,
    Approved,
    Declined,
}

/// The storage representation of an approval status.
pub open spec fn approval_status_repr(s: ApprovalStatus) -> int {
    match s {
        ApprovalStatus::Pending => 0,
        ApprovalStatus::Approved => 1,
        ApprovalStatus::Declined => 2,
    }
}

impl ApprovalStatus {
    /// Decodes a stored status value; unknown values map to no status.
    pub fn from_repr(v: i64) -> (r: Option<ApprovalStatus>)
        ensures
            match r {
                Some(s) => approval_status_repr(s) == v,
                None => !(0 <= v <= 2),
            },
    {
        match v {
            0 => Some(ApprovalStatus::Pending),
            1 => Some(ApprovalStatus::Approved),
            2 => Some(ApprovalStatus::Declined),
            _ => None,
        }
    }

    /// The storage representation of this status.
    pub fn repr(self) -> (r: i64)
        ensures
            r == approval_status_repr(self),
    {
        match self {
            ApprovalStatus::Pending => 0,
            ApprovalStatus::Approved => 1,
            ApprovalStatus::Declined => 2,
        }
    }
}

/// A solve submission.
#[derive(Debug, PartialEq, Eq)]
pub struct Solve {
    /// Row identity assigned by the store.
    pub id: i64,
    /// The challenge this solve claims.
    pub challenge_id: i64,
    /// The decision-request message this solve is moderated through.
    pub approval_message_id: u64,
    /// The submitted flag text.
    pub flag: String,
    /// Where the solve stands in the approval gate.
    pub approval_status: ApprovalStatus,
}

impl Clone for Solve {
    fn clone(&self) -> (r: Self)
        ensures
            r == *self,
    {
        Solve {
            id: self.id,
            challenge_id: self.challenge_id,
            approval_message_id: self.approval_message_id,
            flag: self.flag.clone(),
            approval_status: self.approval_status,
        }
    }
}

/// A solve row as the storage layer holds it: the status is a plain integer.
#[derive(Debug, PartialEq, Eq)]
pub struct SolveRaw {
    pub id: i64,
    pub challenge_id: i64,
    pub approval_message_id: u64,
    pub flag: String,
    pub approval_status: i64,
}

impl Solve {
    /// Decodes a stored solve row, rejecting an unknown approval status as a
    /// corrupt record.
    pub fn from_raw(raw: SolveRaw) -> (r: Result<Solve, Error>)
        ensures
            match r {
                Ok(s) => {
                    &&& s.id == raw.id
                    &&& s.challenge_id == raw.challenge_id
                    &&& s.approval_message_id == raw.approval_message_id
                    &&& s.flag == raw.flag
                    &&& approval_status_repr(s.approval_status) == raw.approval_status
                },
                Err(e) => e == Error::CorruptRecord && !(0 <= raw.approval_status <= 2),
            },
    {
        let Some(approval_status) = ApprovalStatus::from_repr(raw.approval_status) else {
            return Err(Error::CorruptRecord);
        };
        Ok(Solve {
            id: raw.id,
            challenge_id: raw.challenge_id,
            approval_message_id: raw.approval_message_id,
            flag: raw.flag,
            approval_status,
        })
    }

    /// Encodes the solve for storage.
    pub fn to_raw(self) -> (r: SolveRaw)
        ensures
            r.id == self.id,
            r.challenge_id == self.challenge_id,
            r.approval_message_id == self.approval_message_id,
            r.flag == self.flag,
            r.approval_status == approval_status_repr(self.approval_status),
    {
        SolveRaw {
            id: self.id,
            challenge_id: self.challenge_id,
            approval_message_id: self.approval_message_id,
            approval_status: self.approval_status.repr(),
            flag: self.flag,
        }
    }
}

} // verus!
