//! Challenges: named, categorized problems within a competition.

use vstd::prelude::*;

use crate::error::Error;

verus! {

/// The closed set of challenge categories.
#[derive(Clone, Copy, Debug, PartialEq, Eq, Structural)]
pub enum ChallengeType {
    Rev,
    Pwn,
    Web,
    Crypto,
    Misc,
    Osint,
    Forensics,
    Blockchain,
    Programming,
    Pyjail,
}

/// The storage representation of a category.
pub open spec fn challenge_type_repr(t: ChallengeType) -> int {
    match t {
        ChallengeType::Rev => 0,
        ChallengeType::Pwn => 1,
        ChallengeType::Web => 2,
        ChallengeType::Crypto => 3,
        ChallengeType::Misc => 4,
        ChallengeType::Osint => 5,
        ChallengeType::Forensics => 6,
        ChallengeType::Blockchain => 7,
        ChallengeType::Programming => 8,
        ChallengeType::Pyjail => 9,
    }
}

impl ChallengeType {
    /// Decodes a stored category value; unknown values map to no category.
    pub fn from_repr(v: i64) -> (r: Option<ChallengeType>)
        ensures
            match r {
                Some(t) => challenge_type_repr(t) == v,
                None => !(0 <= v <= 9),
            },
    {
        match v {
            0 => Some(ChallengeType::Rev),
            1 => Some(ChallengeType::Pwn),
            2 => Some(ChallengeType::Web),
            3 => Some(ChallengeType::Crypto),
            4 => Some(ChallengeType::Misc),
            5 => Some(ChallengeType::Osint),
            6 => Some(ChallengeType::Forensics),
            7 => Some(ChallengeType::Blockchain),
            8 => Some(ChallengeType::Programming),
            9 => Some(ChallengeType::Pyjail),
            _ => None,
        }
    }

    /// The storage representation of this category.
    pub fn repr(self) -> (r: i64)
        ensures
            r == challenge_type_repr(self),
    {
        match self {
            ChallengeType::Rev => 0,
            ChallengeType::Pwn => 1,
            ChallengeType::Web => 2,
            ChallengeType::Crypto => 3,
            ChallengeType::Misc => 4,
            ChallengeType::Osint => 5,
            ChallengeType::Forensics => 6,
            ChallengeType::Blockchain => 7,
            ChallengeType::Programming => 8,
            ChallengeType::Pyjail => 9,
        }
    }

    /// The display name of this category, as used for channel tags.
    pub fn name(self) -> (r: &'static str)
        ensures
            r@ == (match self {
                ChallengeType::Rev => "rev"@,
                ChallengeType::Pwn => "pwn"@,
                ChallengeType::Web => "web"@,
                ChallengeType::Crypto => "crypto"@,
                ChallengeType::Misc => "misc"@,
                ChallengeType::Osint => "osint"@,
                ChallengeType::Forensics => "forensics"@,
                ChallengeType::Blockchain => "blockchain"@,
                ChallengeType::Programming => "programming"@,
                ChallengeType::Pyjail => "pyjail"@,
            }),
            r@.len() > 0,
    {
        proof {
            reveal_strlit("rev");
            reveal_strlit("pwn");
            reveal_strlit("web");
            reveal_strlit("crypto");
            reveal_strlit("misc");
            reveal_strlit("osint");
            reveal_strlit("forensics");
            reveal_strlit("blockchain");
            reveal_strlit("programming");
            reveal_strlit("pyjail");
        }
        match self {
            ChallengeType::Rev => "rev",
            ChallengeType::Pwn => "pwn",
            ChallengeType::Web => "web",
            ChallengeType::Crypto => "crypto",
            ChallengeType::Misc => "misc",
            ChallengeType::Osint => "osint",
            ChallengeType::Forensics => "forensics",
            ChallengeType::Blockchain => "blockchain",
            ChallengeType::Programming => "programming",
            ChallengeType::Pyjail => "pyjail",
        }
    }
}

/// A challenge within a competition.
#[derive(Debug, PartialEq, Eq)]
pub struct Challenge {
    /// Row identity assigned by the store.
    pub id: i64,
    /// The channel identity of the owning competition.
    pub competition_id: u64,
    /// Display name.
    pub name: String,
    /// Category of the challenge.
    pub category: ChallengeType,
    /// Discussion channel for the challenge, if one was provisioned.
    pub channel_id: Option<u64>,
}

impl Clone for Challenge {
    fn clone(&self) -> (r: Self)
        ensures
            r == *self,
    {
        Challenge {
            id: self.id,
            competition_id: self.competition_id,
            name: self.name.clone(),
            category: self.category,
            channel_id: self.channel_id,
        }
    }
}

/// A challenge row as the storage layer holds it: the category is a plain
/// integer.
#[derive(Debug, PartialEq, Eq)]
pub struct ChallengeRaw {
    pub id: i64,
    pub competition_id: u64,
    pub name: String,
    pub category: i64,
    pub channel_id: Option<u64>,
}

impl Challenge {
    /// Decodes a stored challenge row, rejecting an unknown category value
    /// as a corrupt record.
    pub fn from_raw(raw: ChallengeRaw) -> (r: Result<Challenge, Error>)
        ensures
            match r {
                Ok(c) => {
                    &&& c.id == raw.id
                    &&& c.competition_id == raw.competition_id
                    &&& c.name == raw.name
                    &&& challenge_type_repr(c.category) == raw.category
                    &&& c.channel_id == raw.channel_id
                },
                Err(e) => e == Error::CorruptRecord && !(0 <= raw.category <= 9),
            },
    {
        let Some(category) = ChallengeType::from_repr(raw.category) else {
            return Err(Error::CorruptRecord);
        };
        Ok(Challenge {
            id: raw.id,
            competition_id: raw.competition_id,
            name: raw.name,
            category,
            channel_id: raw.channel_id,
        })
    }

    /// Encodes the challenge for storage.
    pub fn to_raw(self) -> (r: ChallengeRaw)
        ensures
            r.id == self.id,
            r.competition_id == self.competition_id,
            r.name == self.name,
            r.category == challenge_type_repr(self.category),
            r.channel_id == self.channel_id,
    {
        ChallengeRaw {
            id: self.id,
            competition_id: self.competition_id,
            category: self.category.repr(),
            name: self.name,
            channel_id: self.channel_id,
        }
    }
}

} // verus!
