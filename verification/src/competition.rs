//! Competitions: the events that challenges are grouped under, together
//! with their community bingo card.

use vstd::prelude::*;

use crate::error::Error;

verus! {

/// The bit mask covering the bingo card's squares (a 5-by-5 grid).
pub const BINGO_MASK: u32 = 0x1FF_FFFF;

/// A competition, identified by its channel.
#[derive(Debug, PartialEq, Eq)]
pub struct Competition {
    /// Platform channel identity of the competition.
    pub channel_id: u64,
    /// Display name.
    pub name: String,
    /// Checked-off bingo squares, one bit per square of the 5-by-5 card.
    pub bingo: u32,
}

impl Clone for Competition {
    fn clone(&self) -> (r: Self)
        ensures
            r == *self,
    {
        Competition { channel_id: self.channel_id, name: self.name.clone(), bingo: self.bingo }
    }
}

/// A competition row as the storage layer holds it: the bingo bits are a
/// plain integer.
#[derive(Debug, PartialEq, Eq)]
pub struct CompetitionRaw {
    pub channel_id: u64,
    pub name: String,
    pub bingo: i64,
}

impl Competition {
    /// Decodes a stored competition row, rejecting bingo bits outside the
    /// card as a corrupt record.
    pub fn from_raw(raw: CompetitionRaw) -> (r: Result<Competition, Error>)
        ensures
            match r {
                Ok(c) => {
                    &&& c.channel_id == raw.channel_id
                    &&& c.name == raw.name
                    &&& c.bingo == raw.bingo
                },
                Err(e) => e == Error::CorruptRecord && !(0 <= raw.bingo <= BINGO_MASK),
            },
    {
        if raw.bingo < 0 || raw.bingo > BINGO_MASK as i64 {
            return Err(Error::CorruptRecord);
        }
        Ok(Competition {
            channel_id: raw.channel_id,
            name: raw.name,
            bingo: raw.bingo as u32,
        })
    }

    /// Encodes the competition for storage.
    pub fn to_raw(self) -> (r: CompetitionRaw)
        ensures
            r.channel_id == self.channel_id,
            r.name == self.name,
            r.bingo == self.bingo,
    {
        CompetitionRaw {
            channel_id: self.channel_id,
            bingo: self.bingo as i64,
            name: self.name,
        }
    }
}

} // verus!
