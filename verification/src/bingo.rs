//! The community bingo card: a 5-by-5 grid of squares kept as a bit mask
//! on each competition. This module holds the marking and win-detection
//! logic; drawing the card is left to the surrounding program.

use vstd::prelude::*;

use crate::competition::Competition;

verus! {

/// One square of the card. The bit index of a square at grid position
/// `(x, y)` is `5 * y + x`.
#[derive(Clone, Copy, Debug, PartialEq, Eq, Structural)]
pub enum BingoSquare {
    Drama,
    RawManpower,
    HighDowntime,
    DelayedPrizes,
    NoSource,
    CloudBruteForce,
    LowRating,
    AdminsAsleep,
    TooMuchOsint,
    AuthorsTool,
    ForgotFiles,
    FakeFlag,
    Free,
    Guessing,
    StolenChallenges,
    RetractedAfterSolve,
    Stego,
    ClosedRegistration,
    BrokenRev,
    FrozenScoreboard,
    HintsAfterSolve,
    BlindPwn,
    NoFlagFormat,
    LeakedFlags,
    InfraHacked,
}

/// The bit index of a square.
pub open spec fn square_index(sq: BingoSquare) -> int {
    match sq {
        BingoSquare::Drama => 0,
        BingoSquare::RawManpower => 1,
        BingoSquare::HighDowntime => 2,
        BingoSquare::DelayedPrizes => 3,
        BingoSquare::NoSource => 4,
        BingoSquare::CloudBruteForce => 5,
        BingoSquare::LowRating => 6,
        BingoSquare::AdminsAsleep => 7,
        BingoSquare::TooMuchOsint => 8,
        BingoSquare::AuthorsTool => 9,
        BingoSquare::ForgotFiles => 10,
        BingoSquare::FakeFlag => 11,
        BingoSquare::Free => 12,
        BingoSquare::Guessing => 13,
        BingoSquare::StolenChallenges => 14,
        BingoSquare::RetractedAfterSolve => 15,
        BingoSquare::Stego => 16,
        BingoSquare::ClosedRegistration => 17,
        BingoSquare::BrokenRev => 18,
        BingoSquare::FrozenScoreboard => 19,
        BingoSquare::HintsAfterSolve => 20,
        BingoSquare::BlindPwn => 21,
        BingoSquare::NoFlagFormat => 22,
        BingoSquare::LeakedFlags => 23,
        BingoSquare::InfraHacked => 24,
    }
}

/// The square's bit in the stored mask.
pub open spec fn square_bit(sq: BingoSquare) -> u32 {
    index_bit(square_index(sq))
}

impl BingoSquare {
    /// The square at bit index `i`, if the index is on the card.
    pub fn from_index(i: u32) -> (r: Option<BingoSquare>)
        ensures
            match r {
                Some(sq) => square_index(sq) == i,
                None => i > 24,
            },
    {
        match i {
            0 => Some(BingoSquare::Drama),
            1 => Some(BingoSquare::RawManpower),
            2 => Some(BingoSquare::HighDowntime),
            3 => Some(BingoSquare::DelayedPrizes),
            4 => Some(BingoSquare::NoSource),
            5 => Some(BingoSquare::CloudBruteForce),
            6 => Some(BingoSquare::LowRating),
            7 => Some(BingoSquare::AdminsAsleep),
            8 => Some(BingoSquare::TooMuchOsint),
            9 => Some(BingoSquare::AuthorsTool),
            10 => Some(BingoSquare::ForgotFiles),
            11 => Some(BingoSquare::FakeFlag),
            12 => Some(BingoSquare::Free),
            13 => Some(BingoSquare::Guessing),
            14 => Some(BingoSquare::StolenChallenges),
            15 => Some(BingoSquare::RetractedAfterSolve),
            16 => Some(BingoSquare::Stego),
            17 => Some(BingoSquare::ClosedRegistration),
            18 => Some(BingoSquare::BrokenRev),
            19 => Some(BingoSquare::FrozenScoreboard),
            20 => Some(BingoSquare::HintsAfterSolve),
            21 => Some(BingoSquare::BlindPwn),
            22 => Some(BingoSquare::NoFlagFormat),
            23 => Some(BingoSquare::LeakedFlags),
            24 => Some(BingoSquare::InfraHacked),
            _ => None,
        }
    }

    /// The square at grid position `(x, y)`, if that position is on the
    /// card.
    pub fn from_coords(x: u32, y: u32) -> (r: Option<BingoSquare>)
        requires
            5 * y + x <= u32::MAX,
        ensures
            match r {
                Some(sq) => square_index(sq) == 5 * y + x,
                None => 5 * y + x > 24,
            },
    {
        BingoSquare::from_index(5 * y + x)
    }

    /// The square's bit in the stored mask.
    pub fn bit(self) -> (r: u32)
        ensures
            r == square_bit(self),
            r > 0,
    {
        match self {
            BingoSquare::Drama => 0x1,
            BingoSquare::RawManpower => 0x2,
            BingoSquare::HighDowntime => 0x4,
            BingoSquare::DelayedPrizes => 0x8,
            BingoSquare::NoSource => 0x10,
            BingoSquare::CloudBruteForce => 0x20,
            BingoSquare::LowRating => 0x40,
            BingoSquare::AdminsAsleep => 0x80,
            BingoSquare::TooMuchOsint => 0x100,
            BingoSquare::AuthorsTool => 0x200,
            BingoSquare::ForgotFiles => 0x400,
            BingoSquare::FakeFlag => 0x800,
            BingoSquare::Free => 0x1000,
            BingoSquare::Guessing => 0x2000,
            BingoSquare::StolenChallenges => 0x4000,
            BingoSquare::RetractedAfterSolve => 0x8000,
            BingoSquare::Stego => 0x10000,
            BingoSquare::ClosedRegistration => 0x20000,
            BingoSquare::BrokenRev => 0x40000,
            BingoSquare::FrozenScoreboard => 0x80000,
            BingoSquare::HintsAfterSolve => 0x100000,
            BingoSquare::BlindPwn => 0x200000,
            BingoSquare::NoFlagFormat => 0x400000,
            BingoSquare::LeakedFlags => 0x800000,
            BingoSquare::InfraHacked => 0x1000000,
        }
    }

    /// The square's bit index.
    pub fn index(self) -> (r: u32)
        ensures
            r == square_index(self),
    {
        match self {
            BingoSquare::Drama => 0,
            BingoSquare::RawManpower => 1,
            BingoSquare::HighDowntime => 2,
            BingoSquare::DelayedPrizes => 3,
            BingoSquare::NoSource => 4,
            BingoSquare::CloudBruteForce => 5,
            BingoSquare::LowRating => 6,
            BingoSquare::AdminsAsleep => 7,
            BingoSquare::TooMuchOsint => 8,
            BingoSquare::AuthorsTool => 9,
            BingoSquare::ForgotFiles => 10,
            BingoSquare::FakeFlag => 11,
            BingoSquare::Free => 12,
            BingoSquare::Guessing => 13,
            BingoSquare::StolenChallenges => 14,
            BingoSquare::RetractedAfterSolve => 15,
            BingoSquare::Stego => 16,
            BingoSquare::ClosedRegistration => 17,
            BingoSquare::BrokenRev => 18,
            BingoSquare::FrozenScoreboard => 19,
            BingoSquare::HintsAfterSolve => 20,
            BingoSquare::BlindPwn => 21,
            BingoSquare::NoFlagFormat => 22,
            BingoSquare::LeakedFlags => 23,
            BingoSquare::InfraHacked => 24,
        }
    }
}

impl Competition {
    /// Whether a square is checked off on this competition's card.
    pub fn bingo_contains(&self, sq: BingoSquare) -> (r: bool)
        ensures
            r == (self.bingo & square_bit(sq) != 0),
    {
        self.bingo & sq.bit() != 0
    }

    /// Checks a square off.
    pub fn bingo_add(&mut self, sq: BingoSquare)
        ensures
            final(self).bingo == old(self).bingo | square_bit(sq),
            final(self).channel_id == old(self).channel_id,
            final(self).name == old(self).name,
    {
        self.bingo = self.bingo | sq.bit();
    }

    /// Unchecks a square.
    pub fn bingo_remove(&mut self, sq: BingoSquare)
        ensures
            final(self).bingo == old(self).bingo & !square_bit(sq),
            final(self).channel_id == old(self).channel_id,
            final(self).name == old(self).name,
    {
        self.bingo = self.bingo & !sq.bit();
    }
}

/// Where a grid position sits on the rendered card image.
pub fn bingo_coord_to_image_coord(x: u32, y: u32) -> (r: (u32, u32))
    requires
        x < 5,
        y < 5,
    ensures
        r.0 == 90 * x + 50,
        r.1 == 97 * y + 175,
{
    let new_x = 90 * x + 50;
    let new_y = 97 * y + 175;
    (new_x, new_y)
}

/// Tallies marked squares per column, row and diagonal, to detect complete
/// lines.
pub struct BingoChecker {
    /// Marks per column, indexed by `x`; always five entries.
    pub x_count: Vec<u8>,
    /// Marks per row, indexed by `y`; always five entries.
    pub y_count: Vec<u8>,
    /// Marks on the diagonal where `x == y`.
    pub positive_diag: u8,
    /// Marks on the diagonal where `x == 4 - y`.
    pub negative_diag: u8,
}

impl BingoChecker {
    /// Five columns and five rows of tallies.
    pub open spec fn wf(self) -> bool {
        self.x_count@.len() == 5 && self.y_count@.len() == 5
    }

    /// An empty tally.
    pub fn new() -> (r: BingoChecker)
        ensures
            r.wf(),
            forall|i: int| 0 <= i < 5 ==> r.x_count@[i] == 0 && r.y_count@[i] == 0,
            r.positive_diag == 0,
            r.negative_diag == 0,
    {
        let mut x_count: Vec<u8> = Vec::new();
        let mut y_count: Vec<u8> = Vec::new();
        let mut i: usize = 0;
        while i < 5
            invariant
                i <= 5,
                x_count@.len() == i,
                y_count@.len() == i,
                forall|j: int| 0 <= j < i ==> x_count@[j] == 0 && y_count@[j] == 0,
            decreases 5 - i,
        {
            x_count.push(0);
            y_count.push(0);
            i = i + 1;
        }
        BingoChecker { x_count, y_count, positive_diag: 0, negative_diag: 0 }
    }

    /// Tallies a mark at grid position `(x, y)`.
    pub fn mark(&mut self, x: u32, y: u32)
        requires
            old(self).wf(),
            x < 5,
            y < 5,
            old(self).x_count@[x as int] < 255,
            old(self).y_count@[y as int] < 255,
            old(self).positive_diag < 255,
            old(self).negative_diag < 255,
        ensures
            final(self).wf(),
            final(self).x_count@ == old(self).x_count@.update(
                x as int,
                (old(self).x_count@[x as int] + 1) as u8,
            ),
            final(self).y_count@ == old(self).y_count@.update(
                y as int,
                (old(self).y_count@[y as int] + 1) as u8,
            ),
            final(self).positive_diag == if x == y {
                old(self).positive_diag + 1
            } else {
                old(self).positive_diag as int
            },
            final(self).negative_diag == if x == 4 - y {
                old(self).negative_diag + 1
            } else {
                old(self).negative_diag as int
            },
    {
        let xc = self.x_count[x as usize];
        self.x_count.set(x as usize, xc + 1);
        let yc = self.y_count[y as usize];
        self.y_count.set(y as usize, yc + 1);
        if x == y {
            self.positive_diag = self.positive_diag + 1;
        }
        if x == 4 - y {
            self.negative_diag = self.negative_diag + 1;
        }
    }

    /// The complete lines to draw across the card: a column or row with
    /// all five squares marked, then each full diagonal, in a fixed order.
    pub fn winning_lines(&self) -> (r: Vec<((u32, u32), (u32, u32))>)
        requires
            self.wf(),
        ensures
            r@ == win_lines_upto(*self, 5) + (if self.positive_diag == 5 {
                seq![((0u32, 0u32), (4u32, 4u32))]
            } else {
                Seq::empty()
            }) + (if self.negative_diag == 5 {
                seq![((4u32, 0u32), (0u32, 4u32))]
            } else {
                Seq::empty()
            }),
    {
        let mut lines: Vec<((u32, u32), (u32, u32))> = Vec::new();
        let mut i: u32 = 0;
        while i < 5
            invariant
                self.wf(),
                i <= 5,
                lines@ == win_lines_upto(*self, i as int),
            decreases 5 - i,
        {
            if self.x_count[i as usize] == 5 {
                lines.push(((i, 0), (i, 4)));
            }
            if self.y_count[i as usize] == 5 {
                lines.push(((0, i), (4, i)));
            }
            i = i + 1;
            proof {
                assert(lines@ =~= win_lines_upto(*self, i as int));
            }
        }
        if self.positive_diag == 5 {
            lines.push(((0, 0), (4, 4)));
        }
        if self.negative_diag == 5 {
            lines.push(((4, 0), (0, 4)));
        }
        proof {
            assert(lines@ =~= win_lines_upto(*self, 5) + (if self.positive_diag == 5 {
                seq![((0u32, 0u32), (4u32, 4u32))]
            } else {
                Seq::empty()
            }) + (if self.negative_diag == 5 {
                seq![((4u32, 0u32), (0u32, 4u32))]
            } else {
                Seq::empty()
            }));
        }
        lines
    }
}

/// The bit of the square at cell index `k` (`k` is `5 * y + x`).
pub open spec fn index_bit(k: int) -> u32 {
    if k == 0 {
        0x1u32
    } else if k == 1 {
        0x2u32
    } else if k == 2 {
        0x4u32
    } else if k == 3 {
        0x8u32
    } else if k == 4 {
        0x10u32
    } else if k == 5 {
        0x20u32
    } else if k == 6 {
        0x40u32
    } else if k == 7 {
        0x80u32
    } else if k == 8 {
        0x100u32
    } else if k == 9 {
        0x200u32
    } else if k == 10 {
        0x400u32
    } else if k == 11 {
        0x800u32
    } else if k == 12 {
        0x1000u32
    } else if k == 13 {
        0x2000u32
    } else if k == 14 {
        0x4000u32
    } else if k == 15 {
        0x8000u32
    } else if k == 16 {
        0x10000u32
    } else if k == 17 {
        0x20000u32
    } else if k == 18 {
        0x40000u32
    } else if k == 19 {
        0x80000u32
    } else if k == 20 {
        0x100000u32
    } else if k == 21 {
        0x200000u32
    } else if k == 22 {
        0x400000u32
    } else if k == 23 {
        0x800000u32
    } else {
        0x1000000u32
    }
}

/// Whether the square at cell index `k` is checked off in `mask`.
pub open spec fn cell_marked(mask: u32, k: int) -> bool {
    mask & index_bit(k) != 0
}

/// The tallies of a card scan, as mathematical values.
#[verifier::ext_equal]
pub ghost struct TallyState {
    pub x_count: Seq<u8>,
    pub y_count: Seq<u8>,
    pub positive_diag: u8,
    pub negative_diag: u8,
}

impl BingoChecker {
    /// The checker's tallies as a value.
    pub open spec fn tally(self) -> TallyState {
        TallyState {
            x_count: self.x_count@,
            y_count: self.y_count@,
            positive_diag: self.positive_diag,
            negative_diag: self.negative_diag,
        }
    }
}

/// The tallies after scanning the first `k` cells of the card in column
/// order (cell `k` sits at column `k / 5`, row `k % 5`).
pub open spec fn tally_after(mask: u32, k: int) -> TallyState
    decreases k,
{
    if k <= 0 {
        TallyState {
            x_count: seq![0u8, 0u8, 0u8, 0u8, 0u8],
            y_count: seq![0u8, 0u8, 0u8, 0u8, 0u8],
            positive_diag: 0u8,
            negative_diag: 0u8,
        }
    } else {
        let t = tally_after(mask, k - 1);
        let x = (k - 1) / 5;
        let y = (k - 1) % 5;
        if cell_marked(mask, 5 * y + x) {
            TallyState {
                x_count: t.x_count.update(x, (t.x_count[x] + 1) as u8),
                y_count: t.y_count.update(y, (t.y_count[y] + 1) as u8),
                positive_diag: if x == y {
                    (t.positive_diag + 1) as u8
                } else {
                    t.positive_diag
                },
                negative_diag: if x == 4 - y {
                    (t.negative_diag + 1) as u8
                } else {
                    t.negative_diag
                },
            }
        } else {
            t
        }
    }
}

/// The overlay positions of the checked squares among the first `k` cells,
/// in scan order: the card position of each marked square, shifted by half
/// the marker's size.
pub open spec fn marks_after(mask: u32, k: int) -> Seq<(u32, u32)>
    decreases k,
{
    if k <= 0 {
        Seq::empty()
    } else {
        let x = (k - 1) / 5;
        let y = (k - 1) % 5;
        marks_after(mask, k - 1) + (if cell_marked(mask, 5 * y + x) {
            seq![(((90 * x + 10) as u32, (97 * y + 145) as u32))]
        } else {
            Seq::empty()
        })
    }
}

/// Each tally a card scan produces stays within the number of cells seen.
proof fn lemma_tally_bounded(mask: u32, k: int)
    requires
        0 <= k <= 25,
    ensures
        tally_after(mask, k).x_count.len() == 5,
        tally_after(mask, k).y_count.len() == 5,
        forall|i: int| 0 <= i < 5 ==> #[trigger] tally_after(mask, k).x_count[i] <= k,
        forall|i: int| 0 <= i < 5 ==> #[trigger] tally_after(mask, k).y_count[i] <= k,
        tally_after(mask, k).positive_diag <= k,
        tally_after(mask, k).negative_diag <= k,
    decreases k,
{
    if k > 0 {
        lemma_tally_bounded(mask, k - 1);
    }
}

impl Competition {
    /// Scans this competition's card: tallies every checked square and
    /// collects the overlay position of each, in scan order. The caller
    /// draws the overlays and the tally's winning lines.
    pub fn bingo_card_scan(&self) -> (r: (BingoChecker, Vec<(u32, u32)>))
        ensures
            r.0.wf(),
            r.0.tally() == tally_after(self.bingo, 25),
            r.1@ == marks_after(self.bingo, 25),
    {
        let mut checker = BingoChecker::new();
        let mut positions: Vec<(u32, u32)> = Vec::new();
        proof {
            assert(checker.tally() =~= tally_after(self.bingo, 0));
        }
        let mut x: u32 = 0;
        while x < 5
            invariant
                x <= 5,
                checker.wf(),
                checker.tally() == tally_after(self.bingo, 5 * x as int),
                positions@ == marks_after(self.bingo, 5 * x as int),
            decreases 5 - x,
        {
            let mut y: u32 = 0;
            while y < 5
                invariant
                    x < 5,
                    y <= 5,
                    checker.wf(),
                    checker.tally() == tally_after(self.bingo, 5 * x as int + y as int),
                    positions@ == marks_after(self.bingo, 5 * x as int + y as int),
                decreases 5 - y,
            {
                let ghost k = 5 * x as int + y as int + 1;
                proof {
                    lemma_tally_bounded(self.bingo, k - 1);
                    assert((k - 1) / 5 == x as int && (k - 1) % 5 == y as int);
                }
                let marked = match BingoSquare::from_coords(x, y) {
                    Some(sq) => self.bingo_contains(sq),
                    None => false,
                };
                proof {
                    assert(marked == cell_marked(self.bingo, 5 * y as int + x as int));
                }
                if marked {
                    checker.mark(x, y);
                    let (x_pos, y_pos) = bingo_coord_to_image_coord(x, y);
                    positions.push((x_pos - 40, y_pos - 30));
                }
                y = y + 1;
                proof {
                    assert(checker.tally() =~= tally_after(self.bingo, k));
                    assert(positions@ =~= marks_after(self.bingo, k));
                }
            }
            x = x + 1;
        }
        (checker, positions)
    }
}

/// The column and row lines complete among the first `i` indices, in the
/// order the card is scanned.
pub open spec fn win_lines_upto(c: BingoChecker, i: int) -> Seq<((u32, u32), (u32, u32))>
    decreases i,
{
    if i <= 0 {
        Seq::empty()
    } else {
        let k = (i - 1) as u32;
        win_lines_upto(c, i - 1) + (if c.x_count@[i - 1] == 5 {
            seq![((k, 0u32), (k, 4u32))]
        } else {
            Seq::empty()
        }) + (if c.y_count@[i - 1] == 5 {
            seq![((0u32, k), (4u32, k))]
        } else {
            Seq::empty()
        })
    }
}

} // verus!
