//! The two-word form in which the host's time query hands out a timestamp.

use vstd::prelude::*;

verus! {

/// A timestamp split into two 32-bit words, as the host's query writes it
/// into the caller's buffer.
#[derive(Clone, Copy, Debug, PartialEq, Eq, Structural)]
pub struct FileTime {
    /// The low 32 bits of the tick count.
    pub low_date_time: u32,
    /// The high 32 bits of the tick count.
    pub high_date_time: u32,
}

impl FileTime {
    /// The tick count that the two words hold.
    pub open spec fn ticks(self) -> int {
        self.high_date_time * 0x1_0000_0000 + self.low_date_time
    }

    /// The two words that hold `ticks`.
    pub open spec fn of_ticks(ticks: u64) -> FileTime {
        FileTime {
            low_date_time: (ticks % 0x1_0000_0000) as u32,
            high_date_time: (ticks / 0x1_0000_0000) as u32,
        }
    }

    /// Splits a tick count into its two words.
    pub fn from_ticks(ticks: u64) -> (file_time: FileTime)
        ensures
            file_time == Self::of_ticks(ticks),
            file_time.ticks() == ticks,
    {
        let low = ticks & 0xFFFF_FFFF;
        let high = ticks >> 32;
        assert(low == ticks % 0x1_0000_0000 && high == ticks / 0x1_0000_0000) by (bit_vector)
            requires
                low == ticks & 0xFFFF_FFFF,
                high == ticks >> 32,
        ;
        FileTime { low_date_time: low as u32, high_date_time: high as u32 }
    }
}

/// Every tick count is the one that its two words hold, and two words are
/// those of the tick count they hold: the split loses nothing.
pub proof fn lemma_file_time_round_trip(ticks: u64, file_time: FileTime)
    ensures
        FileTime::of_ticks(ticks).ticks() == ticks,
        0 <= file_time.ticks() <= u64::MAX,
        FileTime::of_ticks(file_time.ticks() as u64) == file_time,
{
}

} // verus!
