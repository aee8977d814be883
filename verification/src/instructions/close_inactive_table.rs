//! The closing of a table that nobody has played at for a long time: the
//! players get their chips back.

use vstd::prelude::*;
use crate::constants::TABLE_INACTIVE_TIMEOUT_SECONDS;
use crate::error::HiddenHandError;
use crate::instructions::timeout_player::has_elapsed;
use crate::state::player::PlayerSeat;
use crate::state::table::{Table, TableStatus};

verus! {

/// The chips of the first `n` seats together.
pub open spec fn chips_held(seats: Seq<PlayerSeat>, n: int) -> int
    decreases n,
{
    if n <= 0 {
        0
    } else {
        chips_held(seats, n - 1) + seats[n - 1].chips
    }
}

/// Why a table cannot be closed, if it cannot. The checks are made in this
/// order: the table waits, the inactivity window has passed since it last
/// became ready, and the chips of all seats fit in one sum.
pub open spec fn rejection(table: Table, seats: Seq<PlayerSeat>, now: i64) -> Option<
    HiddenHandError,
> {
    if table.status != TableStatus::Waiting {
        Some(HiddenHandError::HandAlreadyInProgress)
    } else if now - table.last_ready_time < TABLE_INACTIVE_TIMEOUT_SECONDS {
        Some(HiddenHandError::TimeoutNotReached)
    } else if chips_held(seats, seats.len() as int) > u64::MAX {
        Some(HiddenHandError::Overflow)
    } else {
        None
    }
}

/// A seat after its table is closed: no chips, no player.
pub open spec fn is_cleared(after: PlayerSeat, before: PlayerSeat) -> bool {
    &&& after.chips == 0
    &&& forall|i: int| 0 <= i < 32 ==> after.player@[i] == 0
    &&& after == (PlayerSeat { chips: after.chips, player: after.player, ..before })
}

/// The chips of a prefix are never negative and grow with the prefix.
proof fn lemma_chips_grow(seats: Seq<PlayerSeat>, m: int, n: int)
    requires
        0 <= m <= n <= seats.len(),
    ensures
        0 <= chips_held(seats, m) <= chips_held(seats, n),
    decreases n,
{
    if m < n {
        lemma_chips_grow(seats, m, n - 1);
    } else if n > 0 {
        lemma_chips_grow(seats, m - 1, n - 1);
    }
}

/// Closes an inactive table. Anyone may ask for this once the inactivity
/// window has passed.
///
/// Returns the chips that are to be paid back in all; seat `i` is owed the
/// chips it held. Afterwards the seats hold no chips and no player, and the
/// table is closed and empty. A rejected request changes nothing.
pub fn handler(table: &mut Table, seats: &mut Vec<PlayerSeat>, now: i64) -> (r: Result<
    u64,
    HiddenHandError,
>)
    ensures
        match r {
            Ok(total_returned) => {
                &&& rejection(*old(table), old(seats)@, now) is None
                &&& total_returned == chips_held(old(seats)@, old(seats)@.len() as int)
                &&& final(seats)@.len() == old(seats)@.len()
                &&& forall|i: int|
                    0 <= i < old(seats)@.len() ==> is_cleared(
                        #[trigger] final(seats)@[i],
                        old(seats)@[i],
                    )
                &&& *final(table) == (Table {
                    status: TableStatus::Closed,
                    current_players: 0,
                    occupied_seats: 0,
                    ..*old(table)
                })
            },
            Err(e) => {
                &&& rejection(*old(table), old(seats)@, now) == Some(e)
                &&& *final(table) == *old(table)
                &&& final(seats)@ == old(seats)@
            },
        },
{
    if table.status != TableStatus::Waiting {
        return Err(HiddenHandError::HandAlreadyInProgress);
    }
    if !has_elapsed(now, table.last_ready_time, TABLE_INACTIVE_TIMEOUT_SECONDS) {
        return Err(HiddenHandError::TimeoutNotReached);
    }
    let n = seats.len();
    let mut total_returned: u64 = 0;
    let mut i: usize = 0;
    while i < n
        invariant
            i <= n,
            n == seats@.len(),
            seats@ == old(seats)@,
            *table == *old(table),
            table.status == TableStatus::Waiting,
            now - table.last_ready_time >= TABLE_INACTIVE_TIMEOUT_SECONDS,
            total_returned == chips_held(seats@, i as int),
        decreases n - i,
    {
        total_returned = match total_returned.checked_add(seats[i].chips) {
            Some(sum) => sum,
            None => {
                proof {
                    assert(chips_held(seats@, i as int + 1) == chips_held(seats@, i as int)
                        + seats@[i as int].chips);
                    lemma_chips_grow(seats@, i as int + 1, n as int);
                }
                return Err(HiddenHandError::Overflow);
            },
        };
        i += 1;
    }
    let mut k: usize = 0;
    while k < n
        invariant
            k <= n,
            n == old(seats)@.len(),
            seats@.len() == n,
            forall|j: int| 0 <= j < k ==> is_cleared(#[trigger] seats@[j], old(seats)@[j]),
            forall|j: int| k <= j < n ==> #[trigger] seats@[j] == old(seats)@[j],
        decreases n - k,
    {
        let mut seat = seats[k];
        seat.chips = 0;
        seat.player = [0u8; 32];
        seats.set(k, seat);
        k += 1;
    }
    table.status = TableStatus::Closed;
    table.current_players = 0;
    table.occupied_seats = 0;
    Ok(total_returned)
}

} // verus!
