//! Uniswap V3 TWAP arithmetic: the mean tick over an observation window.

use vstd::prelude::*;

verus! {

/// Integer division rounding toward zero, as Rust's `/` does.
pub open spec fn div_toward_zero(a: int, b: int) -> int {
    if a >= 0 {
        a / b
    } else {
        -((-a) / b)
    }
}

/// Mean tick over the window: `(cumulative_now - cumulative_ago) / elapsed`,
/// rounded toward zero and truncated to 32 bits; zero for an empty window.
pub fn average_tick(tick_cum_now: i64, tick_cum_ago: i64, elapsed: u32) -> (tick: i32)
    requires
        elapsed > 0 ==> i64::MIN <= tick_cum_now - tick_cum_ago <= i64::MAX,
    ensures
        elapsed == 0 ==> tick == 0,
        elapsed > 0 ==> tick == div_toward_zero(tick_cum_now - tick_cum_ago, elapsed as int) as i32,
{
    if elapsed == 0 {
        return 0;
    }
    ((tick_cum_now - tick_cum_ago) / (elapsed as i64)) as i32
}

} // verus!
