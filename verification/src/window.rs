//! Where the window opens.

use vstd::prelude::*;

verus! {

/// The distance between the cursor and the window.
pub const GAP: i32 = 14;

/// Whether a coordinate can be had.
pub open spec fn fits(v: int) -> bool {
    i32::MIN <= v <= i32::MAX
}

/// Whether the window runs over the far edge if it opens behind the cursor.
pub open spec fn runs_over(cursor: int, window: int, origin: int, extent: int) -> bool {
    cursor + GAP + window > origin + extent
}

/// Where the window opens along one axis: behind the cursor, or before it if
/// there is no room behind it, and in any case moved into the monitor. One that
/// is larger than the monitor starts where the monitor does.
pub open spec fn placed(cursor: int, window: int, origin: int, extent: int) -> int {
    let beside = if runs_over(cursor, window, origin, extent) {
        cursor - GAP - window
    } else {
        cursor + GAP
    };
    let last = if origin + extent - window > origin {
        origin + extent - window
    } else {
        origin
    };
    if beside < origin {
        origin
    } else if beside > last {
        last
    } else {
        beside
    }
}

/// Whether every coordinate on the way to the window's can be had.
pub open spec fn placeable(cursor: int, window: int, origin: int, extent: int) -> bool {
    &&& fits(origin + extent)
    &&& fits(cursor + GAP)
    &&& fits(cursor + GAP + window)
    &&& fits(origin + extent - window)
    &&& runs_over(cursor, window, origin, extent) ==> fits(cursor - GAP) && fits(
        cursor - GAP - window,
    )
}

/// Tells whether every coordinate on the way to the window's can be had.
pub fn can_place(cursor: i32, window: i32, origin: i32, extent: i32) -> (r: bool)
    ensures
        r == placeable(cursor as int, window as int, origin as int, extent as int),
{
    let lowest: i64 = i32::MIN as i64;
    let highest: i64 = i32::MAX as i64;
    let gap: i64 = GAP as i64;
    let end: i64 = origin as i64 + extent as i64;
    let behind: i64 = cursor as i64 + gap;
    let far: i64 = behind + window as i64;
    let last: i64 = end - window as i64;
    let before: i64 = cursor as i64 - gap;
    let flipped: i64 = before - window as i64;
    lowest <= end && end <= highest && lowest <= behind && behind <= highest && lowest <= far && far
        <= highest && lowest <= last && last <= highest && (far <= end || (lowest <= before && before
        <= highest && lowest <= flipped && flipped <= highest))
}

/// Where the window opens along one axis, next to the cursor: flipped to the
/// cursor's other side, then moved, so that it always lands fully inside the
/// monitor the cursor is on.
pub fn place(cursor: i32, window: i32, origin: i32, extent: i32) -> (r: i32)
    requires
        placeable(cursor as int, window as int, origin as int, extent as int),
    ensures
        r == placed(cursor as int, window as int, origin as int, extent as int),
{
    let end: i32 = origin + extent;
    let mut at: i32 = cursor + GAP;
    if at + window > end {
        at = cursor - GAP - window;
    }
    // A monitor smaller than the window would make the range invalid.
    let mut last: i32 = end - window;
    if last < origin {
        last = origin;
    }
    if at < origin {
        origin
    } else if at > last {
        last
    } else {
        at
    }
}

/// The window always lands fully inside the monitor, if it fits there at all;
/// if it does not, it starts where the monitor does.
pub proof fn opens_inside_the_monitor(cursor: int, window: int, origin: int, extent: int)
    ensures
        window <= extent ==> origin <= placed(cursor, window, origin, extent) && placed(
            cursor,
            window,
            origin,
            extent,
        ) + window <= origin + extent,
        window >= extent ==> placed(cursor, window, origin, extent) == origin,
{
}

/// The window opens next to the cursor, without covering it, if there is room
/// for it and the gap on either side of the cursor.
pub proof fn opens_beside_the_cursor(cursor: int, window: int, origin: int, extent: int)
    requires
        0 <= window,
        origin <= cursor <= origin + extent,
    ensures
        cursor + GAP + window <= origin + extent ==> placed(cursor, window, origin, extent)
            == cursor + GAP,
        cursor + GAP + window > origin + extent && origin <= cursor - GAP - window ==> placed(
            cursor,
            window,
            origin,
            extent,
        ) + window == cursor - GAP,
{
}

/// The window opens as near as it can to where it wants to be, which is the gap
/// behind the cursor, or the gap before it if that would run over the far edge:
/// no spot on which it would start inside the monitor and not run over the far
/// edge is nearer.
pub proof fn opens_as_near_as_it_can(cursor: int, window: int, origin: int, extent: int, spot: int)
    requires
        origin <= spot,
        spot + window <= origin + extent || spot == origin,
    ensures
        ({
            let at = placed(cursor, window, origin, extent);
            &&& origin <= at
            &&& at + window <= origin + extent || at == origin
            &&& cursor + GAP + window <= origin + extent ==> {
                let want = cursor + GAP;
                &&& at <= want ==> want - at <= vstd::math::abs(want - spot)
                &&& want <= at ==> at - want <= vstd::math::abs(want - spot)
            }
            &&& cursor + GAP + window > origin + extent ==> {
                let want = cursor - GAP - window;
                &&& at <= want ==> want - at <= vstd::math::abs(want - spot)
                &&& want <= at ==> at - want <= vstd::math::abs(want - spot)
            }
        }),
{
}

/// Only where things stand to each other counts: with the cursor and the monitor
/// moved, the window moves along.
pub proof fn the_window_moves_along(cursor: int, window: int, origin: int, extent: int, by: int)
    ensures
        placed(cursor + by, window, origin + by, extent) == placed(cursor, window, origin, extent)
            + by,
{
}

/// Coordinates and sizes that no sum of four of them takes out of range can always
/// be placed.
pub proof fn everyday_windows_can_be_placed(cursor: int, window: int, origin: int, extent: int)
    requires
        -0x1fff_0000 <= cursor <= 0x1fff_0000,
        -0x1fff_0000 <= window <= 0x1fff_0000,
        -0x1fff_0000 <= origin <= 0x1fff_0000,
        -0x1fff_0000 <= extent <= 0x1fff_0000,
    ensures
        placeable(cursor, window, origin, extent),
{
}

} // verus!
