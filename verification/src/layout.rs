//! Which tabs fit in the rows available to the tab list.

use vstd::prelude::*;

verus! {

/// The window `[start, end)` grown from `[start, end)` by `room` more tabs,
/// taking turns (starting on the side given by `alt`: `false` for above)
/// and taking from the other side when one side has reached the edge.
pub open spec fn grow(start: int, end: int, room: int, alt: bool, count: int) -> (int, int)
    decreases room,
{
    if room <= 0 {
        (start, end)
    } else if !alt && start > 0 {
        grow(start - 1, end, room - 1, true, count)
    } else if alt && end < count {
        grow(start, end + 1, room - 1, false, count)
    } else if start > 0 {
        grow(start - 1, end, room - 1, !alt, count)
    } else if end < count {
        grow(start, end + 1, room - 1, !alt, count)
    } else {
        (start, end)
    }
}

/// The visible range of `count` tabs in `rows` rows around the tab at
/// `active`: `(start, end, above, below)`, where tabs `start..end` are shown
/// and `above`/`below` tabs are hidden before/after them. When they do not
/// all fit, two rows are kept for the overflow markers.
pub open spec fn visible_range(count: int, rows: int, active: int) -> (int, int, int, int) {
    if count == 0 {
        (0, 0, 0, 0)
    } else if count <= rows {
        (0, count, 0, 0)
    } else if rows <= 2 {
        (0, 0, count, 0)
    } else {
        let (s, e) = grow(active, active + 1, rows - 3, false, count);
        (s, e, s, if count >= e { count - e } else { 0 })
    }
}

/// Computes `visible_range`. The window starts at `active_index + 1` when
/// some tabs are hidden and at least three rows are available, so that
/// index must then be below `usize::MAX`.
pub fn calculate_visible_range(tab_count: usize, available_rows: usize, active_index: usize) -> (r: (
    usize,
    usize,
    usize,
    usize,
))
    requires
        tab_count == 0 || tab_count <= available_rows || available_rows <= 2 || active_index
            < usize::MAX,
    ensures
        (r.0 as int, r.1 as int, r.2 as int, r.3 as int) == visible_range(
            tab_count as int,
            available_rows as int,
            active_index as int,
        ),
{
    if tab_count == 0 {
        return (0, 0, 0, 0);
    }
    if tab_count <= available_rows {
        return (0, tab_count, 0, 0);
    }
    let max_visible = available_rows.saturating_sub(2);
    if max_visible == 0 {
        return (0, 0, tab_count, 0);
    }
    let mut start_index = active_index;
    let mut end_index = active_index + 1;
    let mut room_left = max_visible - 1;
    let mut alternate = false;
    let ghost target = grow(active_index as int, active_index + 1, max_visible - 1, false, tab_count as int);
    while room_left > 0 && (start_index > 0 || end_index < tab_count)
        invariant
            start_index <= active_index,
            end_index >= active_index + 1,
            end_index - start_index + room_left == max_visible,
            max_visible <= usize::MAX,
            grow(start_index as int, end_index as int, room_left as int, alternate, tab_count as int)
                == target,
        decreases room_left,
    {
        if !alternate && start_index > 0 {
            start_index -= 1;
            room_left -= 1;
        } else if alternate && end_index < tab_count {
            end_index += 1;
            room_left -= 1;
        } else if start_index > 0 {
            start_index -= 1;
            room_left -= 1;
        } else {
            end_index += 1;
            room_left -= 1;
        }
        alternate = !alternate;
    }
    (start_index, end_index, start_index, tab_count.saturating_sub(end_index))
}

} // verus!

verus! {

proof fn lemma_grow(start: int, end: int, room: int, alt: bool, count: int)
    requires
        0 <= start < end <= count,
        room >= 0,
        end - start + room <= count,
    ensures
        0 <= grow(start, end, room, alt, count).0 <= start,
        end <= grow(start, end, room, alt, count).1 <= count,
        grow(start, end, room, alt, count).1 - grow(start, end, room, alt, count).0 == end - start
            + room,
    decreases room,
{
    if room > 0 {
        if !alt && start > 0 {
            lemma_grow(start - 1, end, room - 1, true, count);
        } else if alt && end < count {
            lemma_grow(start, end + 1, room - 1, false, count);
        } else if start > 0 {
            lemma_grow(start - 1, end, room - 1, !alt, count);
        } else {
            lemma_grow(start, end + 1, room - 1, !alt, count);
        }
    }
}

/// The rows that the tab list takes: one per visible tab, plus one for each
/// overflow marker that is shown.
pub open spec fn rows_used(r: (int, int, int, int)) -> int {
    (if r.2 > 0 { 1int } else { 0 }) + (r.1 - r.0) + (if r.3 > 0 { 1int } else { 0 })
}

/// The tab list never takes more rows than it is given (when given at least
/// one): the visible tabs and the markers fit.
pub proof fn law_visible_range_fits(count: int, rows: int, active: int)
    requires
        0 <= active < count,
        rows >= 1,
    ensures
        rows_used(visible_range(count, rows, active)) <= rows,
{
    if count > rows && rows > 2 {
        lemma_grow(active, active + 1, rows - 3, false, count);
    }
}

/// The active tab is always shown when the rows allow any tab to be shown;
/// the markers count exactly the tabs that are hidden; and when not all tabs
/// fit, exactly `rows - 2` tabs are shown.
pub proof fn law_active_tab_visible(count: int, rows: int, active: int)
    requires
        0 <= active < count,
        count <= rows || rows > 2,
    ensures
        ({
            let r = visible_range(count, rows, active);
            &&& 0 <= r.0 <= active < r.1 <= count
            &&& r.2 == r.0
            &&& r.3 == count - r.1
            &&& count > rows ==> r.1 - r.0 == rows - 2
        }),
{
    if count > rows {
        lemma_grow(active, active + 1, rows - 3, false, count);
    }
}

} // verus!
