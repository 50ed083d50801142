//! Laws of the grouping engine and the renderer that relate several
//! functions, stated over their models.

use crate::calendar::{calendar_days, lemma_next_day, CivilDate};
use crate::text::right_aligned;
use crate::timeline::format::{joined_text, span_width, with_closing_pipe, SegmentView};
use crate::timeline::timeline_grouping::{
    displayed_days, fits_cell, group_starts, grouped, in_its_week, is_displayed,
    lemma_group_starts, lemma_grouped_by_day_tiles, lemma_grouped_tiles, starts_group,
    timeline_of, with_weeks, DisplayedDayView, GroupResultView, Resolution, TimelineGroupsView,
};
use vstd::prelude::*;

verus! {

/// The dates of a range exist, lie within the range, begin with its start
/// and follow one another day by day.
pub proof fn lemma_calendar_days(start: CivilDate, end: CivilDate)
    ensures
        forall|i: int|
            0 <= i < calendar_days(start, end).len() ==> {
                &&& (#[trigger] calendar_days(start, end)[i]).is_date()
                &&& !calendar_days(start, end)[i].is_before(start)
                &&& !end.is_before(calendar_days(start, end)[i])
            },
        forall|i: int|
            0 <= i < calendar_days(start, end).len() - 1 ==> calendar_days(start, end)[i + 1] == (
            #[trigger] calendar_days(start, end)[i]).next(),
        start.is_date() && end.is_date() && !end.is_before(start) ==> calendar_days(
            start,
            end,
        ).len() > 0 && calendar_days(start, end)[0] == start,
    decreases
        if start.rank() <= end.rank() {
            end.rank() - start.rank() + 1
        } else {
            0
        },
{
    if start.is_date() && end.is_date() && !end.is_before(start) {
        lemma_next_day(start);
        lemma_calendar_days(start.next(), end);
        let rest = calendar_days(start.next(), end);
        let days = calendar_days(start, end);
        assert(days == seq![start] + rest);
        assert forall|i: int| 0 <= i < days.len() implies {
            &&& (#[trigger] days[i]).is_date()
            &&& !days[i].is_before(start)
            &&& !end.is_before(days[i])
        } by {
            if i > 0 {
                assert(days[i] == rest[i - 1]);
            }
        }
        assert forall|i: int| 0 <= i < days.len() - 1 implies days[i + 1] == (
        #[trigger] days[i]).next() by {
            assert(days[i + 1] == rest[i]);
            if i > 0 {
                assert(days[i] == rest[i - 1]);
            } else {
                if rest.len() > 0 {
                    assert(start.next().is_date() && !end.is_before(start.next()));
                }
            }
        }
    }
}

/// The group starts among the first `upto` days do not depend on a day
/// that is added behind them.
proof fn lemma_group_starts_push(
    days: Seq<DisplayedDayView>,
    added: DisplayedDayView,
    resolution: Resolution,
    upto: int,
)
    requires
        upto <= days.len(),
    ensures
        group_starts(days.push(added), resolution, upto) == group_starts(days, resolution, upto),
    decreases upto,
{
    if upto > 0 {
        lemma_group_starts_push(days, added, resolution, upto - 1);
        assert(starts_group(days.push(added), resolution, upto - 1) == starts_group(
            days,
            resolution,
            upto - 1,
        ));
    }
}

/// Adding a displayed day behind the others adds its title where a
/// group begins at it, and leaves the titles as they are where not.
pub proof fn lemma_titles_push(
    days: Seq<DisplayedDayView>,
    added: DisplayedDayView,
    resolution: Resolution,
)
    ensures
        grouped(days.push(added), resolution).titles == if days.len() == 0
            || resolution.transition(days.last(), added) {
            grouped(days, resolution).titles.push(resolution.title(added))
        } else {
            grouped(days, resolution).titles
        },
{
    let count = days.len() as int;
    let longer = days.push(added);
    lemma_group_starts_push(days, added, resolution, count);
    lemma_group_starts(days, resolution, count);
    let before = group_starts(days, resolution, count);
    let after = group_starts(longer, resolution, count + 1);
    assert(starts_group(longer, resolution, count) == (count == 0 || resolution.transition(
        days.last(),
        added,
    )));
    if starts_group(longer, resolution, count) {
        assert(after == before.push(count));
        assert(grouped(longer, resolution).titles =~= grouped(days, resolution).titles.push(
            resolution.title(added),
        ));
    } else {
        assert(after == before);
        assert(grouped(longer, resolution).titles =~= grouped(days, resolution).titles);
    }
}

/// A number for the month, quarter or year that a date lies in, counted
/// through the years: it is the same for two dates exactly when both lie
/// in the same month, quarter or year, and goes up by one from each month,
/// quarter or year to the next. For weeks it is the ISO week number, which
/// comes back every year.
pub open spec fn period_of(resolution: Resolution, date: CivilDate) -> int {
    match resolution {
        Resolution::Weeks => date.iso_week(),
        Resolution::Months => date.year * 12 + (date.month - 1),
        Resolution::Quarters => date.year * 4 + (date.quarter() - 1),
        Resolution::Years => date.year,
    }
}

/// Every month (quarter, year) that the range touches has a day in the
/// range that is no Saturday or Sunday.
pub open spec fn every_period_has_a_weekday(
    start: CivilDate,
    end: CivilDate,
    resolution: Resolution,
) -> bool {
    covers_every_period(calendar_days(start, end), resolution)
}

/// Some date of `days` that is no Saturday or Sunday lies in the period of
/// the date at `position`.
pub open spec fn period_has_a_weekday(
    days: Seq<CivilDate>,
    resolution: Resolution,
    position: int,
) -> bool {
    exists|j: int|
        0 <= j < days.len() && !(#[trigger] days[j]).is_weekend() && period_of(
            resolution,
            days[j],
        ) == period_of(resolution, days[position])
}

/// Every date of `days` shares its period with a date of `days` that is
/// no Saturday or Sunday.
pub open spec fn covers_every_period(days: Seq<CivilDate>, resolution: Resolution) -> bool {
    forall|i: int|
        0 <= i < days.len() ==> #[trigger] period_has_a_weekday(days, resolution, i)
}

/// The dates exist and follow one another day by day.
pub open spec fn is_day_chain(days: Seq<CivilDate>) -> bool {
    &&& forall|i: int| 0 <= i < days.len() ==> (#[trigger] days[i]).is_date()
    &&& forall|i: int| 0 <= i < days.len() - 1 ==> days[i + 1] == (#[trigger] days[i]).next()
}

/// Of two dates in the same period neither begins a new group after the
/// other, and both have the same title; a date in the period after
/// another's begins a new group after it.
proof fn lemma_period_decides(resolution: Resolution, a: CivilDate, b: CivilDate)
    requires
        resolution != Resolution::Weeks,
        a.is_date(),
        b.is_date(),
    ensures
        period_of(resolution, a) == period_of(resolution, b) ==> !resolution.transition(
            in_its_week(a),
            in_its_week(b),
        ) && resolution.title(in_its_week(a)) == resolution.title(in_its_week(b)),
        period_of(resolution, a) + 1 == period_of(resolution, b) ==> resolution.transition(
            in_its_week(a),
            in_its_week(b),
        ),
{
}

/// From a day to the next the period stays or goes up by one.
proof fn lemma_period_step(resolution: Resolution, date: CivilDate)
    requires
        resolution != Resolution::Weeks,
        date.is_date(),
    ensures
        period_of(resolution, date) <= period_of(resolution, date.next()) <= period_of(
            resolution,
            date,
        ) + 1,
{
}

/// Along a chain of days the period never goes down.
proof fn lemma_period_is_monotone(days: Seq<CivilDate>, resolution: Resolution, i: int, j: int)
    requires
        resolution != Resolution::Weeks,
        is_day_chain(days),
        0 <= i <= j < days.len(),
    ensures
        period_of(resolution, days[i]) <= period_of(resolution, days[j]),
    decreases j - i,
{
    if i < j {
        lemma_period_is_monotone(days, resolution, i, j - 1);
        lemma_period_step(resolution, days[j - 1]);
    }
}

/// How the titles over the first `upto` days relate to the titles over
/// those of them that are displayed when weekends are hidden: they are the
/// same once the period of the last day has a displayed day; until then the
/// titles over all days are ahead by the title of that period.
spec fn titles_keep_pace(days: Seq<CivilDate>, resolution: Resolution, upto: int) -> bool {
    let all = days.take(upto);
    let shown = all.filter(is_displayed(false));
    let all_titles = grouped(with_weeks(all), resolution).titles;
    let shown_titles = grouped(with_weeks(shown), resolution).titles;
    if upto <= 0 {
        all_titles == shown_titles && shown.len() == 0
    } else {
        let last = days[upto - 1];
        &&& shown.len() > 0 ==> shown.last().is_date()
        &&& {
            ||| {
                &&& shown.len() > 0
                &&& period_of(resolution, shown.last()) == period_of(resolution, last)
                &&& all_titles == shown_titles
            }
            ||| {
                &&& forall|i: int|
                    0 <= i < upto && !(#[trigger] days[i]).is_weekend() ==> period_of(
                        resolution,
                        days[i],
                    ) < period_of(resolution, last)
                &&& shown.len() > 0 ==> period_of(resolution, shown.last()) + 1 == period_of(
                    resolution,
                    last,
                )
                &&& all_titles == shown_titles.push(resolution.title(in_its_week(last)))
            }
        }
    }
}

/// Along a chain of days in which every period has a day that is no
/// Saturday or Sunday, the titles keep pace up to every position.
proof fn lemma_titles_keep_pace(days: Seq<CivilDate>, resolution: Resolution, upto: int)
    requires
        resolution != Resolution::Weeks,
        is_day_chain(days),
        covers_every_period(days, resolution),
        0 <= upto <= days.len(),
    ensures
        titles_keep_pace(days, resolution, upto),
    decreases upto,
{
    let hidden = is_displayed(false);
    let all = days.take(upto);
    let shown = all.filter(hidden);
    if upto == 0 {
        assert(all =~= Seq::<CivilDate>::empty());
        assert(shown =~= Seq::<CivilDate>::empty()) by {
            reveal(Seq::filter);
        }
        assert(with_weeks(all) =~= with_weeks(shown));
    } else {
        lemma_titles_keep_pace(days, resolution, upto - 1);
        let added = days[upto - 1];
        let all_before = days.take(upto - 1);
        let shown_before = all_before.filter(hidden);
        assert(all =~= all_before.push(added));
        all_before.lemma_filter_push(added, hidden);
        lemma_titles_push(with_weeks(all_before), in_its_week(added), resolution);
        lemma_titles_push(with_weeks(shown_before), in_its_week(added), resolution);
        assert(with_weeks(all_before.push(added)) =~= with_weeks(all_before).push(
            in_its_week(added),
        ));
        assert(with_weeks(shown_before.push(added)) =~= with_weeks(shown_before).push(
            in_its_week(added),
        ));
        if shown_before.len() > 0 {
            assert(with_weeks(shown_before).last() == in_its_week(shown_before.last()));
        }
        assert(hidden(added) == !added.is_weekend());
        if upto == 1 {
            assert(all_before.len() == 0);
        } else {
            let last = days[upto - 2];
            assert(all_before.last() == last);
            assert(with_weeks(all_before).last() == in_its_week(last));
            assert(added == last.next());
            lemma_period_step(resolution, last);
            lemma_period_decides(resolution, last, added);
            if shown_before.len() > 0 {
                lemma_period_decides(resolution, shown_before.last(), added);
            }
            if period_of(resolution, added) == period_of(resolution, last) + 1 {
                // The period of `last` is over: one of its days is displayed.
                assert(period_has_a_weekday(days, resolution, upto - 2));
                let witness = choose|j: int|
                    0 <= j < days.len() && !(#[trigger] days[j]).is_weekend() && period_of(
                        resolution,
                        days[j],
                    ) == period_of(resolution, days[upto - 2]);
                if witness >= upto - 1 {
                    lemma_period_is_monotone(days, resolution, upto - 1, witness);
                }
                assert forall|i: int| 0 <= i < upto && !(#[trigger] days[i]).is_weekend()
                    && added.is_weekend() implies period_of(resolution, days[i]) < period_of(
                    resolution,
                    added,
                ) by {
                    lemma_period_is_monotone(days, resolution, i, upto - 2);
                }
            }
        }
    }
}

/// Hiding weekends does not change the titles of months, quarters or
/// years, as long as every month (quarter, year) that the range touches
/// has a day in the range that is no Saturday or Sunday.
pub proof fn lemma_hiding_weekends_keeps_titles(
    start: CivilDate,
    end: CivilDate,
    resolution: Resolution,
)
    requires
        resolution != Resolution::Weeks,
        every_period_has_a_weekday(start, end, resolution),
    ensures
        grouped(displayed_days(start, end, false), resolution).titles == grouped(
            displayed_days(start, end, true),
            resolution,
        ).titles,
{
    let days = calendar_days(start, end);
    lemma_calendar_days(start, end);
    lemma_shows_every_day(days);
    lemma_titles_keep_pace(days, resolution, days.len() as int);
    assert(days.take(days.len() as int) =~= days);
    if days.len() > 0 {
        let last = days[days.len() - 1];
        assert(period_has_a_weekday(days, resolution, days.len() - 1));
        let witness = choose|j: int|
            0 <= j < days.len() && !(#[trigger] days[j]).is_weekend() && period_of(
                resolution,
                days[j],
            ) == period_of(resolution, days[days.len() - 1]);
        assert(!days[witness].is_weekend());
    }
}

/// With weekends shown every day is displayed.
pub proof fn lemma_shows_every_day(days: Seq<CivilDate>)
    ensures
        days.filter(is_displayed(true)) == days,
    decreases days.len(),
{
    reveal(Seq::filter);
    if days.len() > 0 {
        lemma_shows_every_day(days.drop_last());
        assert(days.drop_last().push(days.last()) =~= days);
    }
}

/// Hiding weekends never adds a column, and takes columns away exactly
/// when the range holds a Saturday or a Sunday. The last delimiter of every
/// resolution is the number of columns, so it moves with them.
pub proof fn lemma_hiding_weekends_drops_columns(start: CivilDate, end: CivilDate)
    ensures
        displayed_days(start, end, false).len() <= displayed_days(start, end, true).len(),
        displayed_days(start, end, true) == with_weeks(calendar_days(start, end)),
        displayed_days(start, end, false).len() == displayed_days(start, end, true).len() <==> (
        forall|i: int|
            0 <= i < calendar_days(start, end).len() ==> !(#[trigger] calendar_days(
                start,
                end,
            )[i]).is_weekend()),
{
    let days = calendar_days(start, end);
    lemma_shows_every_day(days);
    lemma_weekdays_count(days);
}

/// Of a sequence of dates as many are displayed with weekends hidden as
/// there are dates exactly when none is a Saturday or a Sunday; else fewer.
proof fn lemma_weekdays_count(days: Seq<CivilDate>)
    ensures
        days.filter(is_displayed(false)).len() <= days.len(),
        days.filter(is_displayed(false)).len() == days.len() <==> (forall|i: int|
            0 <= i < days.len() ==> !(#[trigger] days[i]).is_weekend()),
    decreases days.len(),
{
    let hidden = is_displayed(false);
    if days.len() == 0 {
        assert(days.filter(hidden).len() == 0) by {
            reveal(Seq::filter);
        }
    } else {
        let before = days.drop_last();
        lemma_weekdays_count(before);
        assert(before.push(days.last()) =~= days);
        before.lemma_filter_push(days.last(), hidden);
        assert(hidden(days.last()) == !days.last().is_weekend());
        if days.filter(hidden).len() == days.len() {
            assert forall|i: int| 0 <= i < days.len() implies !(#[trigger] days[i]).is_weekend() by {
                if i < before.len() {
                    assert(days[i] == before[i]);
                }
            }
        }
        if forall|i: int| 0 <= i < days.len() ==> !(#[trigger] days[i]).is_weekend() {
            assert forall|i: int| 0 <= i < before.len() implies !(#[trigger] before[i]).is_weekend() by {
                assert(before[i] == days[i]);
            }
            assert(!days[days.len() - 1].is_weekend());
        }
    }
}

/// Whatever the displayed days are, each of the five resolutions tiles
/// their columns: its first delimiter is 0, its last is the number of
/// columns, its groups leave no gap and do not overlap, and it has one
/// more delimiter than titles. In the day resolution every displayed day
/// has its own title and a single column.
pub proof fn lemma_timeline_tiles(days: Seq<DisplayedDayView>)
    ensures
        timeline_of(days).tiles(days.len() as int),
        timeline_of(days).days.titles.len() == days.len(),
        timeline_of(days).days.has_one_column_per_title(),
{
    lemma_grouped_by_day_tiles(days);
    lemma_grouped_tiles(days, Resolution::Weeks);
    lemma_grouped_tiles(days, Resolution::Months);
    lemma_grouped_tiles(days, Resolution::Quarters);
    lemma_grouped_tiles(days, Resolution::Years);
}

/// The rendered timeline of a range depends on nothing but the range and
/// the choice to show weekends: two groupings of the same request render
/// to the same text.
pub proof fn lemma_rendering_is_deterministic(
    first: TimelineGroupsView,
    second: TimelineGroupsView,
    start: CivilDate,
    end: CivilDate,
    show_weekends: bool,
)
    requires
        first == timeline_of(displayed_days(start, end, show_weekends)),
        second == timeline_of(displayed_days(start, end, show_weekends)),
    ensures
        first.rendered() == second.rendered(),
{
}

/// The text of a sequence of segments is the text of its first `k`
/// segments followed by the text of the others.
proof fn lemma_joined_text_split(segments: Seq<SegmentView>, k: int)
    requires
        0 <= k <= segments.len(),
    ensures
        joined_text(segments) == joined_text(segments.take(k)) + joined_text(segments.skip(k)),
    decreases segments.len(),
{
    if k == segments.len() {
        assert(segments.take(k) =~= segments);
        assert(segments.skip(k) =~= Seq::<SegmentView>::empty());
        assert(joined_text(segments) =~= joined_text(segments) + Seq::<char>::empty());
    } else {
        let before = segments.drop_last();
        lemma_joined_text_split(before, k);
        assert(before.take(k) =~= segments.take(k));
        assert(segments.skip(k).drop_last() =~= before.skip(k));
        assert(segments.skip(k).last() == segments.last());
        assert(joined_text(segments) =~= joined_text(segments.take(k)) + joined_text(
            segments.skip(k),
        ));
    }
}

/// In a row whose groups tile the columns and whose titles fit a cell, the
/// text before group `k` has four characters for each column before the
/// group.
proof fn lemma_row_prefix_len(group: GroupResultView, columns: int, k: int)
    requires
        group.tiles(columns),
        group.has_cell_titles(),
        0 <= k <= group.titles.len(),
    ensures
        joined_text(group.segments().take(k)).len() == 4 * group.delimiters[k],
    decreases k,
{
    let segments = group.segments();
    if k == 0 {
        assert(segments.take(0) =~= Seq::<SegmentView>::empty());
    } else {
        lemma_row_prefix_len(group, columns, k - 1);
        assert(segments.take(k).drop_last() =~= segments.take(k - 1));
        assert(segments.take(k).last() == segments[k - 1]);
        assert(group.delimiters[k - 1] < group.delimiters[k]);
        assert(fits_cell(group.titles[k - 1]));
    }
}

/// Alignment of a row to the day columns. In a row whose groups tile the
/// columns and whose titles fit a cell, every column takes four
/// characters: the row has four characters per column before it is closed
/// with a `|`, and the cell of each group stands exactly over the columns
/// of the group, from four times its first column up to four times the
/// column after its last, as a `|` and the title right-aligned.
pub proof fn lemma_row_is_aligned(group: GroupResultView, columns: int)
    requires
        group.tiles(columns),
        group.has_cell_titles(),
    ensures
        group.row().len() == 4 * columns,
        with_closing_pipe(group.row()) == group.row().push('|'),
        forall|i: int|
            0 <= i < group.titles.len() ==> group.row().subrange(
                4 * group.delimiters[i],
                4 * group.delimiters[i + 1],
            ) == seq!['|'] + right_aligned(
                group.titles[i],
                span_width(#[trigger] group.span_of(i)),
            ),
{
    let segments = group.segments();
    let row = group.row();
    lemma_row_prefix_len(group, columns, group.titles.len() as int);
    assert(segments.take(group.titles.len() as int) =~= segments);
    if group.titles.len() > 0 {
        let last = group.titles.len() - 1;
        assert(segments.last() == segments[last]);
        assert(fits_cell(group.titles[last]));
        assert(group.delimiters[last] < group.delimiters[last + 1]);
        let cell = segments[last].text();
        assert(cell.last() != '|') by {
            let title = group.titles[last];
            if title.len() > 0 {
                assert(cell.last() == title[title.len() - 1]);
            } else {
                assert(cell.last() == ' ');
            }
        }
        assert(row.last() == cell.last());
    }
    assert forall|i: int| 0 <= i < group.titles.len() implies row.subrange(
        4 * group.delimiters[i],
        4 * group.delimiters[i + 1],
    ) == seq!['|'] + right_aligned(group.titles[i], span_width(#[trigger] group.span_of(i))) by {
        lemma_row_prefix_len(group, columns, i);
        lemma_row_prefix_len(group, columns, i + 1);
        lemma_joined_text_split(segments, i + 1);
        let upto = segments.take(i + 1);
        assert(upto.drop_last() =~= segments.take(i));
        assert(upto.last() == segments[i]);
        assert(joined_text(upto) == joined_text(segments.take(i)) + segments[i].text());
        assert(row.subrange(4 * group.delimiters[i], 4 * group.delimiters[i + 1])
            =~= segments[i].text());
    }
}

/// Months, quarters and years begin a new group exactly where the title
/// changes: between two dates a group begins if and only if their titles
/// differ. For years the dates must lie in the same year or in two years
/// that follow one another, since the title keeps two digits only.
pub proof fn lemma_group_begins_where_title_changes(
    resolution: Resolution,
    prev: DisplayedDayView,
    curr: DisplayedDayView,
)
    requires
        resolution != Resolution::Weeks,
        prev.date.is_date(),
        curr.date.is_date(),
        resolution == Resolution::Years ==> prev.date.year <= curr.date.year <= prev.date.year
            + 1,
    ensures
        resolution.transition(prev, curr) <==> resolution.title(prev) != resolution.title(curr),
{
    let before = resolution.title(prev);
    let after = resolution.title(curr);
    if resolution.transition(prev, curr) {
        match resolution {
            Resolution::Weeks => {},
            Resolution::Months => {
                assert(before[0] != after[0] || before[1] != after[1] || before[2] != after[2]);
            },
            Resolution::Quarters => {
                assert(before[1] != after[1]);
            },
            Resolution::Years => {
                assert(before[1] != after[1]);
            },
        }
    }
}

/// The rows of a timeline are aligned to one another. When the five
/// resolutions tile the same columns and their titles fit a cell, every
/// row, closed with its `|`, has four characters per column and one more,
/// so that all five share their right edge; and in every row the cell of a
/// group begins four characters times the group's first column into the
/// row.
pub proof fn lemma_rows_are_aligned(groups: TimelineGroupsView, columns: int)
    requires
        groups.tiles(columns),
        groups.has_cell_titles(),
    ensures
        with_closing_pipe(groups.years.row()).len() == 4 * columns + 1,
        with_closing_pipe(groups.quarters.row()).len() == 4 * columns + 1,
        with_closing_pipe(groups.months.row()).len() == 4 * columns + 1,
        with_closing_pipe(groups.weeks.row()).len() == 4 * columns + 1,
        with_closing_pipe(groups.days.row()).len() == 4 * columns + 1,
        cells_begin_at_columns(groups.years),
        cells_begin_at_columns(groups.quarters),
        cells_begin_at_columns(groups.months),
        cells_begin_at_columns(groups.weeks),
        cells_begin_at_columns(groups.days),
{
    lemma_cells_begin_at_columns(groups.years, columns);
    lemma_cells_begin_at_columns(groups.quarters, columns);
    lemma_cells_begin_at_columns(groups.months, columns);
    lemma_cells_begin_at_columns(groups.weeks, columns);
    lemma_cells_begin_at_columns(groups.days, columns);
}

/// In the row of `group` the cell of every group begins with a `|` at the
/// character four times the group's first column.
pub open spec fn cells_begin_at_columns(group: GroupResultView) -> bool {
    forall|i: int|
        0 <= i < group.titles.len() ==> 0 <= 4 * (#[trigger] group.delimiters[i])
            < group.row().len() && group.row()[4 * group.delimiters[i]] == '|'
}

/// In a row whose groups tile the columns and whose titles fit a cell,
/// every cell begins at its column, and the closed row has four characters
/// per column and one more.
proof fn lemma_cells_begin_at_columns(group: GroupResultView, columns: int)
    requires
        group.tiles(columns),
        group.has_cell_titles(),
    ensures
        cells_begin_at_columns(group),
        with_closing_pipe(group.row()).len() == 4 * columns + 1,
{
    lemma_row_is_aligned(group, columns);
    let row = group.row();
    assert forall|i: int| 0 <= i < group.titles.len() implies 0 <= 4 * (
    #[trigger] group.delimiters[i]) < row.len() && row[4 * group.delimiters[i]] == '|' by {
        assert(group.span_of(i) == group.delimiters[i + 1] - group.delimiters[i]);
        assert(group.delimiters[i] < group.delimiters[i + 1]);
        if i > 0 {
            assert(group.delimiters[0] < group.delimiters[i]);
        }
        if i + 1 < group.delimiters.len() - 1 {
            assert(group.delimiters[i + 1] < group.delimiters[group.delimiters.len() - 1]);
        }
        let cell = row.subrange(4 * group.delimiters[i], 4 * group.delimiters[i + 1]);
        assert(cell[0] == row[4 * group.delimiters[i]]);
    }
}

} // verus!
