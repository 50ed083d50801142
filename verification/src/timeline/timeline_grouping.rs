//! The grouping engine: from a date range to five group results over one
//! shared sequence of displayed day columns.

use crate::calendar::{
    calendar_days, following_day, iso_week_number, lemma_next_day, month_abbreviation, month_name,
    weekday_number, CivilDate, Date,
};
use crate::text::{
    decimal, decimal_string, is_plain, lemma_decimal_is_plain, lemma_decimal_len, two_digit_string,
    two_digits,
};
use vstd::prelude::*;
use vstd::string::*;

verus! {

/// One resolution of a timeline: the titles of its groups and the column
/// boundaries between them. Group `i` covers the columns from
/// `delimiters[i]` up to, not including, `delimiters[i + 1]`.
#[derive(Debug, PartialEq)]
pub struct GroupResult {
    pub titles: Vec<String>,
    pub delimiters: Vec<i32>,
}

/// The five resolutions of one timeline.
#[derive(Debug, PartialEq)]
pub struct TimelineGroups {
    pub days: GroupResult,
    pub weeks: GroupResult,
    pub months: GroupResult,
    pub quarters: GroupResult,
    pub years: GroupResult,
}

/// Mathematical model of a [`GroupResult`].
pub struct GroupResultView {
    pub titles: Seq<Seq<char>>,
    pub delimiters: Seq<int>,
}

/// Mathematical model of a [`TimelineGroups`].
pub struct TimelineGroupsView {
    pub days: GroupResultView,
    pub weeks: GroupResultView,
    pub months: GroupResultView,
    pub quarters: GroupResultView,
    pub years: GroupResultView,
}

impl GroupResultView {
    /// The groups tile the columns `0` up to, not including, `columns`:
    /// there is one more delimiter than there are titles, the first
    /// delimiter is 0, the last is `columns`, and each is smaller than the
    /// ones after it, so that every group has at least one column and no
    /// column is left out or covered twice.
    pub open spec fn tiles(self, columns: int) -> bool {
        &&& self.delimiters.len() == self.titles.len() + 1
        &&& self.delimiters[0] == 0
        &&& self.delimiters.last() == columns
        &&& forall|i: int, j: int|
            0 <= i < j < self.delimiters.len() ==> self.delimiters[i] < self.delimiters[j]
    }
}

impl GroupResultView {
    /// Number of columns of group `i`.
    pub open spec fn span_of(self, i: int) -> int {
        self.delimiters[i + 1] - self.delimiters[i]
    }

    /// Every title has exactly one column.
    pub open spec fn has_one_column_per_title(self) -> bool {
        forall|i: int| 0 <= i < self.titles.len() ==> #[trigger] self.span_of(i) == 1
    }

    /// What rendering asks of a group result: every title has its two
    /// delimiters and at least one column. The first delimiter may lie
    /// above 0, which leaves a gap before the first group.
    pub open spec fn is_renderable(self) -> bool {
        &&& self.titles.len() < self.delimiters.len()
        &&& forall|i: int| 0 <= i < self.titles.len() ==> #[trigger] self.span_of(i) >= 1
    }
}

/// The text fits the cell of one column: it is no longer than three
/// characters and holds no `|`.
pub open spec fn fits_cell(title: Seq<char>) -> bool {
    title.len() <= 3 && is_plain(title)
}

impl GroupResultView {
    /// Every title fits the cell of one column.
    pub open spec fn has_cell_titles(self) -> bool {
        forall|i: int| 0 <= i < self.titles.len() ==> fits_cell(#[trigger] self.titles[i])
    }
}

impl TimelineGroupsView {
    /// Every title of every resolution fits the cell of one column.
    pub open spec fn has_cell_titles(self) -> bool {
        &&& self.days.has_cell_titles()
        &&& self.weeks.has_cell_titles()
        &&& self.months.has_cell_titles()
        &&& self.quarters.has_cell_titles()
        &&& self.years.has_cell_titles()
    }

    /// Each of the five resolutions can be rendered.
    pub open spec fn is_renderable(self) -> bool {
        &&& self.days.is_renderable()
        &&& self.weeks.is_renderable()
        &&& self.months.is_renderable()
        &&& self.quarters.is_renderable()
        &&& self.years.is_renderable()
    }

    /// Each of the five resolutions tiles the same `columns`.
    pub open spec fn tiles(self, columns: int) -> bool {
        &&& self.days.tiles(columns)
        &&& self.weeks.tiles(columns)
        &&& self.months.tiles(columns)
        &&& self.quarters.tiles(columns)
        &&& self.years.tiles(columns)
    }
}

/// The texts of a sequence of strings.
pub open spec fn title_views(titles: Seq<String>) -> Seq<Seq<char>> {
    Seq::new(titles.len(), |i: int| titles[i]@)
}

/// The values of a sequence of column numbers.
pub open spec fn column_values(columns: Seq<i32>) -> Seq<int> {
    Seq::new(columns.len(), |i: int| columns[i] as int)
}

/// The models of a sequence of displayed days.
pub open spec fn day_views(days: Seq<DisplayedDay>) -> Seq<DisplayedDayView> {
    Seq::new(days.len(), |i: int| days[i]@)
}

impl View for GroupResult {
    type V = GroupResultView;

    open spec fn view(&self) -> GroupResultView {
        GroupResultView {
            titles: title_views(self.titles@),
            delimiters: column_values(self.delimiters@),
        }
    }
}

impl View for TimelineGroups {
    type V = TimelineGroupsView;

    open spec fn view(&self) -> TimelineGroupsView {
        TimelineGroupsView {
            days: self.days@,
            weeks: self.weeks@,
            months: self.months@,
            quarters: self.quarters@,
            years: self.years@,
        }
    }
}

/// A displayed date with what the grouping reads of it besides the date
/// itself: the number of its ISO week. The position of a displayed day in
/// the sequence it stands in is its column.
#[derive(Debug, Clone, Copy, PartialEq, Eq, Structural)]
pub struct DisplayedDay {
    pub date: Date,
    pub iso_week: u32,
}

/// Mathematical model of a [`DisplayedDay`].
pub struct DisplayedDayView {
    pub date: CivilDate,
    pub iso_week: int,
}

impl View for DisplayedDay {
    type V = DisplayedDayView;

    open spec fn view(&self) -> DisplayedDayView {
        DisplayedDayView { date: self.date@, iso_week: self.iso_week as int }
    }
}

impl DisplayedDayView {
    /// The week number is one that a year has: 1 to 53.
    pub open spec fn has_week_number(self) -> bool {
        1 <= self.iso_week <= 53
    }
}

/// A range whose end lies before its start.
#[derive(Debug, Clone, Copy, PartialEq, Eq, Structural)]
pub struct RangeError {
    pub start_date: Date,
    pub end_date: Date,
}

/// The resolutions whose groups are runs of displayed dates between
/// transitions.
#[derive(Debug, Clone, Copy, PartialEq, Eq, Structural)]
pub enum Resolution {
    Weeks,
    Months,
    Quarters,
    Years,
}

/// More displayed days than any range of dates can have.
pub const MAX_COLUMNS: usize = 195034392;

/// The test a date passes to be displayed: every date when weekends are
/// shown, Monday to Friday when they are hidden.
pub open spec fn is_displayed(show_weekends: bool) -> spec_fn(CivilDate) -> bool {
    |date: CivilDate| show_weekends || !date.is_weekend()
}

/// The displayed dates of a range, in calendar order.
pub open spec fn displayed_dates_of(start: CivilDate, end: CivilDate, show_weekends: bool) -> Seq<
    CivilDate,
> {
    calendar_days(start, end).filter(is_displayed(show_weekends))
}

/// A date as a displayed day: with the number of its ISO week.
pub open spec fn in_its_week(date: CivilDate) -> DisplayedDayView {
    DisplayedDayView { date, iso_week: date.iso_week() }
}

/// The dates as displayed days, each with the number of its ISO week.
pub open spec fn with_weeks(dates: Seq<CivilDate>) -> Seq<DisplayedDayView> {
    Seq::new(dates.len(), |i: int| in_its_week(dates[i]))
}

/// The displayed days of a range, in calendar order. The position of a
/// day in this sequence is its column.
pub open spec fn displayed_days(start: CivilDate, end: CivilDate, show_weekends: bool) -> Seq<
    DisplayedDayView,
> {
    with_weeks(displayed_dates_of(start, end, show_weekends))
}

/// Position of the last displayed day; 0 when none is displayed.
pub open spec fn max_position(days: Seq<DisplayedDayView>) -> int {
    if days.len() == 0 {
        0
    } else {
        days.len() - 1
    }
}

impl Resolution {
    /// Whether a new group begins between two displayed days that follow
    /// one another: whether the ISO week number, the month, the quarter or
    /// the year changes from one to the other.
    pub open spec fn transition(self, prev: DisplayedDayView, curr: DisplayedDayView) -> bool {
        match self {
            Resolution::Weeks => prev.iso_week != curr.iso_week,
            Resolution::Months => prev.date.month != curr.date.month,
            Resolution::Quarters => prev.date.quarter() != curr.date.quarter(),
            Resolution::Years => prev.date.year != curr.date.year,
        }
    }

    /// Title of the group that a displayed day belongs to: the ISO week
    /// number, the month abbreviation, `Q` and the quarter, or the last
    /// two digits of the year.
    pub open spec fn title(self, day: DisplayedDayView) -> Seq<char> {
        match self {
            Resolution::Weeks => decimal(day.iso_week as nat),
            Resolution::Months => month_name(day.date.month),
            Resolution::Quarters => seq!['Q'] + decimal(day.date.quarter() as nat),
            Resolution::Years => two_digits(vstd::math::abs(day.date.year)),
        }
    }
}

/// Whether a group begins at `position`: at the first displayed day, and
/// wherever the resolution has a transition from the day before.
pub open spec fn starts_group(
    days: Seq<DisplayedDayView>,
    resolution: Resolution,
    position: int,
) -> bool {
    position == 0 || resolution.transition(days[position - 1], days[position])
}

/// The positions below `upto` at which a group begins, ascending.
pub open spec fn group_starts(days: Seq<DisplayedDayView>, resolution: Resolution, upto: int) -> Seq<
    int,
>
    decreases upto,
{
    if upto <= 0 {
        Seq::empty()
    } else {
        let before = group_starts(days, resolution, upto - 1);
        if starts_group(days, resolution, upto - 1) {
            before.push(upto - 1)
        } else {
            before
        }
    }
}

/// The group result of `resolution` over the displayed days: one title
/// per group, taken from the day the group begins at, and as delimiters
/// the positions the groups begin at, followed by the number of columns.
pub open spec fn grouped(days: Seq<DisplayedDayView>, resolution: Resolution) -> GroupResultView {
    let starts = group_starts(days, resolution, days.len() as int);
    GroupResultView {
        titles: Seq::new(starts.len(), |k: int| resolution.title(days[starts[k]])),
        delimiters: starts.push(days.len() as int),
    }
}

/// The group result of the day resolution: each displayed day is a group
/// of one column, titled with its day of the month.
pub open spec fn grouped_by_day(days: Seq<DisplayedDayView>) -> GroupResultView {
    GroupResultView {
        titles: Seq::new(days.len(), |i: int| decimal(days[i].date.day as nat)),
        delimiters: Seq::new(days.len() + 1, |i: int| i),
    }
}

/// The five group results over the displayed days.
pub open spec fn timeline_of(days: Seq<DisplayedDayView>) -> TimelineGroupsView {
    TimelineGroupsView {
        days: grouped_by_day(days),
        weeks: grouped(days, Resolution::Weeks),
        months: grouped(days, Resolution::Months),
        quarters: grouped(days, Resolution::Quarters),
        years: grouped(days, Resolution::Years),
    }
}

/// Every day of the sequence has a week number from 1 to 53.
pub open spec fn have_week_numbers(days: Seq<DisplayedDayView>) -> bool {
    forall|i: int| 0 <= i < days.len() ==> (#[trigger] days[i]).has_week_number()
}

impl GroupResult {
    /// Whether the group result can be rendered: whether every title has
    /// its two delimiters and at least one column.
    pub fn can_render(&self) -> (renderable: bool)
        ensures
            renderable == self@.is_renderable(),
    {
        let count = self.titles.len();
        if count >= self.delimiters.len() {
            return false;
        }
        let mut idx: usize = 0;
        while idx < count
            invariant
                idx <= count,
                count == self.titles.len(),
                count < self.delimiters.len(),
                forall|i: int| 0 <= i < idx ==> #[trigger] self@.span_of(i) >= 1,
            decreases count - idx,
        {
            if self.delimiters[idx] >= self.delimiters[idx + 1] {
                assert(self@.span_of(idx as int) < 1);
                return false;
            }
            idx = idx + 1;
        }
        true
    }
}

impl TimelineGroups {
    /// Whether each of the five resolutions can be rendered.
    pub fn can_render(&self) -> (renderable: bool)
        ensures
            renderable == self@.is_renderable(),
    {
        self.days.can_render() && self.weeks.can_render() && self.months.can_render()
            && self.quarters.can_render() && self.years.can_render()
    }
}

/// Whether a day of the week, numbered from 0 for Monday to 6 for Sunday,
/// is a Saturday or a Sunday.
pub fn falls_on_weekend(weekday: u32) -> (weekend: bool)
    ensures
        weekend == (weekday == 5 || weekday == 6),
{
    weekday == 5 || weekday == 6
}

/// Whether the date falls on a Saturday or a Sunday.
pub fn is_weekend(date: &Date) -> (weekend: bool)
    ensures
        weekend == date@.is_weekend(),
{
    proof {
        use_type_invariant(date);
    }
    falls_on_weekend(weekday_number(date))
}

/// Quarter of the year that the month numbered `month` lies in.
pub fn quarter_number(month: u32) -> (quarter: u32)
    requires
        month >= 1,
    ensures
        quarter == (month - 1) / 3 + 1,
{
    (month - 1) / 3 + 1
}

/// The displayed days from `start` to `end`, both included: every date of
/// the range in calendar order with the number of its ISO week, without
/// Saturdays and Sundays when weekends are hidden. Empty when `end` lies
/// before `start`.
pub fn collect_displayed_days(start: Date, end: Date, show_weekends: bool) -> (days: Vec<DisplayedDay>)
    ensures
        day_views(days@) == displayed_days(start@, end@, show_weekends),
        have_week_numbers(day_views(days@)),
        days.len() <= MAX_COLUMNS,
{
    let mut days: Vec<DisplayedDay> = Vec::new();
    proof {
        use_type_invariant(&start);
        use_type_invariant(&end);
    }
    if !start.is_on_or_before(&end) {
        assert(calendar_days(start@, end@) =~= Seq::<CivilDate>::empty());
        assert(displayed_dates_of(start@, end@, show_weekends) =~= Seq::<CivilDate>::empty()) by {
            reveal(Seq::filter);
        }
        assert(day_views(days@) =~= displayed_days(start@, end@, show_weekends));
        return days;
    }
    let mut current = start;
    let ghost mut walked: Seq<CivilDate> = Seq::empty();
    assert(day_views(days@) =~= with_weeks(walked.filter(is_displayed(show_weekends)))) by {
        reveal(Seq::filter);
    }
    assert(calendar_days(start@, end@) =~= walked + calendar_days(current@, end@));
    loop
        invariant_except_break
            current@.is_date(),
            end@.is_date(),
            start@.is_date(),
            start@.rank() <= current@.rank() <= end@.rank(),
            calendar_days(start@, end@) == walked + calendar_days(current@, end@),
            day_views(days@) == with_weeks(walked.filter(is_displayed(show_weekends))),
            have_week_numbers(day_views(days@)),
            walked.len() <= current@.rank() - start@.rank(),
        ensures
            day_views(days@) == displayed_days(start@, end@, show_weekends),
            have_week_numbers(day_views(days@)),
            days.len() <= end@.rank() - start@.rank() + 1,
        decreases end@.rank() - current@.rank(),
    {
        let ghost shown_before = walked.filter(is_displayed(show_weekends));
        let ghost days_before = day_views(days@);
        let shown = show_weekends || !is_weekend(&current);
        if shown {
            days.push(DisplayedDay { date: current, iso_week: iso_week_number(&current) });
        }
        proof {
            walked.lemma_filter_push(current@, is_displayed(show_weekends));
            if shown {
                assert(day_views(days@) =~= days_before.push(in_its_week(current@)));
                assert(with_weeks(shown_before.push(current@)) =~= with_weeks(shown_before).push(
                    in_its_week(current@),
                ));
            }
            assert(calendar_days(current@, end@) =~= seq![current@] + calendar_days(
                current@.next(),
                end@,
            ));
            assert(walked + calendar_days(current@, end@) =~= walked.push(current@)
                + calendar_days(current@.next(), end@));
            walked = walked.push(current@);
            walked.lemma_filter_len(is_displayed(show_weekends));
            lemma_next_day(current@);
        }
        match following_day(&current) {
            None => {
                proof {
                    assert(calendar_days(current@.next(), end@) =~= Seq::<CivilDate>::empty());
                    assert(calendar_days(start@, end@) =~= walked);
                }
                break ;
            },
            Some(next) => {
                if !next.is_on_or_before(&end) {
                    proof {
                        assert(calendar_days(next@, end@) =~= Seq::<CivilDate>::empty());
                        assert(calendar_days(start@, end@) =~= walked);
                    }
                    break ;
                }
                current = next;
            },
        }
    }
    days
}

/// Whether a new group of `resolution` begins at `curr` when `prev` is the
/// displayed day before it.
pub fn is_transition(resolution: Resolution, prev: &DisplayedDay, curr: &DisplayedDay) -> (changed:
    bool)
    ensures
        changed == resolution.transition(prev@, curr@),
{
    match resolution {
        Resolution::Weeks => prev.iso_week != curr.iso_week,
        Resolution::Months => prev.date.month() != curr.date.month(),
        Resolution::Quarters => quarter_number(prev.date.month()) != quarter_number(
            curr.date.month(),
        ),
        Resolution::Years => prev.date.year() != curr.date.year(),
    }
}

/// The title that `resolution` gives to the group of `day`.
pub fn group_title(resolution: Resolution, day: &DisplayedDay) -> (title: String)
    ensures
        title@ == resolution.title(day@),
        day@.has_week_number() ==> fits_cell(title@),
{
    let date = &day.date;
    proof {
        use_type_invariant(date);
        lemma_decimal_len(date@.quarter() as nat);
        lemma_decimal_is_plain(date@.quarter() as nat);
    }
    match resolution {
        Resolution::Weeks => {
            proof {
                lemma_decimal_len(day.iso_week as nat);
                lemma_decimal_is_plain(day.iso_week as nat);
            }
            decimal_string(day.iso_week)
        },
        Resolution::Months => month_abbreviation(date),
        Resolution::Quarters => {
            proof {
                reveal_strlit("Q");
            }
            let mut title = String::from_str("Q");
            let number = decimal_string(quarter_number(date.month()));
            title.append(number.as_str());
            assert(title@ =~= seq!['Q'] + decimal(date@.quarter() as nat));
            title
        },
        Resolution::Years => {
            let year = date.year();
            let magnitude: u32 = if year < 0 {
                (0 - year) as u32
            } else {
                year as u32
            };
            two_digit_string(magnitude)
        },
    }
}

/// The group starts below `upto` are positions below `upto` in ascending
/// order, and the first of them, if there is any position, is 0.
pub proof fn lemma_group_starts(days: Seq<DisplayedDayView>, resolution: Resolution, upto: int)
    ensures
        forall|k: int|
            0 <= k < group_starts(days, resolution, upto).len() ==> 0 <= #[trigger] group_starts(
                days,
                resolution,
                upto,
            )[k] < upto,
        forall|j: int, k: int|
            0 <= j < k < group_starts(days, resolution, upto).len() ==> group_starts(
                days,
                resolution,
                upto,
            )[j] < group_starts(days, resolution, upto)[k],
        upto > 0 ==> group_starts(days, resolution, upto).len() > 0 && group_starts(
            days,
            resolution,
            upto,
        )[0] == 0,
    decreases upto,
{
    let starts = group_starts(days, resolution, upto);
    if upto > 0 {
        lemma_group_starts(days, resolution, upto - 1);
        let before = group_starts(days, resolution, upto - 1);
        if starts_group(days, resolution, upto - 1) {
            assert(starts == before.push(upto - 1));
            assert forall|k: int| 0 <= k < starts.len() implies 0 <= #[trigger] starts[k]
                < upto by {
                if k < before.len() {
                    assert(starts[k] == before[k]);
                }
            }
            assert forall|j: int, k: int| 0 <= j < k < starts.len() implies starts[j]
                < starts[k] by {
                assert(starts[j] == before[j]);
                if k < before.len() {
                    assert(starts[k] == before[k]);
                }
            }
        } else {
            assert(starts == before);
        }
    }
}

/// Every run-based resolution tiles the displayed columns.
pub proof fn lemma_grouped_tiles(days: Seq<DisplayedDayView>, resolution: Resolution)
    ensures
        grouped(days, resolution).tiles(days.len() as int),
{
    lemma_group_starts(days, resolution, days.len() as int);
}

/// A group result that tiles its columns can be rendered.
pub proof fn lemma_tiles_is_renderable(group: GroupResultView, columns: int)
    requires
        group.tiles(columns),
    ensures
        group.is_renderable(),
{
    assert forall|i: int| 0 <= i < group.titles.len() implies #[trigger] group.span_of(i)
        >= 1 by {
        assert(group.delimiters[i] < group.delimiters[i + 1]);
    }
}

/// The day resolution tiles the displayed columns: every displayed date
/// has its own title, and every title exactly one column.
pub proof fn lemma_grouped_by_day_tiles(days: Seq<DisplayedDayView>)
    ensures
        grouped_by_day(days).tiles(days.len() as int),
        grouped_by_day(days).titles.len() == days.len(),
        grouped_by_day(days).has_one_column_per_title(),
{
}

/// Groups the displayed days by `resolution`: a group begins at the first
/// day and at every transition, takes its title from the day it begins
/// at, and ends where the next group begins.
pub fn create_group_result(dated_positions: &Vec<DisplayedDay>, resolution: Resolution) -> (result:
    GroupResult)
    requires
        dated_positions.len() <= i32::MAX,
    ensures
        result@ == grouped(day_views(dated_positions@), resolution),
        have_week_numbers(day_views(dated_positions@)) ==> result@.has_cell_titles(),
{
    let count = dated_positions.len();
    let ghost dates = day_views(dated_positions@);
    let mut titles: Vec<String> = Vec::new();
    let mut delimiters: Vec<i32> = Vec::new();
    let mut position: usize = 0;
    assert(column_values(delimiters@) =~= group_starts(dates, resolution, 0));
    while position < count
        invariant
            position <= count,
            count == dated_positions.len(),
            count <= i32::MAX,
            dates == day_views(dated_positions@),
            column_values(delimiters@) == group_starts(dates, resolution, position as int),
            titles.len() == delimiters.len(),
            forall|k: int|
                0 <= k < titles.len() ==> (#[trigger] titles[k])@ == resolution.title(
                    dates[delimiters[k] as int],
                ) && (have_week_numbers(dates) ==> fits_cell(titles[k]@)),
        decreases count - position,
    {
        let ghost starts_before = column_values(delimiters@);
        let begins = position == 0 || is_transition(
            resolution,
            &dated_positions[position - 1],
            &dated_positions[position],
        );
        assert(begins == starts_group(dates, resolution, position as int));
        if begins {
            assert(have_week_numbers(dates) ==> dates[position as int].has_week_number());
            titles.push(group_title(resolution, &dated_positions[position]));
            delimiters.push(position as i32);
            assert(column_values(delimiters@) =~= starts_before.push(position as int));
        }
        position = position + 1;
    }
    let ghost starts = column_values(delimiters@);
    delimiters.push(count as i32);
    let result = GroupResult { titles, delimiters };
    proof {
        assert(result@.delimiters =~= starts.push(count as int));
        assert(result@.titles =~= grouped(dates, resolution).titles);
    }
    result
}

/// Groups the displayed days by day: one title and one column per day.
pub fn create_day_result(dated_positions: &Vec<DisplayedDay>) -> (result: GroupResult)
    requires
        dated_positions.len() <= i32::MAX,
    ensures
        result@ == grouped_by_day(day_views(dated_positions@)),
        result@.has_cell_titles(),
{
    let count = dated_positions.len();
    let ghost dates = day_views(dated_positions@);
    let mut titles: Vec<String> = Vec::new();
    let mut delimiters: Vec<i32> = Vec::new();
    let mut position: usize = 0;
    while position < count
        invariant
            position <= count,
            count == dated_positions.len(),
            count <= i32::MAX,
            dates == day_views(dated_positions@),
            titles.len() == position,
            delimiters.len() == position,
            forall|k: int|
                0 <= k < position ==> (#[trigger] titles[k])@ == decimal(
                    dates[k].date.day as nat,
                ) && fits_cell(titles[k]@),
            forall|k: int| 0 <= k < position ==> #[trigger] delimiters[k] == k,
        decreases count - position,
    {
        let day = dated_positions[position].date.day();
        proof {
            lemma_decimal_len(day as nat);
            lemma_decimal_is_plain(day as nat);
        }
        titles.push(decimal_string(day));
        delimiters.push(position as i32);
        position = position + 1;
    }
    delimiters.push(count as i32);
    let result = GroupResult { titles, delimiters };
    proof {
        assert(result@.titles =~= grouped_by_day(dates).titles);
        assert(result@.delimiters =~= grouped_by_day(dates).delimiters);
    }
    result
}

/// Groups the dates from `start_date` to `end_date`, both included, into
/// days, weeks, months, quarters and years over the displayed dates.
///
/// Fails with a [`RangeError`] exactly when `end_date` lies before
/// `start_date`. When no date of the range is displayed, every resolution
/// has no title and the single delimiter 0.
pub fn group_timeline(start_date: Date, end_date: Date, show_weekends: bool) -> (result: Result<
    TimelineGroups,
    RangeError,
>)
    ensures
        end_date@.is_before(start_date@) ==> result == Err::<TimelineGroups, RangeError>(
            RangeError { start_date, end_date },
        ),
        !end_date@.is_before(start_date@) ==> result is Ok && result.unwrap()@ == timeline_of(
            displayed_days(start_date@, end_date@, show_weekends),
        ),
        result is Ok ==> result.unwrap()@.tiles(
            displayed_days(start_date@, end_date@, show_weekends).len() as int,
        ),
        result is Ok && displayed_days(start_date@, end_date@, show_weekends).len() > 0
            ==> result.unwrap()@.tiles(
            max_position(displayed_days(start_date@, end_date@, show_weekends)) + 1,
        ),
        result is Ok ==> result.unwrap()@.days.titles.len() == displayed_days(
            start_date@,
            end_date@,
            show_weekends,
        ).len(),
        result is Ok ==> result.unwrap()@.days.has_one_column_per_title(),
        result is Ok ==> result.unwrap()@.is_renderable(),
        result is Ok ==> result.unwrap()@.has_cell_titles(),
{
    if !start_date.is_on_or_before(&end_date) {
        return Err(RangeError { start_date, end_date });
    }
    let dated_positions = collect_displayed_days(start_date, end_date, show_weekends);
    let days = create_day_result(&dated_positions);
    let weeks = create_group_result(&dated_positions, Resolution::Weeks);
    let months = create_group_result(&dated_positions, Resolution::Months);
    let quarters = create_group_result(&dated_positions, Resolution::Quarters);
    let years = create_group_result(&dated_positions, Resolution::Years);
    proof {
        let dates = day_views(dated_positions@);
        lemma_grouped_by_day_tiles(dates);
        lemma_grouped_tiles(dates, Resolution::Weeks);
        lemma_grouped_tiles(dates, Resolution::Months);
        lemma_grouped_tiles(dates, Resolution::Quarters);
        lemma_grouped_tiles(dates, Resolution::Years);
        let columns = dates.len() as int;
        lemma_tiles_is_renderable(days@, columns);
        lemma_tiles_is_renderable(weeks@, columns);
        lemma_tiles_is_renderable(months@, columns);
        lemma_tiles_is_renderable(quarters@, columns);
        lemma_tiles_is_renderable(years@, columns);
    }
    Ok(TimelineGroups { days, weeks, months, quarters, years })
}

/// Creates the timeline of a date range; see [`group_timeline`].
pub fn create_timeline(start_date: Date, end_date: Date, show_weekends: bool) -> (result: Result<
    TimelineGroups,
    RangeError,
>)
    ensures
        end_date@.is_before(start_date@) ==> result == Err::<TimelineGroups, RangeError>(
            RangeError { start_date, end_date },
        ),
        !end_date@.is_before(start_date@) ==> result is Ok && result.unwrap()@ == timeline_of(
            displayed_days(start_date@, end_date@, show_weekends),
        ),
        result is Ok ==> result.unwrap()@.tiles(
            displayed_days(start_date@, end_date@, show_weekends).len() as int,
        ),
        result is Ok && displayed_days(start_date@, end_date@, show_weekends).len() > 0
            ==> result.unwrap()@.tiles(
            max_position(displayed_days(start_date@, end_date@, show_weekends)) + 1,
        ),
        result is Ok ==> result.unwrap()@.days.titles.len() == displayed_days(
            start_date@,
            end_date@,
            show_weekends,
        ).len(),
        result is Ok ==> result.unwrap()@.days.has_one_column_per_title(),
        result is Ok ==> result.unwrap()@.is_renderable(),
        result is Ok ==> result.unwrap()@.has_cell_titles(),
{
    group_timeline(start_date, end_date, show_weekends)
}

} // verus!
