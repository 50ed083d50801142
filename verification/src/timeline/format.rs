//! The row renderer: one text row per resolution, cells aligned to the day
//! columns, and the five rows stacked into the timeline block.

use crate::text::{right_align, right_aligned};
use crate::timeline::timeline_grouping::{
    GroupResult, GroupResultView, TimelineGroups, TimelineGroupsView,
};
use vstd::prelude::*;
use vstd::string::*;

verus! {

/// Characters of one column's cell after its leading `|`.
pub const CELL_WIDTH: u64 = 3;

/// A piece of a row: a title over the columns of its group, or a stretch
/// of empty cells.
#[derive(Debug, Clone, Copy)]
pub struct TimeSegment<'a> {
    /// The text to display.
    pub content: &'a str,
    /// Number of columns the segment spans.
    pub span: usize,
    /// Whether this is a stretch of empty cells.
    pub is_empty: bool,
}

/// Mathematical model of a [`TimeSegment`].
pub struct SegmentView {
    pub content: Seq<char>,
    pub span: int,
    pub is_empty: bool,
}

impl<'a> View for TimeSegment<'a> {
    type V = SegmentView;

    open spec fn view(&self) -> SegmentView {
        SegmentView { content: self.content@, span: self.span as int, is_empty: self.is_empty }
    }
}

/// The models of a sequence of segments.
pub open spec fn segment_views(segments: Seq<TimeSegment<'_>>) -> Seq<SegmentView> {
    Seq::new(segments.len(), |i: int| segments[i]@)
}

/// `count` empty cells, each a `|` and three spaces.
pub open spec fn empty_cells(count: int) -> Seq<char>
    decreases count,
{
    if count <= 0 {
        Seq::empty()
    } else {
        empty_cells(count - 1) + seq!['|', ' ', ' ', ' ']
    }
}

/// Characters that a group of `span` columns has for its title: three per
/// column, and one for each `|` between its columns.
pub open spec fn span_width(span: int) -> int {
    CELL_WIDTH * span + (span - 1)
}

impl SegmentView {
    /// The text of the segment: empty cells, or a `|` and the title
    /// right-aligned over the columns of the group.
    pub open spec fn text(self) -> Seq<char> {
        if self.is_empty {
            empty_cells(self.span)
        } else {
            seq!['|'] + right_aligned(self.content, span_width(self.span))
        }
    }

    /// A titled segment has at least one column, and its width can be
    /// computed.
    pub open spec fn is_formattable(self) -> bool {
        self.is_empty || (1 <= self.span && span_width(self.span) <= u64::MAX)
    }
}

/// The texts of the segments, one after the other.
pub open spec fn joined_text(segments: Seq<SegmentView>) -> Seq<char>
    decreases segments.len(),
{
    if segments.len() == 0 {
        Seq::empty()
    } else {
        joined_text(segments.drop_last()) + segments.last().text()
    }
}

/// `text` itself where it ends with `|`, else `text` with a `|` added.
pub open spec fn with_closing_pipe(text: Seq<char>) -> Seq<char> {
    if text.len() > 0 && text.last() == '|' {
        text
    } else {
        text.push('|')
    }
}

impl GroupResultView {
    /// The segments of the row, left to right: empty cells for the columns
    /// before the first group, if its first delimiter lies above 0, then
    /// one titled segment per group.
    pub open spec fn segments(self) -> Seq<SegmentView> {
        let titled = Seq::new(
            self.titles.len(),
            |i: int| SegmentView { content: self.titles[i], span: self.span_of(i), is_empty: false },
        );
        if self.titles.len() > 0 && self.delimiters[0] > 0 {
            seq![SegmentView { content: Seq::empty(), span: self.delimiters[0], is_empty: true }]
                + titled
        } else {
            titled
        }
    }

    /// The text of the row, before its closing `|`.
    pub open spec fn row(self) -> Seq<char> {
        joined_text(self.segments())
    }
}

impl TimelineGroupsView {
    /// The timeline block: the rows of years, quarters, months, weeks and
    /// days, each closed with a `|`, separated by line feeds.
    pub open spec fn rendered(self) -> Seq<char> {
        with_closing_pipe(self.years.row()) + seq!['\n'] + with_closing_pipe(self.quarters.row())
            + seq!['\n'] + with_closing_pipe(self.months.row()) + seq!['\n'] + with_closing_pipe(
            self.weeks.row(),
        ) + seq!['\n'] + with_closing_pipe(self.days.row())
    }
}

/// Collects the segments of a row, empty and titled, left to right.
pub fn collect_row_segments<'a>(group: &'a GroupResult) -> (segments: Vec<TimeSegment<'a>>)
    requires
        group@.is_renderable(),
    ensures
        segment_views(segments@) == group@.segments(),
        forall|i: int| 0 <= i < segments.len() ==> (#[trigger] segments[i])@.is_formattable(),
{
    let mut segments: Vec<TimeSegment<'a>> = Vec::new();
    let count = group.titles.len();
    let ghost model = group@;
    let ghost gap: int = if count > 0 && model.delimiters[0] > 0 {
        1
    } else {
        0
    };
    let mut idx: usize = 0;
    while idx < count
        invariant
            idx <= count,
            count == group.titles.len(),
            model == group@,
            model.is_renderable(),
            gap == (if count > 0 && model.delimiters[0] > 0 {
                1int
            } else {
                0int
            }),
            segments.len() == (if idx == 0 {
                0
            } else {
                idx + gap
            }),
            forall|i: int|
                0 <= i < segments.len() ==> (#[trigger] segments[i])@ == model.segments()[i],
            forall|i: int| 0 <= i < segments.len() ==> (#[trigger] segments[i])@.is_formattable(),
        decreases count - idx,
    {
        let start_pos: i64 = group.delimiters[idx] as i64;
        let end_pos: i64 = group.delimiters[idx + 1] as i64;
        assert(model.span_of(idx as int) >= 1);
        assert(model.span_of(idx as int) == end_pos - start_pos);
        if idx == 0 && start_pos > 0 {
            segments.push(TimeSegment { content: "", span: start_pos as usize, is_empty: true });
            proof {
                reveal_strlit("");
                assert(""@ =~= Seq::<char>::empty());
            }
        }
        segments.push(
            TimeSegment {
                content: group.titles[idx].as_str(),
                span: (end_pos - start_pos) as usize,
                is_empty: false,
            },
        );
        idx = idx + 1;
    }
    assert(segment_views(segments@) =~= model.segments());
    segments
}

/// Formats one segment of a row.
pub fn format_segment(segment: TimeSegment) -> (text: String)
    requires
        segment@.is_formattable(),
    ensures
        text@ == segment@.text(),
{
    if segment.is_empty {
        let mut text = String::new();
        let mut done: usize = 0;
        assert(text@ =~= empty_cells(0));
        while done < segment.span
            invariant
                done <= segment.span,
                text@ == empty_cells(done as int),
            decreases segment.span - done,
        {
            proof {
                reveal_strlit("|   ");
            }
            text.append("|   ");
            done = done + 1;
            assert(text@ =~= empty_cells(done as int - 1) + seq!['|', ' ', ' ', ' ']);
        }
        text
    } else {
        let span: u64 = segment.span as u64;
        let total_width: u64 = CELL_WIDTH * span + (span - 1);
        proof {
            reveal_strlit("|");
        }
        let mut text = String::from_str("|");
        let aligned = right_align(segment.content, total_width);
        text.append(aligned.as_str());
        assert(text@ =~= segment@.text());
        text
    }
}

/// Formats a single row of time units (years, quarters, months, weeks or
/// days), without its closing `|`.
pub fn format_time_row(group: &GroupResult) -> (row: String)
    requires
        group@.is_renderable(),
    ensures
        row@ == group@.row(),
{
    let segments = collect_row_segments(group);
    let ghost models = segment_views(segments@);
    let mut row = String::new();
    let mut idx: usize = 0;
    assert(models.take(0) =~= Seq::<SegmentView>::empty());
    while idx < segments.len()
        invariant
            idx <= segments.len(),
            models == segment_views(segments@),
            forall|i: int| 0 <= i < segments.len() ==> (#[trigger] segments[i])@.is_formattable(),
            row@ == joined_text(models.take(idx as int)),
        decreases segments.len() - idx,
    {
        let text = format_segment(segments[idx]);
        row.append(text.as_str());
        proof {
            let upto = models.take(idx as int + 1);
            assert(upto.drop_last() =~= models.take(idx as int));
            assert(upto.last() == models[idx as int]);
        }
        idx = idx + 1;
    }
    assert(models.take(segments.len() as int) =~= models);
    row
}

/// Ensures that a row ends with a `|`.
pub fn ensure_ends_with_pipe(s: String) -> (closed: String)
    ensures
        closed@ == with_closing_pipe(s@),
{
    let length = s.as_str().unicode_len();
    if length > 0 && s.as_str().get_char(length - 1) == '|' {
        s
    } else {
        proof {
            reveal_strlit("|");
        }
        let mut closed = s;
        closed.append("|");
        assert(closed@ =~= s@.push('|'));
        closed
    }
}

impl TimelineGroups {
    /// Creates a human-readable timeline with aligned time units: the
    /// rows of years, quarters, months, weeks and days, top to bottom.
    pub fn format_timeline(&self) -> (text: String)
        requires
            self@.is_renderable(),
        ensures
            text@ == self@.rendered(),
    {
        proof {
            reveal_strlit("\n");
        }
        let mut text = ensure_ends_with_pipe(format_time_row(&self.years));
        text.append("\n");
        let quarters = ensure_ends_with_pipe(format_time_row(&self.quarters));
        text.append(quarters.as_str());
        text.append("\n");
        let months = ensure_ends_with_pipe(format_time_row(&self.months));
        text.append(months.as_str());
        text.append("\n");
        let weeks = ensure_ends_with_pipe(format_time_row(&self.weeks));
        text.append(weeks.as_str());
        text.append("\n");
        let days = ensure_ends_with_pipe(format_time_row(&self.days));
        text.append(days.as_str());
        assert(text@ =~= self@.rendered());
        text
    }
}

} // verus!
