//! A circuit breaker drawn for a terminal.
//!
//! The ring buffer is drawn as a loop of boxes, one for each node: a top row
//! from left to right, rows of two down the sides, and a bottom row from right
//! to left. A [`Layout`] says where the nodes stand, a [`Scene`] holds what is
//! shown of a breaker, and the [`Visualizer`] draws a breaker as it is now.
use crate::circuit_breaker::{time_since, Breaker, CircuitBreaker, State};
use crate::decimal::{
    decimal, decimal_width, fill, left_aligned, lemma_two_digits, right_aligned, to_decimal,
    to_decimal_left_aligned, to_decimal_zero_padded,
};
use crate::ring_buffer::NodeInfo;
use vstd::prelude::*;
use vstd::string::StringSliceAdditionalSpecFns;

verus! {

/// One of the rows between the top row and the bottom row.
#[derive(Debug, Clone, Copy, PartialEq, Eq, Structural)]
pub enum MiddleBuffer {
    /// One node, on the right: the way down.
    One(usize),
    /// Two nodes: the one on the left, on the way up, and the one on the
    /// right, on the way down.
    Two(usize, usize),
}

/// The places of the nodes, by their indices.
#[derive(Debug, PartialEq)]
pub struct Layout {
    /// The top row, from left to right
    pub top: Vec<usize>,
    /// The rows between, from the top down
    pub middle: Option<Vec<MiddleBuffer>>,
    /// The bottom row, from left to right
    pub bottom: Option<Vec<usize>>,
}

/// What a layout is: its rows as sequences.
pub struct Rows {
    pub top: Seq<usize>,
    pub middle: Option<Seq<MiddleBuffer>>,
    pub bottom: Option<Seq<usize>>,
}

impl View for Layout {
    type V = Rows;

    open spec fn view(&self) -> Rows {
        Rows {
            top: self.top@,
            middle: match self.middle {
                Some(rows) => Some(rows@),
                None => None,
            },
            bottom: match self.bottom {
                Some(row) => Some(row@),
                None => None,
            },
        }
    }
}

/// The index of the node that stands leftmost in the bottom row of a ring of
/// more than three nodes: the last of the second three, or with more than six
/// nodes the one half way round the nodes that are left.
pub open spec fn bottom_left(size: nat) -> nat {
    if size <= 6 {
        (size - 1) as nat
    } else {
        (6 + (size - 7) / 2) as nat
    }
}

/// The top row: the first three nodes, or all of them if they are fewer.
pub open spec fn top_row(size: nat) -> Seq<usize> {
    Seq::new(
        if size < 3 {
            size
        } else {
            3
        },
        |i: int| i as usize,
    )
}

/// The bottom row: none for up to three nodes; else up to three nodes, in
/// falling order from the leftmost.
pub open spec fn bottom_row(size: nat) -> Option<Seq<usize>> {
    if size <= 3 {
        None
    } else {
        Some(
            Seq::new(
                if size < 6 {
                    (size - 3) as nat
                } else {
                    3
                },
                |i: int| (bottom_left(size) - i) as usize,
            ),
        )
    }
}

/// The rows between: none for up to six nodes; else the nodes beyond the
/// first six places, two to a row, from the top down. The node on the way
/// down is the next after the top row, the node on the way up is the next
/// before the first. With an odd number a last row holds the one left over.
pub open spec fn middle_rows(size: nat) -> Option<Seq<MiddleBuffer>> {
    if size <= 6 {
        None
    } else {
        Some(
            Seq::new(
                ((size - 5) / 2) as nat,
                |k: int|
                    if 2 * k + 7 == size {
                        MiddleBuffer::One((3 + k) as usize)
                    } else {
                        MiddleBuffer::Two((size - 1 - k) as usize, (3 + k) as usize)
                    },
            ),
        )
    }
}

/// The layout of a ring of `size` nodes.
pub open spec fn rows_of(size: nat) -> Rows {
    Rows { top: top_row(size), middle: middle_rows(size), bottom: bottom_row(size) }
}

impl MiddleBuffer {
    /// The node on the right of the row, on the way down.
    pub open spec fn right(self) -> usize {
        match self {
            MiddleBuffer::One(node) => node,
            MiddleBuffer::Two(_, node) => node,
        }
    }
}

/// The nodes on the right of `rows`, from the top down.
pub open spec fn way_down(rows: Seq<MiddleBuffer>) -> Seq<usize> {
    Seq::new(rows.len(), |k: int| rows[k].right())
}

/// The nodes on the left of `rows`, from the bottom up.
pub open spec fn way_up(rows: Seq<MiddleBuffer>) -> Seq<usize>
    decreases rows.len(),
{
    if rows.len() == 0 {
        Seq::empty()
    } else {
        match rows.last() {
            MiddleBuffer::Two(node, _) => seq![node] + way_up(rows.drop_last()),
            MiddleBuffer::One(_) => way_up(rows.drop_last()),
        }
    }
}

impl Rows {
    /// The nodes in the order in which a walk round the loop meets them: along
    /// the top row, down the right side, back along the bottom row and up the
    /// left side.
    pub open spec fn clockwise(self) -> Seq<usize> {
        self.top + match self.middle {
            Some(rows) => way_down(rows),
            None => Seq::empty(),
        } + match self.bottom {
            Some(row) => row.reverse(),
            None => Seq::empty(),
        } + match self.middle {
            Some(rows) => way_up(rows),
            None => Seq::empty(),
        }
    }
}

/// The left side of the first `count` rows between top and bottom holds one
/// node for each row of two, the last nodes of the ring in rising order.
proof fn lemma_way_up(size: nat, count: nat)
    requires
        6 < size <= usize::MAX,
        count <= (size - 5) / 2,
    ensures
        way_up(middle_rows(size)->0.take(count as int)) == Seq::new(
            if count <= (size - 6) / 2 {
                count
            } else {
                ((size - 6) / 2) as nat
            },
            |j: int|
                (size - (if count <= (size - 6) / 2 {
                    count as int
                } else {
                    (size - 6) / 2
                }) + j) as usize,
        ),
    decreases count,
{
    let rows = middle_rows(size)->0.take(count as int);
    let pairs = if count <= (size - 6) / 2 {
        count as int
    } else {
        (size - 6) / 2
    };
    let up = Seq::new(pairs as nat, |j: int| (size - pairs + j) as usize);
    if count == 0 {
        assert(way_up(rows) =~= up);
    } else {
        lemma_way_up(size, (count - 1) as nat);
        assert(rows.drop_last() =~= middle_rows(size)->0.take(count - 1));
        assert(way_up(rows) =~= up);
    }
}

/// A walk round the layout of a ring meets every node once, in the order of
/// the ring.
pub proof fn lemma_walk_meets_nodes_in_order(size: nat)
    requires
        1 <= size <= usize::MAX,
    ensures
        rows_of(size).clockwise() == Seq::new(size, |i: int| i as usize),
{
    if size > 6 {
        let rows = middle_rows(size)->0;
        lemma_way_up(size, rows.len());
        assert(rows.take(rows.len() as int) =~= rows);
    } else {
        assert(way_up(Seq::<MiddleBuffer>::empty()) =~= Seq::<usize>::empty());
    }
    assert(rows_of(size).clockwise() =~= Seq::new(size, |i: int| i as usize));
}

impl Layout {
    /// Lay out a ring of `size` nodes.
    pub fn new(size: usize) -> (layout: Self)
        requires
            size >= 1,
        ensures
            layout@ == rows_of(size as nat),
    {
        let mut top: Vec<usize> = Vec::new();
        let mut index: usize = 0;
        while index < 3 && index < size
            invariant
                index <= 3,
                index <= size,
                top@.len() == index,
                forall|i: int| 0 <= i < index ==> top@[i] == i,
            decreases 3 - index,
        {
            top.push(index);
            index += 1;
        }
        assert(top@ =~= top_row(size as nat));
        if size <= 3 {
            return Self { top, middle: None, bottom: None };
        }
        let leftmost = if size <= 6 {
            size - 1
        } else {
            6 + (size - 7) / 2
        };
        let mut bottom: Vec<usize> = Vec::new();
        let mut index: usize = 0;
        while index < 3 && index < size - 3
            invariant
                3 < size,
                index <= 3,
                index <= size - 3,
                leftmost == bottom_left(size as nat),
                bottom@.len() == index,
                forall|i: int| 0 <= i < index ==> bottom@[i] == leftmost - i,
            decreases 3 - index,
        {
            bottom.push(leftmost - index);
            index += 1;
        }
        assert(bottom@ =~= bottom_row(size as nat)->0);
        if size <= 6 {
            return Self { top, middle: None, bottom: Some(bottom) };
        }
        let rows = (size - 5) / 2;
        let mut middle: Vec<MiddleBuffer> = Vec::new();
        let mut row: usize = 0;
        while row < rows
            invariant
                6 < size,
                rows == (size - 5) / 2,
                row <= rows,
                middle@.len() == row,
                forall|k: int|
                    0 <= k < row ==> middle@[k] == if 2 * k + 7 == size {
                        MiddleBuffer::One((3 + k) as usize)
                    } else {
                        MiddleBuffer::Two((size - 1 - k) as usize, (3 + k) as usize)
                    },
            decreases rows - row,
        {
            if 2 * row + 7 == size {
                middle.push(MiddleBuffer::One(3 + row));
            } else {
                middle.push(MiddleBuffer::Two(size - 1 - row, 3 + row));
            }
            row += 1;
        }
        assert(middle@ =~= middle_rows(size as nat)->0);
        Self { top, middle: Some(middle), bottom: Some(bottom) }
    }
}

/// The upper edge of the box of a node, drawn heavy for the node that the
/// cursor points at.
pub open spec fn box_top(active: bool) -> Seq<char> {
    if active {
        "┏━━━━━━━━━━━━━━━━━┓"@
    } else {
        "┌─────────────────┐"@
    }
}

/// The lower edge of the box of a node, drawn heavy for the node that the
/// cursor points at.
pub open spec fn box_bottom(active: bool) -> Seq<char> {
    if active {
        "┗━━━━━━━━━━━━━━━━━┛"@
    } else {
        "└─────────────────┘"@
    }
}

/// The line of the box of a node that names the node and gives its tallies:
/// `B` and the index in two columns, the successes on green and the failures
/// on red, each in three columns with zeros before it.
pub open spec fn box_middle(active: bool, index: nat, info: NodeInfo) -> Seq<char> {
    (if active {
        "┃ B"@
    } else {
        "│ B"@
    }) + left_aligned(decimal(index), 2, ' ') + " \x1b[42m "@ + right_aligned(
        decimal(info.success_count as nat),
        3,
        '0',
    ) + " \x1b[0m \x1b[41m "@ + right_aligned(decimal(info.failure_count as nat), 3, '0')
        + (if active {
        " \x1b[0m ┃"@
    } else {
        " \x1b[0m │"@
    })
}

/// An error rate of so many hundredths of a percent, as a percentage: the
/// whole percent, a point and the hundredths without a zero at their end, in
/// six columns at least, with zeros in the columns behind.
pub open spec fn error_rate_text(rate: nat) -> Seq<char> {
    left_aligned(
        decimal(rate / 100) + "."@ + if rate % 10 == 0 {
            decimal(rate % 100 / 10)
        } else {
            right_aligned(decimal(rate % 100), 2, '0')
        },
        6,
        '0',
    )
}

/// Draws the upper edge of the box of a node
pub fn render_buffer_box_top(active: bool) -> (text: String)
    ensures
        text@ == box_top(active),
{
    match active {
        true => "┏━━━━━━━━━━━━━━━━━┓".to_owned(),
        false => "┌─────────────────┐".to_owned(),
    }
}

/// Draws the line of the box of a node that gives its tallies
pub fn render_buffer_box_middle(active: bool, index: usize, info: NodeInfo) -> (text: String)
    ensures
        text@ == box_middle(active, index as nat, info),
{
    let mut text = match active {
        true => "┃ B".to_owned(),
        false => "│ B".to_owned(),
    };
    text.append(to_decimal_left_aligned(index as u128, 2).as_str());
    text.append(" \x1b[42m ");
    text.append(to_decimal_zero_padded(info.success_count as u128, 3).as_str());
    text.append(" \x1b[0m \x1b[41m ");
    text.append(to_decimal_zero_padded(info.failure_count as u128, 3).as_str());
    match active {
        true => text.append(" \x1b[0m ┃"),
        false => text.append(" \x1b[0m │"),
    }
    text
}

/// Draws the lower edge of the box of a node
pub fn render_buffer_box_bottom(active: bool) -> (text: String)
    ensures
        text@ == box_bottom(active),
{
    match active {
        true => "┗━━━━━━━━━━━━━━━━━┛".to_owned(),
        false => "└─────────────────┘".to_owned(),
    }
}

/// Writes an error rate, given in hundredths of a percent, as a percentage
pub fn render_error_rate(rate: u32) -> (text: String)
    ensures
        text@ == error_rate_text(rate as nat),
{
    let mut text = to_decimal((rate / 100) as u128);
    text.append(".");
    let width: u128 = if rate % 10 == 0 {
        text.append(to_decimal((rate % 100 / 10) as u128).as_str());
        decimal_width((rate / 100) as u128) + 2
    } else {
        text.append(to_decimal_zero_padded((rate % 100) as u128, 2).as_str());
        proof {
            lemma_two_digits((rate % 100) as nat);
        }
        decimal_width((rate / 100) as u128) + 3
    };
    proof {
        reveal_strlit(".");
        reveal_strlit("0");
        lemma_two_digits((rate % 100 / 10) as nat);
    }
    let ghost number = text@;
    assert(width == number.len());
    let mut filled: usize = 0;
    let blanks: usize = if width < 6 {
        (6 - width) as usize
    } else {
        0
    };
    while filled < blanks
        invariant
            "0"@ == seq!['0'],
            text@ == number + fill('0', filled as int),
            filled <= blanks,
        decreases blanks - filled,
    {
        text.append("0");
        filled += 1;
        assert(text@ =~= number + fill('0', filled as int));
    }
    assert(text@ =~= number + fill('0', 6 - number.len()));
    text
}

/// The three lines of the box of a node.
#[derive(Debug, Clone, Copy, PartialEq, Eq, Structural)]
pub enum BoxLine {
    Top,
    Middle,
    Bottom,
}

/// All that a drawing of a circuit breaker shows, as plain values.
#[derive(Debug, PartialEq)]
pub struct Scene {
    /// The state of the circuit
    pub state: State,
    /// The error rate of the completed spans, in hundredths of a percent
    pub error_rate: u32,
    /// The whole seconds until the next span begins, for a closed circuit, or
    /// until the retry timeout has passed, for an open one
    pub seconds_left: u128,
    /// The trial successes counted
    pub trial_success: usize,
    /// The trial successes that close the circuit
    pub trial_success_required: usize,
    /// The index of the node that the cursor points at
    pub cursor: usize,
    /// The tallies of the nodes
    pub nodes: Vec<NodeInfo>,
}

/// What a scene is: its values, with the tallies as a sequence.
pub struct Picture {
    pub state: State,
    pub error_rate: u32,
    pub seconds_left: u128,
    pub trial_success: usize,
    pub trial_success_required: usize,
    pub cursor: usize,
    pub nodes: Seq<NodeInfo>,
}

impl View for Scene {
    type V = Picture;

    open spec fn view(&self) -> Picture {
        Picture {
            state: self.state,
            error_rate: self.error_rate,
            seconds_left: self.seconds_left,
            trial_success: self.trial_success,
            trial_success_required: self.trial_success_required,
            cursor: self.cursor,
            nodes: self.nodes@,
        }
    }
}

/// The end of the wire between the service and the circuit.
pub const ARROW: &'static str = "\n                              ▼\x1b[0m";

/// The blanks between a box on the left side and a box on the right side.
pub const BETWEEN: &'static str = "                       ";

/// As many blanks as a box and the gap behind it are wide.
pub const BLANK_BOX: &'static str = "                     ";

/// The line break and the blanks before the wire out of the service.
pub const COLOR_LEAD: &'static str = "\n                              ";

/// The wire up the left side and the blanks before a box on the right side.
pub const INDENT: &'static str = "         │                                ";

/// The keys that the drawing answers to, at its foot.
pub const KEYS: &'static str = "\n\n    [s]=Successful request  [f]=Request Failure  [q]=Quit\n";

/// The wire from a bottom row of two boxes to the left side.
pub const LEAD_ONE_MIDDLE: &'static str = "         └───────────";

/// The wire up the left side before a bottom row of two boxes.
pub const LEAD_ONE_TOP: &'static str = "         │           ";

/// The wire from a bottom row of one box to the left side.
pub const LEAD_TWO_MIDDLE: &'static str = "         └────────────────────────────────";

/// The wire up the left side before a bottom row of one box.
pub const LEAD_TWO_TOP: &'static str = "         │                                ";

/// What stands before the seconds until the next span begins.
pub const NEXT_LEAD: &'static str = "                    Next Buffer: ";

/// What stands behind the seconds until the next span begins.
pub const NEXT_TAIL: &'static str = "s   \n";

/// What stands before the error rate.
pub const RATE_LEAD: &'static str = "\n                     Error Rate: ";

/// The line break and the blanks before the word on the wire.
pub const REQUEST_LEAD: &'static str = "\n                           ";

/// What stands before the seconds until the retry.
pub const RETRY_LEAD: &'static str = "                          Retry: ";

/// What stands behind the seconds until the retry.
pub const RETRY_TAIL: &'static str = "s   \n";

/// What stands before the name of the state.
pub const STATUS_LEAD: &'static str = "\n                         Status: ";

/// The line break and the blanks before the switch.
pub const SYMBOL_LEAD: &'static str = "\n                              ";

/// The wire down the right side below a top row of two boxes.
pub const TAIL_ONE_BOTTOM: &'static str = "           │";

/// The wire from a top row of two boxes to the right side.
pub const TAIL_ONE_MIDDLE: &'static str = "───────────┐";

/// The wire down the right side below a top row of one box.
pub const TAIL_TWO_BOTTOM: &'static str = "                                │";

/// The wire from a top row of one box to the right side.
pub const TAIL_TWO_MIDDLE: &'static str = "────────────────────────────────┐";

/// What stands before the trial successes.
pub const TRIAL_LEAD: &'static str = "                  Trial Success: ";

/// What stands behind the trial successes.
pub const TRIAL_TAIL: &'static str = "   \n";

/// A piece of the wire between the service and the circuit, on a line of its own.
pub const WIRE: &'static str = "\n                              │";

/// The wire from the right side back to the left side, which closes the loop.
pub const WIRES_CLOSED: &'static str = "         └─────────────────────────────────────────┘";

/// The wires down both sides.
pub const WIRES_DOWN: &'static str = "         │                                         │";

/// The wire up the left side and the arrow down the right side.
pub const WIRES_ON: &'static str = "         │                                         ▼";

/// The arrow up the left side and the wire down the right side.
pub const WIRES_UP: &'static str = "         ▲                                         │";

/// The service that the circuit protects, at the head of the drawing.
pub const SERVICE: &'static str = "\n                       ┌─────────────┐\n                       │   Service   │\n                       └─────────────┘";

/// What the drawing shows of a request: nothing, a success or a failure.
pub open spec fn request_of<T, E>(input: Option<Result<T, E>>) -> Option<bool> {
    match input {
        Some(result) => Some(result is Ok),
        None => None,
    }
}

/// The colour of the wire below the service: green after a success, red after
/// a failure.
pub open spec fn request_color(request: Option<bool>) -> Seq<char> {
    match request {
        None => ""@,
        Some(true) => "\x1b[32m"@,
        Some(false) => "\x1b[31m"@,
    }
}

/// The word on the wire below the service.
pub open spec fn request_word(request: Option<bool>) -> Seq<char> {
    match request {
        None => "   │   "@,
        Some(true) => "Success"@,
        Some(false) => "Failure"@,
    }
}

/// The gap between two boxes of the top row: an arrow to the right at the
/// height of the tallies.
pub open spec fn top_gap(line: BoxLine) -> Seq<char> {
    match line {
        BoxLine::Top => "  "@,
        BoxLine::Middle => "─▶"@,
        BoxLine::Bottom => "  "@,
    }
}

/// The gap between two boxes of the bottom row: an arrow to the left at the
/// height of the tallies.
pub open spec fn bottom_gap(line: BoxLine) -> Seq<char> {
    match line {
        BoxLine::Top => "  "@,
        BoxLine::Middle => "◀─"@,
        BoxLine::Bottom => "  "@,
    }
}

/// What stands behind a top row of fewer than three boxes: the wire to the
/// right side and down.
pub open spec fn top_tail(boxes: nat, line: BoxLine) -> Seq<char> {
    if boxes == 2 {
        match line {
            BoxLine::Top => Seq::empty(),
            BoxLine::Middle => TAIL_ONE_MIDDLE@,
            BoxLine::Bottom => TAIL_ONE_BOTTOM@,
        }
    } else if boxes == 1 {
        match line {
            BoxLine::Top => Seq::empty(),
            BoxLine::Middle => TAIL_TWO_MIDDLE@,
            BoxLine::Bottom => TAIL_TWO_BOTTOM@,
        }
    } else {
        Seq::empty()
    }
}

/// What stands before a bottom row of fewer than three boxes: the wire from
/// the left side and along.
pub open spec fn bottom_lead(boxes: nat, line: BoxLine) -> Seq<char> {
    if boxes == 2 {
        match line {
            BoxLine::Top => LEAD_ONE_TOP@,
            BoxLine::Middle => LEAD_ONE_MIDDLE@,
            BoxLine::Bottom => BLANK_BOX@,
        }
    } else if boxes == 1 {
        match line {
            BoxLine::Top => LEAD_TWO_TOP@,
            BoxLine::Middle => LEAD_TWO_MIDDLE@,
            BoxLine::Bottom => BLANK_BOX@ + BLANK_BOX@,
        }
    } else {
        Seq::empty()
    }
}

impl Picture {
    /// The scene of a breaker at the time `now`.
    pub open spec fn of(breaker: Breaker, now: u128) -> Picture {
        Picture {
            state: breaker.state,
            error_rate: breaker.error_rate() as u32,
            seconds_left: match breaker.state {
                State::Closed => ((breaker.settings.buffer_span_duration - breaker.elapsed_time(
                    breaker.settings.buffer_span_duration,
                    now,
                )) / 1_000_000_000) as u128,
                State::Open(opened_at) => (if breaker.settings.retry_timeout >= time_since(
                    opened_at,
                    now,
                ) {
                    (breaker.settings.retry_timeout - time_since(opened_at, now)) / 1_000_000_000
                } else {
                    0
                }) as u128,
                State::HalfOpen => 0,
            },
            trial_success: breaker.trial_success,
            trial_success_required: breaker.settings.trial_success_required,
            cursor: breaker.buffer.cursor as usize,
            nodes: breaker.buffer.nodes,
        }
    }

    /// Whether the node at `index` is the one that outcomes are tallied in:
    /// the node under the cursor of a closed circuit.
    pub open spec fn active(self, index: usize) -> bool {
        self.state is Closed && self.cursor == index
    }

    /// One line of the box of the node at `index`.
    pub open spec fn box_line(self, index: usize, line: BoxLine) -> Seq<char> {
        match line {
            BoxLine::Top => box_top(self.active(index)),
            BoxLine::Middle => box_middle(
                self.active(index),
                index as nat,
                self.nodes[index as int],
            ),
            BoxLine::Bottom => box_bottom(self.active(index)),
        }
    }

    /// One line of the boxes of `nodes`, side by side with `gap` between them.
    pub open spec fn boxes(self, nodes: Seq<usize>, line: BoxLine, gap: Seq<char>) -> Seq<char>
        decreases nodes.len(),
    {
        if nodes.len() == 0 {
            Seq::empty()
        } else if nodes.len() == 1 {
            self.box_line(nodes[0], line)
        } else {
            self.boxes(nodes.drop_last(), line, gap) + gap + self.box_line(nodes.last(), line)
        }
    }

    /// What the drawing says below the error rate: the seconds to the next
    /// span, the seconds to the retry, or the trial successes counted.
    pub open spec fn status(self) -> Seq<char> {
        match self.state {
            State::Closed => NEXT_LEAD@ + decimal(self.seconds_left as nat) + NEXT_TAIL@,
            State::Open(_) => RETRY_LEAD@ + decimal(self.seconds_left as nat) + NEXT_TAIL@,
            State::HalfOpen => TRIAL_LEAD@ + decimal(self.trial_success as nat) + "/"@
                + decimal(self.trial_success_required as nat) + TRIAL_TAIL@,
        }
    }

    /// The upper part of the drawing: the service, the request on the wire,
    /// the switch, and the state of the circuit in words and numbers.
    pub open spec fn network(self, request: Option<bool>) -> Seq<char> {
        SERVICE@ + COLOR_LEAD@ + request_color(request) + "│"@ + REQUEST_LEAD@
            + request_word(request) + WIRE@ + COLOR_LEAD@ + self.state.symbol() + WIRE@
            + ARROW@ + STATUS_LEAD@ + self.state.label() + RATE_LEAD@ + error_rate_text(
            self.error_rate as nat,
        ) + "%\n"@ + self.status()
    }

    /// One line of the top row.
    pub open spec fn top_line(self, top: Seq<usize>, line: BoxLine) -> Seq<char> {
        self.boxes(top, line, top_gap(line)) + top_tail(top.len(), line)
    }

    /// One line of the bottom row.
    pub open spec fn bottom_line(self, bottom: Option<Seq<usize>>, line: BoxLine) -> Seq<char> {
        match bottom {
            None => Seq::empty(),
            Some(row) => bottom_lead(row.len(), line) + self.boxes(row, line, bottom_gap(line)),
        }
    }

    /// The five lines of one row between top and bottom, each after a line
    /// break: the boxes of the row, and below them the wires on to the next.
    pub open spec fn middle_row(self, row: MiddleBuffer) -> Seq<char> {
        match row {
            MiddleBuffer::One(node) => "\n"@ + LEAD_TWO_TOP@ + self.box_line(node, BoxLine::Top) + "\n"@
                + LEAD_TWO_TOP@ + self.box_line(node, BoxLine::Middle) + "\n"@ + LEAD_TWO_TOP@
                + self.box_line(node, BoxLine::Bottom) + "\n"@ + WIRES_DOWN@ + "\n"@
                + WIRES_ON@,
            MiddleBuffer::Two(left, right) => "\n"@ + self.box_line(left, BoxLine::Top)
                + BETWEEN@ + self.box_line(right, BoxLine::Top) + "\n"@ + self.box_line(
                left,
                BoxLine::Middle,
            ) + BETWEEN@ + self.box_line(right, BoxLine::Middle) + "\n"@ + self.box_line(
                left,
                BoxLine::Bottom,
            ) + BETWEEN@ + self.box_line(right, BoxLine::Bottom) + "\n"@ + WIRES_UP@ + "\n"@
                + WIRES_ON@,
        }
    }

    /// The lines of `rows`, from the top down.
    pub open spec fn middle_rows(self, rows: Seq<MiddleBuffer>) -> Seq<char>
        decreases rows.len(),
    {
        if rows.len() == 0 {
            Seq::empty()
        } else {
            self.middle_rows(rows.drop_last()) + self.middle_row(rows.last())
        }
    }

    /// All that stands between the top row and the bottom row: the wires up
    /// and down the sides, closed to a loop where there is no bottom row, and
    /// the rows between.
    pub open spec fn middle(self, rows: Rows) -> Seq<char> {
        WIRES_UP@ + "\n"@ + match rows.middle {
            Some(between) => WIRES_ON@ + self.middle_rows(between),
            None => if rows.bottom is Some {
                WIRES_ON@
            } else {
                WIRES_CLOSED@
            },
        }
    }

    /// The whole drawing.
    pub open spec fn drawing(self, rows: Rows, request: Option<bool>) -> Seq<char> {
        self.network(request) + self.top_line(rows.top, BoxLine::Top) + "\n"@ + self.top_line(
            rows.top,
            BoxLine::Middle,
        ) + "\n"@ + self.top_line(rows.top, BoxLine::Bottom) + "\n"@ + self.middle(rows) + "\n"@
            + self.bottom_line(rows.bottom, BoxLine::Top) + "\n"@ + self.bottom_line(
            rows.bottom,
            BoxLine::Middle,
        ) + "\n"@ + self.bottom_line(rows.bottom, BoxLine::Bottom) + "\n"@ + KEYS@
    }
}

/// The text of the gap between two boxes of the top row
fn top_gap_text(line: BoxLine) -> (text: &'static str)
    ensures
        text@ == top_gap(line),
{
    match line {
        BoxLine::Top => "  ",
        BoxLine::Middle => "─▶",
        BoxLine::Bottom => "  ",
    }
}

/// The text of the gap between two boxes of the bottom row
fn bottom_gap_text(line: BoxLine) -> (text: &'static str)
    ensures
        text@ == bottom_gap(line),
{
    match line {
        BoxLine::Top => "  ",
        BoxLine::Middle => "◀─",
        BoxLine::Bottom => "  ",
    }
}

impl Scene {
    /// Looks at a breaker at the time `now` and takes down what a drawing of
    /// it shows. The look is a transition of the breaker like any other.
    pub fn capture(cb: &mut CircuitBreaker, now: u128) -> (scene: Scene)
        requires
            old(cb).wf(),
        ensures
            final(cb).wf(),
            final(cb)@ == old(cb)@.evaluate(now),
            scene@ == Picture::of(final(cb)@, now),
            scene.nodes@.len() >= 1,
    {
        let state = cb.get_state_at(now);
        let ghost breaker = cb@;
        let error_rate = cb.get_error_rate();
        let settings = *cb.get_settings();
        let seconds_left = match state {
            State::Closed => {
                let span = settings.buffer_span_duration;
                (span - cb.get_elapsed_time(span, now)) / 1_000_000_000
            },
            State::Open(opened_at) => {
                let waited = if now >= opened_at {
                    now - opened_at
                } else {
                    0
                };
                if settings.retry_timeout >= waited {
                    (settings.retry_timeout - waited) / 1_000_000_000
                } else {
                    0
                }
            },
            State::HalfOpen => 0,
        };
        let trial_success = cb.get_trial_success();
        let buffer = cb.get_buffer();
        let cursor = buffer.get_cursor();
        let size = buffer.get_size();
        let mut nodes: Vec<NodeInfo> = Vec::new();
        let mut index: usize = 0;
        while index < size
            invariant
                index <= size,
                size == buffer@.nodes.len(),
                nodes@.len() == index,
                forall|i: int| 0 <= i < index ==> nodes@[i] == buffer@.nodes[i],
            decreases size - index,
        {
            nodes.push(buffer.get_node_info(index));
            index += 1;
        }
        assert(nodes@ =~= breaker.buffer.nodes);
        Scene {
            state,
            error_rate,
            seconds_left,
            trial_success,
            trial_success_required: settings.trial_success_required,
            cursor,
            nodes,
        }
    }

    /// Tells whether the node at `index` is the one that outcomes are tallied
    /// in
    fn is_active(&self, index: usize) -> (active: bool)
        ensures
            active == self@.active(index),
    {
        match self.state {
            State::Closed => self.cursor == index,
            _ => false,
        }
    }

    /// Draws one line of the box of a node
    fn box_line(&self, index: usize, line: BoxLine) -> (text: String)
        requires
            index < self.nodes@.len(),
        ensures
            text@ == self@.box_line(index, line),
    {
        match line {
            BoxLine::Top => render_buffer_box_top(self.is_active(index)),
            BoxLine::Middle => render_buffer_box_middle(
                self.is_active(index),
                index,
                self.nodes[index],
            ),
            BoxLine::Bottom => render_buffer_box_bottom(self.is_active(index)),
        }
    }

    /// Draws one line of some boxes side by side
    fn boxes(&self, nodes: &Vec<usize>, line: BoxLine, gap: &str) -> (text: String)
        requires
            forall|i: int| 0 <= i < nodes@.len() ==> nodes@[i] < self.nodes@.len(),
        ensures
            text@ == self@.boxes(nodes@, line, gap@),
    {
        let mut text = String::new();
        let mut at: usize = 0;
        while at < nodes.len()
            invariant
                at <= nodes@.len(),
                forall|i: int| 0 <= i < nodes@.len() ==> nodes@[i] < self.nodes@.len(),
                text@ == self@.boxes(nodes@.take(at as int), line, gap@),
            decreases nodes@.len() - at,
        {
            if at > 0 {
                text.append(gap);
            }
            text.append(self.box_line(nodes[at], line).as_str());
            proof {
                let longer = nodes@.take(at + 1);
                assert(longer.drop_last() =~= nodes@.take(at as int));
                assert(longer.last() == nodes@[at as int]);
                assert(text@ =~= self@.boxes(longer, line, gap@));
            }
            at += 1;
        }
        assert(nodes@.take(at as int) =~= nodes@);
        text
    }

    /// Writes what stands below the error rate
    fn status(&self) -> (text: String)
        ensures
            text@ == self@.status(),
    {
        match self.state {
            State::Closed => {
                let mut text = NEXT_LEAD.to_owned();
                text.append(to_decimal(self.seconds_left).as_str());
                text.append(NEXT_TAIL);
                text
            },
            State::Open(_) => {
                let mut text = RETRY_LEAD.to_owned();
                text.append(to_decimal(self.seconds_left).as_str());
                text.append(RETRY_TAIL);
                text
            },
            State::HalfOpen => {
                let mut text = TRIAL_LEAD.to_owned();
                text.append(to_decimal(self.trial_success as u128).as_str());
                text.append("/");
                text.append(to_decimal(self.trial_success_required as u128).as_str());
                text.append(TRIAL_TAIL);
                text
            },
        }
    }

    /// Draws the upper part: the service, the request, the switch, the state
    fn network(&self, request: Option<bool>) -> (text: String)
        ensures
            text@ == self@.network(request),
    {
        let mut text = SERVICE.to_owned();
        text.append(COLOR_LEAD);
        text.append(
            match request {
                None => "",
                Some(true) => "\x1b[32m",
                Some(false) => "\x1b[31m",
            },
        );
        text.append("│");
        text.append(REQUEST_LEAD);
        text.append(
            match request {
                None => "   │   ",
                Some(true) => "Success",
                Some(false) => "Failure",
            },
        );
        text.append(WIRE);
        text.append(SYMBOL_LEAD);
        text.append(self.state.to_symbol().as_str());
        text.append(WIRE);
        text.append(ARROW);
        text.append(STATUS_LEAD);
        text.append(self.state.to_string().as_str());
        text.append(RATE_LEAD);
        text.append(render_error_rate(self.error_rate).as_str());
        text.append("%\n");
        text.append(self.status().as_str());
        text
    }

    /// Draws one line of the top row
    fn top_line(&self, top: &Vec<usize>, line: BoxLine) -> (text: String)
        requires
            forall|i: int| 0 <= i < top@.len() ==> top@[i] < self.nodes@.len(),
        ensures
            text@ == self@.top_line(top@, line),
    {
        let mut text = self.boxes(top, line, top_gap_text(line));
        let ghost boxes = text@;
        if top.len() == 2 {
            match line {
                BoxLine::Top => {},
                BoxLine::Middle => text.append(TAIL_ONE_MIDDLE),
                BoxLine::Bottom => text.append(TAIL_ONE_BOTTOM),
            }
        } else if top.len() == 1 {
            match line {
                BoxLine::Top => {},
                BoxLine::Middle => text.append(TAIL_TWO_MIDDLE),
                BoxLine::Bottom => text.append(TAIL_TWO_BOTTOM),
            }
        }
        assert(text@ =~= boxes + top_tail(top@.len(), line));
        text
    }

    /// Draws one line of the bottom row
    fn bottom_line(&self, bottom: &Option<Vec<usize>>, line: BoxLine) -> (text: String)
        requires
            bottom matches Some(row) ==> forall|i: int|
                0 <= i < row@.len() ==> row@[i] < self.nodes@.len(),
        ensures
            text@ == self@.bottom_line(
                match bottom {
                    Some(row) => Some(row@),
                    None => None,
                },
                line,
            ),
    {
        let mut text = String::new();
        match bottom {
            None => {},
            Some(row) => {
                if row.len() == 2 {
                    match line {
                        BoxLine::Top => text.append(LEAD_ONE_TOP),
                        BoxLine::Middle => text.append(LEAD_ONE_MIDDLE),
                        BoxLine::Bottom => text.append(BLANK_BOX),
                    }
                } else if row.len() == 1 {
                    match line {
                        BoxLine::Top => text.append(LEAD_TWO_TOP),
                        BoxLine::Middle => text.append(LEAD_TWO_MIDDLE),
                        BoxLine::Bottom => {
                            text.append(BLANK_BOX);
                            text.append(BLANK_BOX);
                        },
                    }
                }
                assert(text@ =~= bottom_lead(row@.len(), line));
                text.append(self.boxes(row, line, bottom_gap_text(line)).as_str());
            },
        }
        text
    }

    /// Draws one row between top and bottom
    fn middle_row(&self, row: MiddleBuffer) -> (text: String)
        requires
            row matches MiddleBuffer::One(node) ==> node < self.nodes@.len(),
            row matches MiddleBuffer::Two(left, right) ==> left < self.nodes@.len() && right
                < self.nodes@.len(),
        ensures
            text@ == self@.middle_row(row),
    {
        let mut text = "\n".to_owned();
        match row {
            MiddleBuffer::One(node) => {
                text.append(INDENT);
                text.append(self.box_line(node, BoxLine::Top).as_str());
                text.append("\n");
                text.append(INDENT);
                text.append(self.box_line(node, BoxLine::Middle).as_str());
                text.append("\n");
                text.append(INDENT);
                text.append(self.box_line(node, BoxLine::Bottom).as_str());
                text.append("\n");
                text.append(WIRES_DOWN);
                text.append("\n");
                text.append(WIRES_ON);
            },
            MiddleBuffer::Two(left, right) => {
                text.append(self.box_line(left, BoxLine::Top).as_str());
                text.append(BETWEEN);
                text.append(self.box_line(right, BoxLine::Top).as_str());
                text.append("\n");
                text.append(self.box_line(left, BoxLine::Middle).as_str());
                text.append(BETWEEN);
                text.append(self.box_line(right, BoxLine::Middle).as_str());
                text.append("\n");
                text.append(self.box_line(left, BoxLine::Bottom).as_str());
                text.append(BETWEEN);
                text.append(self.box_line(right, BoxLine::Bottom).as_str());
                text.append("\n");
                text.append(WIRES_UP);
                text.append("\n");
                text.append(WIRES_ON);
            },
        }
        text
    }

    /// Draws all that stands between the top row and the bottom row
    fn middle(&self, layout: &Layout) -> (text: String)
        requires
            layout.middle matches Some(rows) ==> forall|k: int|
                0 <= k < rows@.len() ==> match #[trigger] rows@[k] {
                    MiddleBuffer::One(node) => node < self.nodes@.len(),
                    MiddleBuffer::Two(left, right) => left < self.nodes@.len() && right
                        < self.nodes@.len(),
                },
        ensures
            text@ == self@.middle(layout@),
    {
        let mut text = WIRES_UP.to_owned();
        text.append("\n");
        match &layout.middle {
            Some(rows) => {
                let mut below = WIRES_ON.to_owned();
                let mut at: usize = 0;
                while at < rows.len()
                    invariant
                        at <= rows@.len(),
                        forall|k: int|
                            0 <= k < rows@.len() ==> match #[trigger] rows@[k] {
                                MiddleBuffer::One(node) => node < self.nodes@.len(),
                                MiddleBuffer::Two(left, right) => left < self.nodes@.len()
                                    && right < self.nodes@.len(),
                            },
                        below@ == WIRES_ON@ + self@.middle_rows(rows@.take(at as int)),
                    decreases rows@.len() - at,
                {
                    below.append(self.middle_row(rows[at]).as_str());
                    proof {
                        let longer = rows@.take(at + 1);
                        assert(longer.drop_last() =~= rows@.take(at as int));
                        assert(longer.last() == rows@[at as int]);
                        assert(below@ =~= WIRES_ON@ + self@.middle_rows(longer));
                    }
                    at += 1;
                }
                assert(rows@.take(at as int) =~= rows@);
                text.append(below.as_str());
            },
            None => {
                if layout.bottom.is_some() {
                    text.append(WIRES_ON);
                } else {
                    text.append(WIRES_CLOSED);
                }
            },
        }
        text
    }

    /// Draws the scene as a ring laid out by `layout`, below the service and
    /// the request that `input` is the outcome of, if any
    pub fn render<T, E>(&self, layout: &Layout, input: Option<Result<T, E>>) -> (text: String)
        requires
            self.nodes@.len() >= 1,
            layout@ == rows_of(self.nodes@.len()),
        ensures
            text@ == self@.drawing(layout@, request_of(input)),
    {
        let request = match input {
            Some(result) => Some(result.is_ok()),
            None => None,
        };
        let ghost size = self.nodes@.len();
        assert forall|i: int| 0 <= i < layout.top@.len() implies layout.top@[i] < size by {
            assert(layout.top@[i] == top_row(size)[i]);
        }
        assert(layout.bottom matches Some(row) ==> forall|i: int|
            0 <= i < row@.len() ==> row@[i] < size) by {
            if let Some(row) = layout.bottom {
                assert forall|i: int| 0 <= i < row@.len() implies row@[i] < size by {
                    assert(row@[i] == bottom_row(size)->0[i]);
                }
            }
        }
        assert(layout.middle matches Some(rows) ==> forall|k: int|
            0 <= k < rows@.len() ==> match #[trigger] rows@[k] {
                MiddleBuffer::One(node) => node < size,
                MiddleBuffer::Two(left, right) => left < size && right < size,
            }) by {
            if let Some(rows) = layout.middle {
                assert forall|k: int| 0 <= k < rows@.len() implies match #[trigger] rows@[k] {
                    MiddleBuffer::One(node) => node < size,
                    MiddleBuffer::Two(left, right) => left < size && right < size,
                } by {
                    assert(rows@[k] == middle_rows(size)->0[k]);
                }
            }
        }
        let mut text = self.network(request);
        text.append(self.top_line(&layout.top, BoxLine::Top).as_str());
        text.append("\n");
        text.append(self.top_line(&layout.top, BoxLine::Middle).as_str());
        text.append("\n");
        text.append(self.top_line(&layout.top, BoxLine::Bottom).as_str());
        text.append("\n");
        text.append(self.middle(layout).as_str());
        text.append("\n");
        text.append(self.bottom_line(&layout.bottom, BoxLine::Top).as_str());
        text.append("\n");
        text.append(self.bottom_line(&layout.bottom, BoxLine::Middle).as_str());
        text.append("\n");
        text.append(self.bottom_line(&layout.bottom, BoxLine::Bottom).as_str());
        text.append("\n");
        text.append(KEYS);
        text
    }
}

/// What a key asks the visualizer to do.
#[derive(Debug, Clone, Copy, PartialEq, Eq, Structural)]
pub enum Action {
    /// Say goodbye and end
    Quit,
    /// Report the outcome of a request, a success or a failure, and draw
    Record(bool),
    /// Print the ring buffer as it is and end
    Dump,
    /// Do nothing
    Ignore,
}

/// What the key with the code `key` asks for: `q` to quit, `s` for a success,
/// `f` for a failure, `x` for a dump. Other keys ask for nothing.
pub open spec fn action_of(key: u8) -> Action {
    if key == 'q' as u8 {
        Action::Quit
    } else if key == 's' as u8 {
        Action::Record(true)
    } else if key == 'f' as u8 {
        Action::Record(false)
    } else if key == 'x' as u8 {
        Action::Dump
    } else {
        Action::Ignore
    }
}

/// Tells what a key asks for
pub fn action_for(key: u8) -> (action: Action)
    ensures
        action == action_of(key),
{
    if key == 113 {
        Action::Quit
    } else if key == 115 {
        Action::Record(true)
    } else if key == 102 {
        Action::Record(false)
    } else if key == 120 {
        Action::Dump
    } else {
        Action::Ignore
    }
}

/// How many line breaks `bytes` holds.
pub open spec fn line_breaks(bytes: Seq<u8>) -> nat
    decreases bytes.len(),
{
    if bytes.len() == 0 {
        0
    } else {
        line_breaks(bytes.drop_last()) + if bytes.last() == 10 {
            1nat
        } else {
            0nat
        }
    }
}

/// What takes the cursor of a terminal `lines` lines up, to the start of the
/// line.
pub open spec fn cursor_up(lines: nat) -> Seq<char> {
    "\x1b["@ + decimal(lines) + "F"@
}

/// Writes what takes the cursor of a terminal back to where a drawing began:
/// up by as many lines as the drawing has line breaks
pub fn reset_position(drawing: &str) -> (text: String)
    ensures
        text@ == cursor_up(line_breaks(drawing.spec_bytes())),
{
    let bytes = drawing.as_bytes();
    let mut lines: usize = 0;
    let mut at: usize = 0;
    while at < bytes.len()
        invariant
            at <= bytes@.len(),
            lines <= at,
            lines == line_breaks(bytes@.take(at as int)),
        decreases bytes@.len() - at,
    {
        proof {
            assert(bytes@.take(at + 1).drop_last() =~= bytes@.take(at as int));
        }
        if bytes[at] == 10 {
            lines += 1;
        }
        at += 1;
    }
    assert(bytes@.take(at as int) =~= bytes@);
    let mut text = "\x1b[".to_owned();
    text.append(to_decimal(lines as u128).as_str());
    text.append("F");
    text
}

/// Draws a circuit breaker and reports to it, for as long as it borrows it.
#[derive(Debug, PartialEq)]
pub struct Visualizer<'a> {
    /// The breaker that is drawn
    pub cb: &'a mut CircuitBreaker,
    /// Where its nodes stand
    pub layout: Layout,
}

impl<'a> Visualizer<'a> {
    /// The breaker is well formed, its buffer has the configured size, and the
    /// layout is the layout of that buffer.
    pub open spec fn wf(&self) -> bool {
        &&& self.cb.wf()
        &&& self.cb@.settings.buffer_size == self.cb@.buffer.nodes.len()
        &&& self.layout@ == rows_of(self.cb@.buffer.nodes.len())
    }

    /// Create a visualizer of `cb`, with the layout of its buffer
    pub fn new(cb: &'a mut CircuitBreaker) -> (visualizer: Self)
        requires
            old(cb)@.buffer.nodes.len() >= 1,
        ensures
            visualizer.cb@ == old(cb)@,
            *final(visualizer.cb) == *final(cb),
            visualizer.layout@ == rows_of(old(cb)@.buffer.nodes.len()),
    {
        let buffer = cb.get_buffer();
        let size = buffer.get_size();
        Self { cb, layout: Layout::new(size) }
    }

    /// Report the result of a request to the breaker, at the time that its
    /// clock gives
    pub fn record<T, E>(&mut self, input: Result<T, E>)
        requires
            old(self).cb.wf(),
            old(self).cb@.has_room(),
        ensures
            final(self).cb.wf(),
            exists|now: u128| final(self).cb@ == #[trigger] old(self).cb@.record(now, input is Ok),
            final(self).cb@.buffer.total() <= old(self).cb@.buffer.total() + 1,
            final(self).layout == old(self).layout,
            *final(final(self).cb) == *final(old(self).cb),
    {
        self.cb.record(input);
    }

    /// Draw the breaker as a look at the time `now` finds it, below the
    /// request that `input` is the outcome of, if any
    pub fn render_at<T, E>(&mut self, now: u128, input: Option<Result<T, E>>) -> (text: String)
        requires
            old(self).wf(),
        ensures
            final(self).wf(),
            final(self).cb@ == old(self).cb@.evaluate(now),
            text@ == Picture::of(final(self).cb@, now).drawing(
                old(self).layout@,
                request_of(input),
            ),
            final(self).layout == old(self).layout,
            *final(final(self).cb) == *final(old(self).cb),
    {
        proof {
            self.cb@.lemma_evaluate_keeps(now);
        }
        let scene = Scene::capture(self.cb, now);
        scene.render(&self.layout, input)
    }

    /// Draw the breaker as a look finds it at the time that its clock gives
    pub fn render<T, E>(&mut self, input: Option<Result<T, E>>) -> (text: String)
        requires
            old(self).wf(),
        ensures
            final(self).wf(),
            exists|now: u128|
                final(self).cb@ == #[trigger] old(self).cb@.evaluate(now) && text@ == Picture::of(
                    final(self).cb@,
                    now,
                ).drawing(old(self).layout@, request_of(input)),
            final(self).layout == old(self).layout,
            *final(final(self).cb) == *final(old(self).cb),
    {
        let now = self.cb.now();
        self.render_at(now, input)
    }
}

} // verus!
