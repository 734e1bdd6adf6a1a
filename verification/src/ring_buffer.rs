//! The ring buffer: a fixed number of nodes, one per time span, each counting
//! the successes and failures seen during its span.
//!
//! The node under the cursor is the span in progress. The error rate is taken
//! over all the other nodes, the completed spans.
use vstd::arithmetic::div_mod::{
    lemma_add_mod_noop, lemma_add_mod_noop_right, lemma_fundamental_div_mod,
    lemma_fundamental_div_mod_converse_mod, lemma_mod_bound, lemma_mod_multiples_vanish,
};
use vstd::prelude::*;

verus! {

/// The tallies of one node, as plain values.
#[derive(Debug, Clone, Copy, PartialEq, Eq, Structural)]
pub struct NodeInfo {
    pub failure_count: usize,
    pub success_count: usize,
}

/// One span of the ring buffer.
#[derive(Debug, Clone, Copy, PartialEq, Eq, Structural)]
pub struct Node {
    failure_count: usize,
    success_count: usize,
}

/// The tallies of a node that has seen nothing.
pub open spec fn empty_info() -> NodeInfo {
    NodeInfo { failure_count: 0, success_count: 0 }
}

impl View for Node {
    type V = NodeInfo;

    closed spec fn view(&self) -> NodeInfo {
        NodeInfo { failure_count: self.failure_count, success_count: self.success_count }
    }
}

impl Node {
    /// A node with both tallies at zero.
    pub fn new() -> (node: Self)
        ensures
            node@ == empty_info(),
    {
        Self { failure_count: 0, success_count: 0 }
    }

    /// Sets both tallies back to zero.
    pub fn reset(&mut self)
        ensures
            final(self)@ == empty_info(),
    {
        self.failure_count = 0;
        self.success_count = 0;
    }
}

impl Default for Node {
    fn default() -> (node: Self)
        ensures
            node@ == empty_info(),
    {
        Self::new()
    }
}

/// The failures tallied in `nodes`, all of them.
pub open spec fn sum_failures(nodes: Seq<NodeInfo>) -> nat
    decreases nodes.len(),
{
    if nodes.len() == 0 {
        0
    } else {
        sum_failures(nodes.drop_last()) + nodes.last().failure_count as nat
    }
}

/// The successes tallied in `nodes`, all of them.
pub open spec fn sum_successes(nodes: Seq<NodeInfo>) -> nat
    decreases nodes.len(),
{
    if nodes.len() == 0 {
        0
    } else {
        sum_successes(nodes.drop_last()) + nodes.last().success_count as nat
    }
}

/// The error rate of `failures` among `total` observations, in hundredths of a
/// percent, rounded to the nearest hundredth (a half rounds up).
pub open spec fn rate_of(failures: nat, total: nat) -> nat
    recommends
        failures <= total,
        total > 0,
{
    ((20000 * failures + total) / (2 * total)) as nat
}

/// What a ring buffer is: the position of the cursor and the tallies of its
/// nodes, in order.
pub struct Ring {
    pub cursor: int,
    pub nodes: Seq<NodeInfo>,
}

impl Ring {
    /// The cursor points at one of the nodes.
    pub open spec fn wf(self) -> bool {
        0 <= self.cursor < self.nodes.len()
    }

    /// A ring of `size` untouched nodes with the cursor on the first.
    pub open spec fn fresh(size: nat) -> Ring {
        Ring { cursor: 0, nodes: Seq::new(size, |i: int| empty_info()) }
    }

    /// How many steps ahead of the cursor the node at `index` lies, going round.
    pub open spec fn distance(self, index: int) -> int {
        if index >= self.cursor {
            index - self.cursor
        } else {
            index - self.cursor + self.nodes.len()
        }
    }

    /// Whether moving the cursor `steps` forward passes or lands on `index`.
    pub open spec fn swept(self, steps: nat, index: int) -> bool {
        steps >= self.nodes.len() || 1 <= self.distance(index) <= steps
    }

    /// The ring after the cursor has moved `steps` forward: every node that it
    /// passed or landed on is empty, the others are as they were.
    pub open spec fn advance(self, steps: nat) -> Ring {
        Ring {
            cursor: (self.cursor + steps) % (self.nodes.len() as int),
            nodes: Seq::new(
                self.nodes.len(),
                |i: int|
                    if self.swept(steps, i) {
                        empty_info()
                    } else {
                        self.nodes[i]
                    },
            ),
        }
    }

    /// The ring with one more failure in the current node.
    pub open spec fn add_failure(self) -> Ring {
        let node = self.nodes[self.cursor];
        Ring {
            cursor: self.cursor,
            nodes: self.nodes.update(
                self.cursor,
                NodeInfo {
                    failure_count: (node.failure_count + 1) as usize,
                    success_count: node.success_count,
                },
            ),
        }
    }

    /// The ring with one more success in the current node.
    pub open spec fn add_success(self) -> Ring {
        let node = self.nodes[self.cursor];
        Ring {
            cursor: self.cursor,
            nodes: self.nodes.update(
                self.cursor,
                NodeInfo {
                    failure_count: node.failure_count,
                    success_count: (node.success_count + 1) as usize,
                },
            ),
        }
    }

    /// The ring with the tallies of the node at `index` replaced.
    pub open spec fn set_node(self, index: int, info: NodeInfo) -> Ring {
        Ring { cursor: self.cursor, nodes: self.nodes.update(index, info) }
    }

    /// Everything tallied in the ring, the current node included.
    pub open spec fn total(self) -> nat {
        sum_failures(self.nodes) + sum_successes(self.nodes)
    }

    /// The failures of the completed spans: of every node but the current one.
    pub open spec fn failures(self) -> nat {
        (sum_failures(self.nodes) - self.nodes[self.cursor].failure_count) as nat
    }

    /// The successes of the completed spans: of every node but the current one.
    pub open spec fn successes(self) -> nat {
        (sum_successes(self.nodes) - self.nodes[self.cursor].success_count) as nat
    }

    /// The observations of the completed spans.
    pub open spec fn observed(self) -> nat {
        self.failures() + self.successes()
    }

    /// The error rate of the completed spans in hundredths of a percent: zero
    /// while they hold fewer than `min_eval_size` observations, or none.
    pub open spec fn error_rate(self, min_eval_size: nat) -> nat {
        if self.observed() < min_eval_size || self.observed() == 0 {
            0
        } else {
            rate_of(self.failures(), self.observed())
        }
    }
}

/// A sum of failures is at least the tally of each node in it.
pub proof fn lemma_sum_failures_covers(nodes: Seq<NodeInfo>, index: int)
    requires
        0 <= index < nodes.len(),
    ensures
        nodes[index].failure_count <= sum_failures(nodes),
    decreases nodes.len(),
{
    if index < nodes.len() - 1 {
        lemma_sum_failures_covers(nodes.drop_last(), index);
    }
}

/// A sum of successes is at least the tally of each node in it.
pub proof fn lemma_sum_successes_covers(nodes: Seq<NodeInfo>, index: int)
    requires
        0 <= index < nodes.len(),
    ensures
        nodes[index].success_count <= sum_successes(nodes),
    decreases nodes.len(),
{
    if index < nodes.len() - 1 {
        lemma_sum_successes_covers(nodes.drop_last(), index);
    }
}

/// Replacing one node changes the sums by the difference of its tallies.
pub proof fn lemma_sums_update(nodes: Seq<NodeInfo>, index: int, info: NodeInfo)
    requires
        0 <= index < nodes.len(),
    ensures
        sum_failures(nodes.update(index, info)) == sum_failures(nodes)
            - nodes[index].failure_count + info.failure_count,
        sum_successes(nodes.update(index, info)) == sum_successes(nodes)
            - nodes[index].success_count + info.success_count,
    decreases nodes.len(),
{
    let updated = nodes.update(index, info);
    if index < nodes.len() - 1 {
        lemma_sums_update(nodes.drop_last(), index, info);
        assert(updated.drop_last() =~= nodes.drop_last().update(index, info));
    } else {
        assert(updated.drop_last() =~= nodes.drop_last());
    }
}

/// Where no node of `below` holds more than the node of `above` in its place,
/// the sums of `below` are no larger.
pub proof fn lemma_sums_monotone(below: Seq<NodeInfo>, above: Seq<NodeInfo>)
    requires
        below.len() == above.len(),
        forall|i: int|
            0 <= i < below.len() ==> below[i].failure_count <= above[i].failure_count
                && below[i].success_count <= above[i].success_count,
    ensures
        sum_failures(below) <= sum_failures(above),
        sum_successes(below) <= sum_successes(above),
    decreases below.len(),
{
    if below.len() > 0 {
        lemma_sums_monotone(below.drop_last(), above.drop_last());
    }
}

/// The sums of the first nodes are no larger than the sums of all.
pub proof fn lemma_sums_of_prefix(nodes: Seq<NodeInfo>, count: int)
    requires
        0 <= count <= nodes.len(),
    ensures
        sum_failures(nodes.take(count)) <= sum_failures(nodes),
        sum_successes(nodes.take(count)) <= sum_successes(nodes),
    decreases nodes.len(),
{
    if count == nodes.len() {
        assert(nodes.take(count) =~= nodes);
    } else {
        lemma_sums_of_prefix(nodes.drop_last(), count);
        assert(nodes.drop_last().take(count) =~= nodes.take(count));
    }
}

/// The sums of nodes that are all empty are zero.
pub proof fn lemma_sums_of_empty(nodes: Seq<NodeInfo>)
    requires
        forall|i: int| 0 <= i < nodes.len() ==> nodes[i] == empty_info(),
    ensures
        sum_failures(nodes) == 0,
        sum_successes(nodes) == 0,
    decreases nodes.len(),
{
    if nodes.len() > 0 {
        lemma_sums_of_empty(nodes.drop_last());
    }
}

/// An error rate never exceeds one hundred percent.
pub proof fn lemma_rate_bounded(failures: nat, total: nat)
    requires
        failures <= total,
        total > 0,
    ensures
        rate_of(failures, total) <= 10000,
{
    let num = (20000 * failures + total) as int;
    let den = (2 * total) as int;
    assert(num / den <= 10000) by (nonlinear_arith)
        requires
            0 <= num < 10001 * den,
            den > 0,
    ;
}

/// A number below twice the modulus is reduced by taking the modulus off once,
/// if at all.
pub proof fn lemma_mod_below_double(x: int, modulus: int)
    requires
        0 <= x < 2 * modulus,
    ensures
        x % modulus == if x < modulus {
            x
        } else {
            x - modulus
        },
{
    if x < modulus {
        lemma_fundamental_div_mod_converse_mod(x, modulus, 0, x);
    } else {
        lemma_fundamental_div_mod_converse_mod(x, modulus, 1, x - modulus);
    }
}

impl Ring {
    /// The ring after `times` advances of one step each.
    pub open spec fn step_by_step(self, times: nat) -> Ring
        decreases times,
    {
        if times == 0 {
            self
        } else {
            self.step_by_step((times - 1) as nat).advance(1)
        }
    }

    /// An advance keeps the ring well formed and its size, and adds nothing to
    /// what the ring holds.
    pub proof fn lemma_advance_keeps(self, steps: nat)
        requires
            self.wf(),
        ensures
            self.advance(steps).wf(),
            self.advance(steps).nodes.len() == self.nodes.len(),
            self.advance(steps).total() <= self.total(),
    {
        lemma_mod_bound(self.cursor + steps, self.nodes.len() as int);
        lemma_sums_monotone(self.advance(steps).nodes, self.nodes);
    }

    /// What the completed spans hold is part of what the ring holds, and so is
    /// each tally of the current node.
    pub proof fn lemma_total_covers(self)
        requires
            self.wf(),
        ensures
            self.observed() <= self.total(),
            self.nodes[self.cursor].failure_count <= self.total(),
            self.nodes[self.cursor].success_count <= self.total(),
    {
        lemma_sum_failures_covers(self.nodes, self.cursor);
        lemma_sum_successes_covers(self.nodes, self.cursor);
    }

    /// A fresh ring is well formed and holds nothing.
    pub proof fn lemma_fresh_holds_nothing(size: nat)
        requires
            size >= 1,
        ensures
            Ring::fresh(size).wf(),
            Ring::fresh(size).total() == 0,
            Ring::fresh(size).observed() == 0,
    {
        lemma_sums_of_empty(Ring::fresh(size).nodes);
    }

    /// One more outcome in the current node leaves the completed spans as they
    /// were and adds one to what the ring holds.
    pub proof fn lemma_add_keeps_completed(self)
        requires
            self.wf(),
            self.total() < usize::MAX,
        ensures
            self.add_failure().wf(),
            self.add_failure().failures() == self.failures(),
            self.add_failure().successes() == self.successes(),
            self.add_failure().total() == self.total() + 1,
            self.add_success().wf(),
            self.add_success().failures() == self.failures(),
            self.add_success().successes() == self.successes(),
            self.add_success().total() == self.total() + 1,
    {
        self.lemma_total_covers();
        lemma_sums_update(self.nodes, self.cursor, self.add_failure().nodes[self.cursor]);
        lemma_sums_update(self.nodes, self.cursor, self.add_success().nodes[self.cursor]);
    }

    /// An advance by no steps changes nothing.
    pub proof fn lemma_advance_none(self)
        requires
            self.wf(),
        ensures
            self.advance(0) == self,
    {
        lemma_mod_below_double(self.cursor, self.nodes.len() as int);
        assert(self.advance(0).nodes =~= self.nodes);
    }

    /// Two advances in a row are one advance by the sum of their steps.
    pub proof fn lemma_advance_composes(self, first: nat, second: nat)
        requires
            self.wf(),
        ensures
            self.advance(first).advance(second) == self.advance(first + second),
    {
        let size = self.nodes.len() as int;
        let middle = self.advance(first);
        lemma_add_mod_noop(self.cursor + first, second as int, size);
        lemma_add_mod_noop_right(middle.cursor, second as int, size);
        lemma_mod_bound(self.cursor + first, size);
        if first < size {
            lemma_mod_below_double(self.cursor + first, size);
        }
        assert(middle.advance(second).nodes =~= self.advance(first + second).nodes);
    }

    /// A long advance is one full turn and then the steps that are left over.
    pub proof fn lemma_advance_wraps(self, steps: nat)
        requires
            self.wf(),
            steps >= self.nodes.len(),
        ensures
            self.advance(self.nodes.len()).advance(steps % self.nodes.len()) == self.advance(
                steps,
            ),
    {
        let size = self.nodes.len() as int;
        let rest = steps as int % size;
        self.lemma_advance_composes(size as nat, rest as nat);
        lemma_fundamental_div_mod(steps as int, size);
        lemma_mod_multiples_vanish(steps as int / size, self.cursor + rest, size);
        lemma_mod_multiples_vanish(1, self.cursor + rest, size);
        lemma_mod_bound(steps as int, size);
        assert(self.advance((size + rest) as nat).nodes =~= self.advance(steps).nodes);
    }

    /// Advancing step by step comes to the same as advancing at once.
    pub proof fn lemma_step_by_step_is_advance(self, times: nat)
        requires
            self.wf(),
        ensures
            self.step_by_step(times) == self.advance(times),
        decreases times,
    {
        if times == 0 {
            self.lemma_advance_none();
        } else {
            self.lemma_step_by_step_is_advance((times - 1) as nat);
            self.lemma_advance_composes((times - 1) as nat, 1);
        }
    }

    /// Bounded memory: once the cursor has advanced through as many spans as
    /// the ring has nodes, one span at a time, every node is empty, whatever
    /// the ring held before.
    pub proof fn lemma_full_turn_forgets(self)
        requires
            self.wf(),
        ensures
            forall|i: int|
                0 <= i < self.nodes.len() ==> #[trigger] self.step_by_step(
                    self.nodes.len(),
                ).nodes[i] == empty_info(),
            self.step_by_step(self.nodes.len()).cursor == self.cursor,
            self.step_by_step(self.nodes.len()).total() == 0,
    {
        let size = self.nodes.len();
        self.lemma_step_by_step_is_advance(size);
        lemma_fundamental_div_mod_converse_mod(
            self.cursor + size,
            size as int,
            1,
            self.cursor,
        );
        lemma_sums_of_empty(self.advance(size).nodes);
    }

    /// An advance by at least the size of the ring empties every node.
    pub proof fn lemma_long_advance_forgets(self, steps: nat)
        requires
            self.wf(),
            steps >= self.nodes.len(),
        ensures
            self.advance(steps).nodes == Ring::fresh(self.nodes.len()).nodes,
    {
        assert(self.advance(steps).nodes =~= Ring::fresh(self.nodes.len()).nodes);
    }

    /// Skip and reset: an advance by fewer steps than the ring has nodes moves
    /// the cursor that many nodes forward, going round, and empties exactly
    /// the nodes after the old cursor up to and including the new one. Every
    /// other node keeps its tallies.
    pub proof fn lemma_skip_resets_exactly(self, steps: nat, index: int)
        requires
            self.wf(),
            steps < self.nodes.len(),
            0 <= index < self.nodes.len(),
        ensures
            self.advance(steps).cursor == (self.cursor + steps) % (self.nodes.len() as int),
            self.advance(steps).nodes[index] == if exists|j: int|
                1 <= j <= steps && #[trigger] ((self.cursor + j) % (self.nodes.len() as int))
                    == index {
                empty_info()
            } else {
                self.nodes[index]
            },
            self.swept(steps, index) <==> exists|j: int|
                1 <= j <= steps && #[trigger] ((self.cursor + j) % (self.nodes.len() as int))
                    == index,
    {
        let size = self.nodes.len() as int;
        if self.swept(steps, index) {
            let j = self.distance(index);
            lemma_mod_below_double(self.cursor + j, size);
            assert((self.cursor + j) % size == index);
        }
        assert forall|j: int| 1 <= j <= steps && #[trigger] ((self.cursor + j) % size)
            == index implies self.swept(steps, index) by {
            lemma_mod_below_double(self.cursor + j, size);
        }
    }

    /// Gating: while the completed spans hold fewer observations than
    /// `min_eval_size`, the error rate is zero, whatever share of them failed.
    pub proof fn lemma_sparse_rate_is_zero(self, min_eval_size: nat)
        requires
            self.observed() < min_eval_size,
        ensures
            self.error_rate(min_eval_size) == 0,
    {
    }

    /// The error rate lies between nothing and one hundred percent.
    pub proof fn lemma_error_rate_bounded(self, min_eval_size: nat)
        requires
            self.wf(),
        ensures
            self.error_rate(min_eval_size) <= 10000,
    {
        self.lemma_total_covers();
        if self.observed() > 0 {
            lemma_rate_bounded(self.failures(), self.observed());
        }
    }
}

/// The ring buffer itself.
#[derive(Debug, PartialEq)]
pub struct RingBuffer {
    cursor: usize,
    nodes: Vec<Node>,
}

impl View for RingBuffer {
    type V = Ring;

    closed spec fn view(&self) -> Ring {
        Ring {
            cursor: self.cursor as int,
            nodes: Seq::new(self.nodes@.len(), |i: int| self.nodes@[i]@),
        }
    }
}

impl RingBuffer {
    /// The buffer has at least one node, its cursor points at one of them, and
    /// all that it holds is no more than a `usize` can count.
    pub open spec fn wf(&self) -> bool {
        self@.wf() && self@.total() <= usize::MAX
    }

    /// Create a new ring buffer with `elements` nodes, all empty, and the
    /// cursor on the first.
    pub fn new(elements: usize) -> (buffer: Self)
        requires
            elements >= 1,
        ensures
            buffer.wf(),
            buffer@ == Ring::fresh(elements as nat),
            buffer@.total() == 0,
    {
        let mut nodes: Vec<Node> = Vec::new();
        let mut filled: usize = 0;
        while filled < elements
            invariant
                filled <= elements,
                nodes@.len() == filled,
                forall|i: int| 0 <= i < filled ==> (#[trigger] nodes@[i])@ == empty_info(),
            decreases elements - filled,
        {
            nodes.push(Node::new());
            filled += 1;
        }
        let buffer = Self { cursor: 0, nodes };
        assert(buffer@.nodes =~= Ring::fresh(elements as nat).nodes);
        proof {
            Ring::lemma_fresh_holds_nothing(elements as nat);
        }
        buffer
    }

    /// Returns the size of the buffer
    pub fn get_size(&self) -> (size: usize)
        ensures
            size == self@.nodes.len(),
    {
        self.nodes.len()
    }

    /// Returns the current cursor
    pub fn get_cursor(&self) -> (cursor: usize)
        ensures
            cursor == self@.cursor,
    {
        self.cursor
    }

    /// Move the cursor forward by `steps` positions (modulo buffer size),
    /// resetting the nodes it passes and the node it lands on. With `steps`
    /// at zero nothing changes.
    pub fn advance(&mut self, steps: usize)
        requires
            old(self).wf(),
        ensures
            final(self).wf(),
            final(self)@ == old(self)@.advance(steps as nat),
            final(self)@.total() <= old(self)@.total(),
    {
        let size = self.nodes.len();
        let ghost before = self@;
        proof {
            before.lemma_advance_keeps(steps as nat);
        }
        if steps >= size {
            let mut index: usize = 0;
            while index < size
                invariant
                    index <= size,
                    size == self.nodes@.len(),
                    self.cursor == before.cursor,
                    forall|i: int| 0 <= i < index ==> (#[trigger] self.nodes@[i])@ == empty_info(),
                decreases size - index,
            {
                self.nodes.set(index, Node::new());
                index += 1;
            }
            let landed: u128 = (self.cursor as u128 + steps as u128) % (size as u128);
            proof {
                lemma_mod_bound(self.cursor as int + steps as int, size as int);
            }
            self.cursor = landed as usize;
        } else {
            let mut done: usize = 0;
            while done < steps
                invariant
                    done <= steps < size,
                    size == self.nodes@.len() == before.nodes.len(),
                    before.wf(),
                    self.cursor == if before.cursor + done < size {
                        before.cursor + done
                    } else {
                        before.cursor + done - size
                    },
                    forall|i: int|
                        0 <= i < size ==> (#[trigger] self.nodes@[i])@ == if before.swept(
                            done as nat,
                            i,
                        ) {
                            empty_info()
                        } else {
                            before.nodes[i]
                        },
                decreases steps - done,
            {
                let next = if self.cursor + 1 == size {
                    0
                } else {
                    self.cursor + 1
                };
                self.cursor = next;
                self.nodes.set(next, Node::new());
                done += 1;
            }
            proof {
                lemma_mod_below_double(before.cursor + steps, size as int);
            }
        }
        assert(self@.nodes =~= before.advance(steps as nat).nodes);
    }

    /// Increments the failure count at the current cursor
    pub fn add_failure(&mut self)
        requires
            old(self).wf(),
            old(self)@.total() < usize::MAX,
        ensures
            final(self).wf(),
            final(self)@ == old(self)@.add_failure(),
            final(self)@.total() == old(self)@.total() + 1,
    {
        let ghost before = self@;
        proof {
            before.lemma_total_covers();
            before.lemma_add_keeps_completed();
        }
        let node = self.nodes[self.cursor];
        self.nodes.set(
            self.cursor,
            Node { failure_count: node.failure_count + 1, success_count: node.success_count },
        );
        assert(self@.nodes =~= before.add_failure().nodes);
    }

    /// Increments the success count at the current cursor
    pub fn add_success(&mut self)
        requires
            old(self).wf(),
            old(self)@.total() < usize::MAX,
        ensures
            final(self).wf(),
            final(self)@ == old(self)@.add_success(),
            final(self)@.total() == old(self)@.total() + 1,
    {
        let ghost before = self@;
        proof {
            before.lemma_total_covers();
            before.lemma_add_keeps_completed();
        }
        let node = self.nodes[self.cursor];
        self.nodes.set(
            self.cursor,
            Node { failure_count: node.failure_count, success_count: node.success_count + 1 },
        );
        assert(self@.nodes =~= before.add_success().nodes);
    }

    /// Retrieve info for a specific node
    pub fn get_node_info(&self, index: usize) -> (info: NodeInfo)
        requires
            index < self@.nodes.len(),
        ensures
            info == self@.nodes[index as int],
    {
        NodeInfo {
            failure_count: self.nodes[index].failure_count,
            success_count: self.nodes[index].success_count,
        }
    }

    /// Returns the error rate of the completed spans in hundredths of a
    /// percent (0 to 10000), rounded to the nearest hundredth.
    /// If `failures+successes` < `min_eval_size`, returns 0
    pub fn get_error_rate(&self, min_eval_size: usize) -> (rate: u32)
        requires
            self.wf(),
        ensures
            rate == self@.error_rate(min_eval_size as nat),
            rate <= 10000,
    {
        proof {
            self@.lemma_total_covers();
        }
        let size = self.nodes.len();
        let ghost nodes = self@.nodes;
        let mut failures: u128 = 0;
        let mut successes: u128 = 0;
        let mut index: usize = 0;
        while index < size
            invariant
                index <= size,
                size == self.nodes@.len() == nodes.len(),
                self.cursor < size,
                nodes == self@.nodes,
                failures <= index * 0xFFFF_FFFF_FFFF_FFFF,
                successes <= index * 0xFFFF_FFFF_FFFF_FFFF,
                failures == sum_failures(nodes.take(index as int)) - if self.cursor < index {
                    nodes[self.cursor as int].failure_count as int
                } else {
                    0
                },
                successes == sum_successes(nodes.take(index as int)) - if self.cursor < index {
                    nodes[self.cursor as int].success_count as int
                } else {
                    0
                },
            decreases size - index,
        {
            proof {
                assert(nodes.take(index + 1).drop_last() =~= nodes.take(index as int));
            }
            if index != self.cursor {
                failures += self.nodes[index].failure_count as u128;
                successes += self.nodes[index].success_count as u128;
            }
            index += 1;
        }
        proof {
            assert(nodes.take(size as int) =~= nodes);
        }
        let total = failures + successes;
        if total < min_eval_size as u128 || total == 0 {
            0
        } else {
            proof {
                lemma_rate_bounded(failures as nat, total as nat);
            }
            ((20000 * failures + total) / (2 * total)) as u32
        }
    }

    /// Returns how many outcomes the buffer holds, the current node included
    pub fn get_total(&self) -> (total: usize)
        requires
            self.wf(),
        ensures
            total == self@.total(),
    {
        let size = self.nodes.len();
        let ghost nodes = self@.nodes;
        let mut total: usize = 0;
        let mut index: usize = 0;
        while index < size
            invariant
                index <= size,
                size == self.nodes@.len() == nodes.len(),
                nodes == self@.nodes,
                sum_failures(nodes) + sum_successes(nodes) <= usize::MAX,
                total == sum_failures(nodes.take(index as int)) + sum_successes(
                    nodes.take(index as int),
                ),
            decreases size - index,
        {
            proof {
                assert(nodes.take(index + 1).drop_last() =~= nodes.take(index as int));
                lemma_sums_of_prefix(nodes, index + 1);
            }
            total += self.nodes[index].failure_count;
            total += self.nodes[index].success_count;
            index += 1;
        }
        proof {
            assert(nodes.take(size as int) =~= nodes);
        }
        total
    }

    /// Replace the tallies of a specific node
    pub fn set_node_info(&mut self, index: usize, info: NodeInfo)
        requires
            index < old(self)@.nodes.len(),
        ensures
            final(self)@ == old(self)@.set_node(index as int, info),
            final(self)@.total() == old(self)@.total() - old(self)@.nodes[index as int].failure_count
                - old(self)@.nodes[index as int].success_count + info.failure_count
                + info.success_count,
    {
        let ghost before = self@;
        proof {
            lemma_sums_update(before.nodes, index as int, info);
        }
        self.nodes.set(
            index,
            Node { failure_count: info.failure_count, success_count: info.success_count },
        );
        assert(self@.nodes =~= before.set_node(index as int, info).nodes);
    }

    /// Zeroes every node and returns the cursor to the first.
    pub fn reset(&mut self)
        requires
            old(self)@.nodes.len() >= 1,
        ensures
            final(self).wf(),
            final(self)@ == Ring::fresh(old(self)@.nodes.len()),
            final(self)@.total() == 0,
    {
        let size = self.nodes.len();
        proof {
            Ring::lemma_fresh_holds_nothing(size as nat);
        }
        let mut index: usize = 0;
        while index < size
            invariant
                index <= size,
                size == self.nodes@.len(),
                forall|i: int| 0 <= i < index ==> (#[trigger] self.nodes@[i])@ == empty_info(),
            decreases size - index,
        {
            self.nodes.set(index, Node::new());
            index += 1;
        }
        self.cursor = 0;
        assert(self@.nodes =~= Ring::fresh(size as nat).nodes);
    }
}

} // verus!
