//! A plain ring of nodes that count errors among all requests. Each node
//! carries the time at which it expires; the cursor moves one node at a time.
use std::time::Instant;
use vstd::prelude::*;

verus! {

/// One node of the ring.
#[derive(Debug, Clone, Copy)]
pub struct Node {
    pub expires: Instant,
    pub error_count: usize,
    pub total_count: usize,
}

impl Node {
    /// A node that has counted nothing and expires now.
    pub fn new() -> (node: Self)
        ensures
            node.error_count == 0,
            node.total_count == 0,
    {
        Self { expires: Instant::now(), error_count: 0, total_count: 0 }
    }
}

/// The ring: its nodes and the cursor that points at the current one.
#[derive(Debug)]
pub struct RingBuffer {
    cursor: usize,
    nodes: Vec<Node>,
}

impl RingBuffer {
    /// The index of the current node.
    pub closed spec fn position(&self) -> int {
        self.cursor as int
    }

    /// The nodes, in order.
    pub closed spec fn contents(&self) -> Seq<Node> {
        self.nodes@
    }

    /// The cursor points at one of the nodes.
    pub open spec fn wf(&self) -> bool {
        0 <= self.position() < self.contents().len()
    }

    /// Create a ring of `elements` nodes, each a copy of one new node, with the
    /// cursor on the first.
    pub fn new(elements: usize) -> (buffer: Self)
        ensures
            buffer.position() == 0,
            buffer.contents().len() == elements,
            forall|i: int|
                0 <= i < elements ==> (#[trigger] buffer.contents()[i]).error_count == 0
                    && buffer.contents()[i].total_count == 0,
            forall|i: int, j: int|
                0 <= i < elements && 0 <= j < elements ==> buffer.contents()[i]
                    == buffer.contents()[j],
    {
        let node = Node::new();
        let mut nodes: Vec<Node> = Vec::new();
        let mut filled: usize = 0;
        while filled < elements
            invariant
                filled <= elements,
                nodes@.len() == filled,
                forall|i: int| 0 <= i < filled ==> nodes@[i] == node,
            decreases elements - filled,
        {
            nodes.push(node);
            filled += 1;
        }
        Self { cursor: 0, nodes }
    }

    /// Returns the number of nodes
    pub fn get_length(&self) -> (length: usize)
        ensures
            length == self.contents().len(),
    {
        self.nodes.len()
    }

    /// Returns the current node
    pub fn get_cursor(&self) -> (node: &Node)
        requires
            self.wf(),
        ensures
            *node == self.contents()[self.position()],
    {
        &self.nodes[self.cursor]
    }

    /// Returns the index of the current node
    pub fn get_cursor_index(&self) -> (index: usize)
        ensures
            index == self.position(),
    {
        self.cursor
    }

    /// Moves the cursor to the next node, from the last node to the first
    pub fn next(&mut self)
        requires
            old(self).wf(),
        ensures
            final(self).wf(),
            final(self).contents() == old(self).contents(),
            final(self).position() == (old(self).position() + 1) % (old(self).contents().len()
                as int),
    {
        proof {
            crate::ring_buffer::lemma_mod_below_double(
                self.cursor as int + 1,
                self.nodes@.len() as int,
            );
        }
        if self.cursor == self.nodes.len() - 1 {
            self.cursor = 0;
        } else {
            self.cursor += 1;
        }
    }
}

} // verus!
