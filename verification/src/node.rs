//! Control nodes and the order that a wave keeps them in.
use vstd::prelude::*;

verus! {

/// A control point of the waveform: a position in the cycle and the amplitude there.
#[derive(Clone, Copy, Debug, PartialEq, Eq, Structural)]
pub struct WaveNode {
    /// Phase of the node; the whole `u32` range is one cycle.
    pub wave_pos: u32,
    /// Amplitude at that phase.
    pub amplitude: i32,
}

/// What the synthesis core reports to its caller instead of failing.
#[derive(Clone, Copy, Debug, PartialEq, Eq, Structural)]
pub enum SynthError {
    /// A node already sits at the phase of the node that was to be inserted.
    DuplicatePhase,
    /// The output device could not be opened.
    DeviceUnavailable,
}

/// The phases grow strictly from each node to the next, so none occurs twice.
pub open spec fn strictly_increasing(nodes: Seq<WaveNode>) -> bool {
    forall|i: int, j: int| 0 <= i < j < nodes.len() ==> nodes[i].wave_pos < nodes[j].wave_pos
}

/// Some node sits at `phase`.
pub open spec fn has_phase(nodes: Seq<WaveNode>, phase: u32) -> bool {
    exists|i: int| 0 <= i < nodes.len() && #[trigger] nodes[i].wave_pos == phase
}

/// Every node before index `at` lies before `phase`, every node from `at` on after it.
pub open spec fn is_insertion_point(nodes: Seq<WaveNode>, phase: u32, at: int) -> bool {
    &&& 0 <= at <= nodes.len()
    &&& forall|i: int| 0 <= i < at ==> #[trigger] nodes[i].wave_pos < phase
    &&& forall|i: int| at <= i < nodes.len() ==> phase < #[trigger] nodes[i].wave_pos
}

/// The index at which a node at `phase` keeps the order.
pub open spec fn insertion_point(nodes: Seq<WaveNode>, phase: u32) -> int {
    choose|at: int| is_insertion_point(nodes, phase, at)
}

/// The node list after an attempt to insert `node`: unchanged where its phase is
/// taken, else with `node` at its insertion point.
pub open spec fn inserted(nodes: Seq<WaveNode>, node: WaveNode) -> Seq<WaveNode> {
    if has_phase(nodes, node.wave_pos) {
        nodes
    } else {
        nodes.insert(insertion_point(nodes, node.wave_pos), node)
    }
}

/// A phase has at most one insertion point, and none where a node sits at it.
pub proof fn lemma_insertion_point_unique(nodes: Seq<WaveNode>, phase: u32, a: int, b: int)
    requires
        is_insertion_point(nodes, phase, a),
        is_insertion_point(nodes, phase, b),
    ensures
        a == b,
        !has_phase(nodes, phase),
        insertion_point(nodes, phase) == a,
{
    if a < b {
        assert(nodes[a].wave_pos < phase);
        assert(phase < nodes[a].wave_pos);
    }
    if b < a {
        assert(nodes[b].wave_pos < phase);
        assert(phase < nodes[b].wave_pos);
    }
    if has_phase(nodes, phase) {
        let i = choose|i: int| 0 <= i < nodes.len() && #[trigger] nodes[i].wave_pos == phase;
        if i < a {
            assert(nodes[i].wave_pos < phase);
        } else {
            assert(phase < nodes[i].wave_pos);
        }
    }
    let c = insertion_point(nodes, phase);
    if c < a {
        assert(nodes[c].wave_pos < phase);
        assert(phase < nodes[c].wave_pos);
    }
    if a < c {
        assert(nodes[a].wave_pos < phase);
        assert(phase < nodes[a].wave_pos);
    }
}

/// In an ordered list every free phase has an insertion point.
pub proof fn lemma_insertion_point_exists(nodes: Seq<WaveNode>, phase: u32)
    requires
        strictly_increasing(nodes),
        !has_phase(nodes, phase),
    ensures
        is_insertion_point(nodes, phase, insertion_point(nodes, phase)),
    decreases nodes.len(),
{
    if nodes.len() == 0 {
        assert(is_insertion_point(nodes, phase, 0));
    } else {
        let last = nodes.len() - 1;
        assert(nodes[last].wave_pos != phase);
        if nodes[last].wave_pos < phase {
            assert forall|i: int| 0 <= i < nodes.len() implies #[trigger] nodes[i].wave_pos
                < phase by {
                if i < last {
                    assert(nodes[i].wave_pos < nodes[last].wave_pos);
                }
            }
            assert(is_insertion_point(nodes, phase, nodes.len() as int));
        } else {
            let front = nodes.drop_last();
            assert forall|i: int, j: int| 0 <= i < j < front.len() implies front[i].wave_pos
                < front[j].wave_pos by {
                assert(front[i] == nodes[i] && front[j] == nodes[j]);
            }
            if has_phase(front, phase) {
                let i = choose|i: int| 0 <= i < front.len() && #[trigger] front[i].wave_pos == phase;
                assert(nodes[i].wave_pos == phase);
            }
            lemma_insertion_point_exists(front, phase);
            let at = insertion_point(front, phase);
            assert forall|i: int| 0 <= i < at implies #[trigger] nodes[i].wave_pos < phase by {
                assert(front[i] == nodes[i]);
            }
            assert forall|i: int| at <= i < nodes.len() implies phase
                < #[trigger] nodes[i].wave_pos by {
                if i < last {
                    assert(front[i] == nodes[i]);
                }
            }
            assert(is_insertion_point(nodes, phase, at));
        }
    }
}

/// Inserting at the insertion point keeps the list ordered.
pub proof fn lemma_insert_keeps_order(nodes: Seq<WaveNode>, node: WaveNode, at: int)
    requires
        strictly_increasing(nodes),
        is_insertion_point(nodes, node.wave_pos, at),
    ensures
        strictly_increasing(nodes.insert(at, node)),
        nodes.insert(at, node) == inserted(nodes, node),
{
    let after = nodes.insert(at, node);
    assert forall|i: int, j: int| 0 <= i < j < after.len() implies after[i].wave_pos
        < after[j].wave_pos by {
        if j < at {
            assert(after[i] == nodes[i] && after[j] == nodes[j]);
        } else if j == at {
            assert(after[i] == nodes[i]);
        } else if i < at {
            assert(after[i] == nodes[i] && after[j] == nodes[j - 1]);
        } else if i == at {
            assert(after[j] == nodes[j - 1]);
        } else {
            assert(after[i] == nodes[i - 1] && after[j] == nodes[j - 1]);
        }
    }
    lemma_insertion_point_unique(nodes, node.wave_pos, at, at);
}

/// Looks for the node at `phase` by bisection. `Ok` carries the index of that
/// node, `Err` the insertion point of the phase.
pub fn search_phase(nodes: &Vec<WaveNode>, phase: u32) -> (found: Result<usize, usize>)
    requires
        strictly_increasing(nodes@),
    ensures
        match found {
            Ok(index) => index < nodes@.len() && nodes@[index as int].wave_pos == phase,
            Err(index) => is_insertion_point(nodes@, phase, index as int),
        },
        found is Ok <==> has_phase(nodes@, phase),
{
    let mut low: usize = 0;
    let mut high: usize = nodes.len();
    while low < high
        invariant
            low <= high <= nodes@.len(),
            strictly_increasing(nodes@),
            forall|i: int| 0 <= i < low ==> #[trigger] nodes@[i].wave_pos < phase,
            forall|i: int| high <= i < nodes@.len() ==> phase < #[trigger] nodes@[i].wave_pos,
        decreases high - low,
    {
        let mid: usize = low + (high - low) / 2;
        let probe: u32 = nodes[mid].wave_pos;
        if probe == phase {
            return Ok(mid);
        } else if probe < phase {
            assert forall|i: int| 0 <= i < mid + 1 implies #[trigger] nodes@[i].wave_pos
                < phase by {
                if i < mid {
                    assert(nodes@[i].wave_pos < nodes@[mid as int].wave_pos);
                }
            }
            low = mid + 1;
        } else {
            assert forall|i: int| mid <= i < nodes@.len() implies phase
                < #[trigger] nodes@[i].wave_pos by {
                if mid < i {
                    assert(nodes@[mid as int].wave_pos < nodes@[i].wave_pos);
                }
            }
            high = mid;
        }
    }
    proof {
        lemma_insertion_point_unique(nodes@, phase, low as int, low as int);
    }
    Err(low)
}

} // verus!
