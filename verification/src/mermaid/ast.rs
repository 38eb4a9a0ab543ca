//! Graph representation for the supported Mermaid subset: the parser
//! produces a [`Diagram`], the terminal renderer turns it into character
//! cells.
use vstd::prelude::*;
use crate::util::text::{trim, ascii_upper, to_ascii_upper, trim_str, str_eq};

verus! {

/// Flow direction of a flowchart.
#[derive(Debug, Clone, Copy, PartialEq, Eq, Hash, Structural)]
pub enum Orientation {
    /// Left to right (`graph LR`).
    Lr,
    /// Right to left (`graph RL`).
    Rl,
    /// Top down (`graph TD` / `graph TB`), Mermaid's default.
    Td,
    /// Bottom up (`graph BT`).
    Bt,
}

impl Default for Orientation {
    fn default() -> (o: Self)
        ensures
            o == Orientation::Td,
    {
        Orientation::Td
    }
}

/// The orientation an orientation token names (trimmed, any case).
pub open spec fn orientation_of(token: Seq<char>) -> Option<Orientation> {
    let u = ascii_upper(trim(token));
    if u == "LR"@ {
        Some(Orientation::Lr)
    } else if u == "RL"@ {
        Some(Orientation::Rl)
    } else if u == "TD"@ || u == "TB"@ {
        Some(Orientation::Td)
    } else if u == "BT"@ {
        Some(Orientation::Bt)
    } else {
        None
    }
}

impl Orientation {
    /// Parses an orientation token such as `LR`, `rl`, `TD`, `TB` or `BT`;
    /// `None` for anything else.
    pub fn parse(token: &str) -> (out: Option<Self>)
        ensures
            out == orientation_of(token@),
    {
        let t = trim_str(token);
        let u = to_ascii_upper(t.as_str());
        let u = u.as_str();
        if str_eq(u, "LR") {
            Some(Orientation::Lr)
        } else if str_eq(u, "RL") {
            Some(Orientation::Rl)
        } else if str_eq(u, "TD") || str_eq(u, "TB") {
            Some(Orientation::Td)
        } else if str_eq(u, "BT") {
            Some(Orientation::Bt)
        } else {
            None
        }
    }

    /// `true` when layers are laid out along the x axis (`LR`, `RL`).
    pub fn is_horizontal(self) -> (b: bool)
        ensures
            b == (self == Orientation::Lr || self == Orientation::Rl),
    {
        matches!(self, Orientation::Lr | Orientation::Rl)
    }

    /// `true` when the first layer is placed last (`RL`, `BT`).
    pub fn is_reversed(self) -> (b: bool)
        ensures
            b == (self == Orientation::Rl || self == Orientation::Bt),
    {
        matches!(self, Orientation::Rl | Orientation::Bt)
    }

    /// Canonical Mermaid spelling.
    pub fn as_str(self) -> (s: &'static str)
        ensures
            s@ == match self {
                Orientation::Lr => "LR"@,
                Orientation::Rl => "RL"@,
                Orientation::Td => "TD"@,
                Orientation::Bt => "BT"@,
            },
    {
        match self {
            Orientation::Lr => "LR",
            Orientation::Rl => "RL",
            Orientation::Td => "TD",
            Orientation::Bt => "BT",
        }
    }
}

/// Node outline; shapes that are not drawn natively degrade to `Rect`.
#[derive(Debug, Clone, Copy, PartialEq, Eq, Hash, Structural)]
pub enum NodeShape {
    /// `A[label]`.
    Rect,
    /// `A(label)`.
    Round,
    /// `A([label])`.
    Stadium,
    /// `A{label}`.
    Diamond,
    /// `A((label))`.
    Circle,
    /// `A{{label}}`.
    Hexagon,
    /// `A[[label]]`.
    Subroutine,
    /// `A[(label)]`.
    Cylinder,
}

/// A flowchart node.
#[derive(Debug, Clone, PartialEq, Eq)]
pub struct DiagramNode {
    /// Mermaid identifier as written in the source.
    pub id: String,
    /// Display label (the identifier when none was given).
    pub label: String,
    /// Outline shape.
    pub shape: NodeShape,
}

/// Line style of an edge.
#[derive(Debug, Clone, Copy, PartialEq, Eq, Hash, Structural)]
pub enum EdgeStyle {
    /// `-->`, `---`.
    Solid,
    /// `-.->`, `-.-`.
    Dotted,
    /// `==>`, `===`.
    Thick,
    /// `~~~` (drawn as empty space).
    Invisible,
}

/// Arrow decoration of an edge.
#[derive(Debug, Clone, Copy, PartialEq, Eq, Hash, Structural)]
pub enum ArrowKind {
    /// One arrow head at the target end (`-->`).
    Arrow,
    /// No arrow head (`---`).
    NoArrow,
    /// Arrow heads at both ends (`<-->`).
    DoubleArrow,
}

/// A directed edge between two nodes.
#[derive(Debug, Clone, PartialEq, Eq)]
pub struct DiagramEdge {
    /// Index into [`Diagram::nodes`] of the source node.
    pub from: usize,
    /// Index into [`Diagram::nodes`] of the target node.
    pub to: usize,
    /// Optional edge label.
    pub label: Option<String>,
    /// Line style.
    pub style: EdgeStyle,
    /// Arrow decoration.
    pub arrow: ArrowKind,
}

/// A `subgraph ... end` group: its nodes are laid out, its box is not drawn.
#[derive(Debug, Clone, PartialEq, Eq)]
pub struct Subgraph {
    /// Title as written, empty when unnamed.
    pub title: String,
    /// Identifiers of the nodes declared inside the subgraph, in source order.
    pub node_ids: Vec<String>,
}

/// A parsed flowchart.
#[derive(Debug, Clone, PartialEq, Eq)]
pub struct Diagram {
    /// Flow direction from the header line.
    pub orientation: Orientation,
    /// Nodes in first-mention order; edge endpoints index into this vector.
    pub nodes: Vec<DiagramNode>,
    /// Edges in source order.
    pub edges: Vec<DiagramEdge>,
    /// Subgraph groups in source order.
    pub subgraphs: Vec<Subgraph>,
    /// Whether the source used constructs the native renderer cannot show
    /// faithfully (subgraph boxes); the renderer then appends a note.
    pub has_unsupported_features: bool,
    /// Human-readable notes matching `has_unsupported_features`.
    pub unsupported_notes: Vec<String>,
}

/// Every edge joins two nodes of the diagram, and node identifiers are
/// distinct.
pub open spec fn diagram_wf(d: Diagram) -> bool {
    &&& forall|e: int| 0 <= e < d.edges@.len() ==> (#[trigger] d.edges@[e]).from < d.nodes@.len()
        && d.edges@[e].to < d.nodes@.len()
    &&& forall|a: int, b: int|
        0 <= a < b < d.nodes@.len() ==> (#[trigger] d.nodes@[a]).id@ != (#[trigger] d.nodes@[b]).id@
}

impl Default for Diagram {
    fn default() -> (d: Self)
        ensures
            d.orientation == Orientation::Td,
            d.nodes@.len() == 0 && d.edges@.len() == 0 && d.subgraphs@.len() == 0,
            !d.has_unsupported_features,
            d.unsupported_notes@.len() == 0,
    {
        Diagram {
            orientation: Orientation::Td,
            nodes: Vec::new(),
            edges: Vec::new(),
            subgraphs: Vec::new(),
            has_unsupported_features: false,
            unsupported_notes: Vec::new(),
        }
    }
}

impl Diagram {
    /// Looks up a node index by identifier: the first node with that id.
    pub fn node_index(&self, id: &str) -> (out: Option<usize>)
        ensures
            match out {
                Some(i) => i < self.nodes@.len() && self.nodes@[i as int].id@ == id@ && forall|j: int|
                    0 <= j < i ==> (#[trigger] self.nodes@[j]).id@ != id@,
                None => forall|j: int| 0 <= j < self.nodes@.len() ==> (#[trigger] self.nodes@[j]).id@ != id@,
            },
    {
        let mut i: usize = 0;
        while i < self.nodes.len()
            invariant
                i <= self.nodes@.len(),
                forall|j: int| 0 <= j < i ==> (#[trigger] self.nodes@[j]).id@ != id@,
            decreases self.nodes@.len() - i,
        {
            if str_eq(self.nodes[i].id.as_str(), id) {
                return Some(i);
            }
            i += 1;
        }
        None
    }

    /// Records a construct that is parsed but not rendered faithfully: the
    /// note is added once, and the flag is set.
    pub fn note_unsupported(&mut self, note: &str)
        ensures
            final(self).has_unsupported_features,
            final(self).orientation == old(self).orientation,
            final(self).nodes == old(self).nodes,
            final(self).edges == old(self).edges,
            final(self).subgraphs == old(self).subgraphs,
            (exists|j: int| 0 <= j < old(self).unsupported_notes@.len() && (#[trigger] old(self).unsupported_notes@[j])@ == note@)
                ==> final(self).unsupported_notes@ == old(self).unsupported_notes@,
            !(exists|j: int| 0 <= j < old(self).unsupported_notes@.len() && (#[trigger] old(self).unsupported_notes@[j])@ == note@)
                ==> final(self).unsupported_notes@.map_values(|s: String| s@) == old(self).unsupported_notes@.map_values(|s: String| s@).push(note@),
    {
        let mut found = false;
        let mut i: usize = 0;
        while i < self.unsupported_notes.len()
            invariant
                i <= self.unsupported_notes@.len(),
                found <==> exists|j: int| 0 <= j < i && (#[trigger] self.unsupported_notes@[j])@ == note@,
            decreases self.unsupported_notes@.len() - i,
        {
            if str_eq(self.unsupported_notes[i].as_str(), note) {
                found = true;
            }
            i += 1;
        }
        if !found {
            let ghost before = self.unsupported_notes@.map_values(|s: String| s@);
            self.unsupported_notes.push(crate::util::text::to_owned(note));
            assert(self.unsupported_notes@.map_values(|s: String| s@) =~= before.push(note@));
        }
        self.has_unsupported_features = true;
    }
}

} // verus!
