//! Filling an outline with triangles. The filling itself is the work of a
//! fill engine outside this library. The library says which path events
//! draw an outline, and takes what the engine made of them: a fill.

use crate::mesh::vertex_at;
use crate::mesh::Mesh;
use crate::mesh::MeshView;
use crate::mesh::Vertex;
use crate::mesh::INDEX_LIMIT;
use crate::number::Number;
use crate::path::Point;
use vstd::prelude::*;

verus! {

/// One step of an outline.
#[derive(Clone, Copy, Debug, PartialEq, Eq, Structural)]
pub enum PathEvent {
    /// Start a new outline at the point.
    MoveTo(Point),
    /// Draw a straight edge to the point.
    LineTo(Point),
}

/// What a fill engine made of an outline: vertices in the plane and, three
/// to a triangle, indices into them.
#[derive(Debug)]
pub struct Fill {
    pub points: Vec<Point>,
    pub indices: Vec<u16>,
}

/// What a fill holds.
pub struct FillView {
    pub points: Seq<Point>,
    pub indices: Seq<u16>,
}

impl View for Fill {
    type V = FillView;

    open spec fn view(&self) -> FillView {
        FillView { points: self.points@, indices: self.indices@ }
    }
}

impl FillView {
    /// The fill can be laid out as a mesh: its indices come in threes, each
    /// points at one of its vertices, and the vertices stay within the index
    /// limit.
    pub open spec fn usable(self) -> bool {
        &&& self.indices.len() % 3 == 0
        &&& forall|k: int| 0 <= k < self.indices.len() ==> (#[trigger] self.indices[k]) < self.points.len()
        &&& self.points.len() <= INDEX_LIMIT
    }
}

/// The events that draw one outline: a move to its first point, then an edge
/// to each of the others.
pub open spec fn outline_events(points: Seq<Point>) -> Seq<PathEvent> {
    Seq::new(
        points.len(),
        |i: int|
            if i == 0 {
                PathEvent::MoveTo(points[i])
            } else {
                PathEvent::LineTo(points[i])
            },
    )
}

/// The events that draw the outlines one after the other. An outline of
/// fewer than two points has no edge and is left out.
pub open spec fn outlines_events(outlines: Seq<Seq<Point>>) -> Seq<PathEvent>
    decreases outlines.len(),
{
    if outlines.len() == 0 {
        Seq::empty()
    } else if outlines.last().len() < 2 {
        outlines_events(outlines.drop_last())
    } else {
        outlines_events(outlines.drop_last()) + outline_events(outlines.last())
    }
}

/// The mesh of a fill laid flat at elevation `z`: a vertex above each of its
/// points, and its indices.
pub open spec fn fill_mesh(fill: FillView, z: Number) -> MeshView {
    MeshView {
        vertices: Seq::new(fill.points.len(), |i: int| vertex_at(fill.points[i].x, fill.points[i].y, z)),
        indices: fill.indices,
    }
}

/// A usable fill laid flat is a mesh of whole triangles in which every index
/// points at a vertex, with a vertex for each point of the fill.
pub proof fn lemma_fill_mesh(fill: FillView, z: Number)
    ensures
        fill_mesh(fill, z).vertices.len() == fill.points.len(),
        fill_mesh(fill, z).indices == fill.indices,
        fill.usable() ==> fill_mesh(fill, z).index_safe() && fill_mesh(fill, z).triangulated(),
{
}

/// Appends the events of one outline.
pub fn push_outline(events: &mut Vec<PathEvent>, points: &Vec<Point>)
    ensures
        final(events)@ == old(events)@ + outline_events(points@),
{
    let mut i: usize = 0;
    while i < points.len()
        invariant
            i <= points.len(),
            events@ == old(events)@ + outline_events(points@).subrange(0, i as int),
        decreases points.len() - i,
    {
        if i == 0 {
            events.push(PathEvent::MoveTo(points[i]));
        } else {
            events.push(PathEvent::LineTo(points[i]));
        }
        i = i + 1;
        proof {
            assert(events@ =~= old(events)@ + outline_events(points@).subrange(0, i as int));
        }
    }
    proof {
        assert(outline_events(points@).subrange(0, points.len() as int) =~= outline_events(
            points@,
        ));
    }
}

/// The events that draw the outlines one after the other.
pub fn events_of_outlines(outlines: &Vec<Vec<Point>>) -> (events: Vec<PathEvent>)
    ensures
        events@ == outlines_events(outlines@.map_values(|outline: Vec<Point>| outline@)),
{
    let ghost views = outlines@.map_values(|outline: Vec<Point>| outline@);
    let mut events: Vec<PathEvent> = Vec::new();
    let mut i: usize = 0;
    proof {
        assert(views.subrange(0, 0) =~= Seq::<Seq<Point>>::empty());
    }
    while i < outlines.len()
        invariant
            i <= outlines.len(),
            views == outlines@.map_values(|outline: Vec<Point>| outline@),
            events@ == outlines_events(views.subrange(0, i as int)),
        decreases outlines.len() - i,
    {
        proof {
            assert(views.subrange(0, i + 1).drop_last() =~= views.subrange(0, i as int));
            assert(views.subrange(0, i + 1).last() == outlines[i as int]@);
        }
        if outlines[i].len() >= 2 {
            push_outline(&mut events, &outlines[i]);
        }
        i = i + 1;
    }
    proof {
        assert(views.subrange(0, outlines.len() as int) =~= views);
    }
    events
}

impl Fill {
    /// The fill of the given vertices and indices.
    pub fn new(points: Vec<Point>, indices: Vec<u16>) -> (fill: Fill)
        ensures
            fill.points == points,
            fill.indices == indices,
    {
        Fill { points, indices }
    }

    /// Whether the fill can be laid out as a mesh.
    pub fn is_usable(&self) -> (r: bool)
        ensures
            r == self@.usable(),
    {
        let count: usize = self.points.len();
        if self.indices.len() % 3 != 0 || count > INDEX_LIMIT {
            return false;
        }
        let mut k: usize = 0;
        while k < self.indices.len()
            invariant
                k <= self.indices.len(),
                count == self.points.len(),
                forall|j: int| 0 <= j < k ==> (#[trigger] self@.indices[j]) < count,
            decreases self.indices.len() - k,
        {
            if self.indices[k] as usize >= count {
                assert(!(self@.indices[k as int] < self@.points.len()));
                return false;
            }
            k = k + 1;
        }
        true
    }

    /// The fill laid flat at elevation `z`.
    pub fn lift(&self, z: Number) -> (mesh: Mesh)
        ensures
            mesh@ == fill_mesh(self@, z),
    {
        let mut vertices: Vec<Vertex> = Vec::new();
        let mut i: usize = 0;
        while i < self.points.len()
            invariant
                i <= self.points.len(),
                vertices.len() == i,
                forall|j: int|
                    0 <= j < i ==> (#[trigger] vertices[j]) == vertex_at(
                        self.points[j].x,
                        self.points[j].y,
                        z,
                    ),
            decreases self.points.len() - i,
        {
            vertices.push(Vertex { position: [self.points[i].x, self.points[i].y, z] });
            i = i + 1;
        }
        let mut indices: Vec<u16> = Vec::new();
        let mut k: usize = 0;
        while k < self.indices.len()
            invariant
                k <= self.indices.len(),
                indices@ == self.indices@.subrange(0, k as int),
            decreases self.indices.len() - k,
        {
            indices.push(self.indices[k]);
            k = k + 1;
            proof {
                assert(indices@ =~= self.indices@.subrange(0, k as int));
            }
        }
        proof {
            assert(vertices@ =~= fill_mesh(self@, z).vertices);
            assert(indices@ =~= self.indices@);
        }
        Mesh::new(vertices, indices)
    }
}

} // verus!
