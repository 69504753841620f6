//! The mesh container: a vertex buffer and an index buffer, three indices to
//! a triangle, and the joining of meshes with the indices moved along.

use crate::area::area_outlines;
use crate::area::outlines_of;
use crate::fill::events_of_outlines;
use crate::fill::fill_mesh;
use crate::fill::Fill;
use crate::fill::outlines_events;
use crate::fill::PathEvent;
use crate::number::Number;
use crate::number::ONE_BITS;
use crate::number::ZERO_BITS;
use crate::path::path_points;
use crate::path::points_of;
use crate::path::Point;
use crate::path::shift_orthogonally;
use crate::path::shifted_points;
use crate::path::valid_path;
use crate::sculpt::check_valid_path;
use crate::sculpt::lemma_surface_mesh_safe;
use crate::sculpt::line_vertices;
use crate::sculpt::SculptLine;
use crate::sculpt::Sculpture;
use crate::sculpt::sculpture_mesh;
use crate::sculpt::SpannedSurface;
use crate::sculpt::Surface;
use crate::strip::strip_spec;
use descartes::Area;
use descartes::LinePath;
use std::rc::Rc;
use vstd::prelude::*;

verus! {

/// One more than the largest index that a mesh can hold: an index has 16
/// bits.
pub const INDEX_LIMIT: usize = 0x1_0000;

/// A vertex: a position in space.
#[derive(Clone, Copy, Debug, PartialEq, Eq)]
pub struct Vertex {
    pub position: [Number; 3],
}

/// Where, which way and in which colour a mesh is drawn.
#[derive(Clone, Copy)]
pub struct Instance {
    pub instance_position: [Number; 3],
    pub instance_direction: [Number; 2],
    pub instance_color: [Number; 3],
}

impl Instance {
    /// An instance at the origin, looking along the first axis, in the given
    /// colour.
    pub fn with_color(color: [Number; 3]) -> (instance: Instance)
        ensures
            instance.instance_color == color,
            instance.instance_position@ == seq![
                Number { bits: ZERO_BITS },
                Number { bits: ZERO_BITS },
                Number { bits: ZERO_BITS },
            ],
            instance.instance_direction@ == seq![
                Number { bits: ONE_BITS },
                Number { bits: ZERO_BITS },
            ],
    {
        let zero = Number { bits: ZERO_BITS };
        let one = Number { bits: ONE_BITS };
        Instance {
            instance_position: [zero, zero, zero],
            instance_direction: [one, zero],
            instance_color: color,
        }
    }
}

/// The vertex at the given coordinates.
pub open spec fn vertex_at(x: Number, y: Number, z: Number) -> Vertex {
    Vertex { position: [x, y, z] }
}

/// What a mesh holds.
pub struct MeshView {
    pub vertices: Seq<Vertex>,
    pub indices: Seq<u16>,
}

/// A triangle mesh.
#[derive(Debug)]
pub struct Mesh {
    pub vertices: Vec<Vertex>,
    pub indices: Vec<u16>,
}

impl View for Mesh {
    type V = MeshView;

    open spec fn view(&self) -> MeshView {
        MeshView { vertices: self.vertices@, indices: self.indices@ }
    }
}

impl MeshView {
    /// The mesh without vertices.
    pub open spec fn empty() -> MeshView {
        MeshView { vertices: Seq::empty(), indices: Seq::empty() }
    }

    /// Every index points at a vertex of the mesh.
    pub open spec fn index_safe(self) -> bool {
        forall|k: int| 0 <= k < self.indices.len() ==> (#[trigger] self.indices[k]) < self.vertices.len()
    }

    /// The indices come in threes.
    pub open spec fn triangulated(self) -> bool {
        self.indices.len() % 3 == 0
    }

    /// Whether `other` can be joined on: each of its indices, moved along by
    /// the number of vertices of `self`, is still an index.
    pub open spec fn can_join(self, other: MeshView) -> bool {
        forall|k: int|
            0 <= k < other.indices.len() ==> (#[trigger] other.indices[k]) + self.vertices.len()
                < INDEX_LIMIT
    }

    /// `self` with `other` joined on: the vertices of both, the indices of
    /// `self`, and the indices of `other` moved along by the number of
    /// vertices of `self`.
    pub open spec fn join(self, other: MeshView) -> MeshView {
        MeshView {
            vertices: self.vertices + other.vertices,
            indices: self.indices + Seq::new(
                other.indices.len(),
                |k: int| (other.indices[k] + self.vertices.len()) as u16,
            ),
        }
    }
}

/// Whether the meshes can be joined one after the other.
pub open spec fn can_sum(meshes: Seq<MeshView>) -> bool
    decreases meshes.len(),
{
    meshes.len() > 0 ==> can_sum(meshes.drop_last()) && mesh_sum(meshes.drop_last()).can_join(
        meshes.last(),
    )
}

/// The meshes joined one after the other, starting from the empty mesh.
pub open spec fn mesh_sum(meshes: Seq<MeshView>) -> MeshView
    decreases meshes.len(),
{
    if meshes.len() == 0 {
        MeshView::empty()
    } else {
        mesh_sum(meshes.drop_last()).join(meshes.last())
    }
}

impl Mesh {
    /// The mesh of the given buffers.
    pub fn new(vertices: Vec<Vertex>, indices: Vec<u16>) -> (mesh: Mesh)
        ensures
            mesh.vertices == vertices,
            mesh.indices == indices,
    {
        Mesh { vertices, indices }
    }

    /// The mesh without vertices.
    pub fn empty() -> (mesh: Mesh)
        ensures
            mesh@ == MeshView::empty(),
    {
        Mesh { vertices: Vec::new(), indices: Vec::new() }
    }

    /// Whether every index points at a vertex of the mesh.
    pub fn is_index_safe(&self) -> (r: bool)
        ensures
            r == self@.index_safe(),
    {
        let count: usize = self.vertices.len();
        let mut k: usize = 0;
        while k < self.indices.len()
            invariant
                k <= self.indices.len(),
                count == self.vertices.len(),
                forall|j: int| 0 <= j < k ==> (#[trigger] self@.indices[j]) < count,
            decreases self.indices.len() - k,
        {
            if self.indices[k] as usize >= count {
                assert(!(self@.indices[k as int] < self@.vertices.len()));
                return false;
            }
            k = k + 1;
        }
        true
    }

    /// Joins `rhs` on to `self`.
    pub fn add_assign(&mut self, rhs: &Mesh)
        requires
            old(self)@.can_join(rhs@),
        ensures
            final(self)@ == old(self)@.join(rhs@),
            final(self)@.vertices.len() == old(self)@.vertices.len() + rhs@.vertices.len(),
            final(self)@.indices.len() == old(self)@.indices.len() + rhs@.indices.len(),
    {
        let offset: usize = self.vertices.len();
        let mut i: usize = 0;
        while i < rhs.vertices.len()
            invariant
                i <= rhs.vertices.len(),
                self.indices@ == old(self).indices@,
                self.vertices@ == old(self).vertices@ + rhs.vertices@.subrange(0, i as int),
            decreases rhs.vertices.len() - i,
        {
            self.vertices.push(rhs.vertices[i]);
            i = i + 1;
            proof {
                assert(self.vertices@ =~= old(self).vertices@ + rhs.vertices@.subrange(0, i as int));
            }
        }
        proof {
            assert(rhs.vertices@.subrange(0, rhs.vertices.len() as int) =~= rhs.vertices@);
        }
        let mut k: usize = 0;
        while k < rhs.indices.len()
            invariant
                k <= rhs.indices.len(),
                offset == old(self).vertices.len(),
                old(self)@.can_join(rhs@),
                self.vertices@ == old(self).vertices@ + rhs.vertices@,
                self.indices@ == old(self).indices@ + Seq::new(
                    k as nat,
                    |j: int| (rhs.indices[j] + offset) as u16,
                ),
            decreases rhs.indices.len() - k,
        {
            let index: u16 = rhs.indices[k];
            assert(rhs@.indices[k as int] + offset < INDEX_LIMIT);
            let moved: usize = index as usize + offset;
            self.indices.push(moved as u16);
            k = k + 1;
            proof {
                assert(self.indices@ =~= old(self).indices@ + Seq::new(
                    k as nat,
                    |j: int| (rhs.indices[j] + offset) as u16,
                ));
            }
        }
        proof {
            assert(self@.indices =~= old(self)@.join(rhs@).indices);
        }
    }

    /// `self` with `rhs` joined on.
    pub fn add(self, rhs: Mesh) -> (joined: Mesh)
        requires
            self@.can_join(rhs@),
        ensures
            joined@ == self@.join(rhs@),
    {
        let mut joined = self;
        joined.add_assign(&rhs);
        joined
    }

    /// The meshes joined one after the other.
    pub fn sum(meshes: &Vec<Mesh>) -> (total: Mesh)
        requires
            can_sum(meshes@.map_values(|mesh: Mesh| mesh@)),
        ensures
            total@ == mesh_sum(meshes@.map_values(|mesh: Mesh| mesh@)),
    {
        let ghost views = meshes@.map_values(|mesh: Mesh| mesh@);
        let mut total = Mesh::empty();
        let mut i: usize = 0;
        proof {
            assert(views.subrange(0, 0) =~= Seq::<MeshView>::empty());
            lemma_can_sum_prefix(views, 0);
        }
        while i < meshes.len()
            invariant
                i <= meshes.len(),
                views == meshes@.map_values(|mesh: Mesh| mesh@),
                can_sum(views),
                total@ == mesh_sum(views.subrange(0, i as int)),
            decreases meshes.len() - i,
        {
            proof {
                lemma_can_sum_prefix(views, i + 1);
                assert(views.subrange(0, i + 1).drop_last() =~= views.subrange(0, i as int));
                assert(views.subrange(0, i + 1).last() == meshes[i as int]@);
            }
            total.add_assign(&meshes[i]);
            i = i + 1;
        }
        proof {
            assert(views.subrange(0, meshes.len() as int) =~= views);
        }
        total
    }
}

impl Clone for Mesh {
    /// A mesh that holds the same vertices and indices.
    fn clone(&self) -> (copy: Mesh)
        ensures
            copy@ == self@,
    {
        let mut copy = Mesh::empty();
        proof {
            assert forall|k: int| 0 <= k < self@.indices.len() implies (#[trigger] self@.indices[k])
                + copy@.vertices.len() < INDEX_LIMIT by {}
        }
        copy.add_assign(self);
        proof {
            assert(copy@.vertices =~= self@.vertices);
            assert(copy@.indices =~= self@.indices);
        }
        copy
    }
}

/// Meshes that can be joined one after the other can be joined up to any
/// point.
pub proof fn lemma_can_sum_prefix(meshes: Seq<MeshView>, n: int)
    requires
        can_sum(meshes),
        0 <= n <= meshes.len(),
    ensures
        can_sum(meshes.subrange(0, n)),
    decreases meshes.len(),
{
    if n < meshes.len() {
        lemma_can_sum_prefix(meshes.drop_last(), n);
        assert(meshes.drop_last().subrange(0, n) =~= meshes.subrange(0, n));
    } else {
        assert(meshes.subrange(0, n) =~= meshes);
    }
}

/// Joining keeps every vertex: the joined mesh has as many as both together.
/// Where both meshes are index-safe and their vertices together stay within
/// the index limit, they can be joined and the result is index-safe; where
/// both hold whole triangles, so does the result.
pub proof fn lemma_join(a: MeshView, b: MeshView)
    ensures
        a.join(b).vertices.len() == a.vertices.len() + b.vertices.len(),
        a.join(b).indices.len() == a.indices.len() + b.indices.len(),
        a.triangulated() && b.triangulated() ==> a.join(b).triangulated(),
        a.index_safe() && b.index_safe() && a.vertices.len() + b.vertices.len() <= INDEX_LIMIT
            ==> a.can_join(b) && a.join(b).index_safe(),
{
    if a.index_safe() && b.index_safe() && a.vertices.len() + b.vertices.len() <= INDEX_LIMIT {
        assert(a.can_join(b));
        let joined = a.join(b);
        assert forall|k: int| 0 <= k < joined.indices.len() implies (#[trigger] joined.indices[k])
            < joined.vertices.len() by {
            if k < a.indices.len() {
                assert(joined.indices[k] == a.indices[k]);
            } else {
                let j = k - a.indices.len();
                assert(joined.indices[k] == (b.indices[j] + a.vertices.len()) as u16);
            }
        }
    }
}

/// The mesh of the band that reaches `width_left` to the left and
/// `width_right` to the right of a path, at elevation `z`: the strip between
/// the path shifted to either side; the empty mesh where a shift gives no
/// path.
pub open spec fn band_mesh(points: Seq<Point>, width_left: Number, width_right: Number, z: Number) -> MeshView {
    match shifted_points(points, width_left.negated()) {
        Some(left) => match shifted_points(points, width_right) {
            Some(right) => MeshView {
                vertices: line_vertices(left, z) + line_vertices(right, z),
                indices: strip_spec(
                    0,
                    left.len() as int,
                    left.len() as int,
                    right.len() as int,
                    false,
                ),
            },
            None => MeshView::empty(),
        },
        None => MeshView::empty(),
    }
}

impl Mesh {
    /// The events that draw the outlines of an area, one outline after the
    /// other: what a fill engine has to be given to fill the area.
    pub fn area_events(area: &Area) -> (events: Vec<PathEvent>)
        ensures
            events@ == outlines_events(area_outlines(*area)),
    {
        let outlines = outlines_of(area);
        proof {
            assert(outlines@.map_values(|outline: Vec<Point>| outline@) =~= area_outlines(*area));
        }
        events_of_outlines(&outlines)
    }

    /// The mesh of an area from the fill of its outlines: the fill laid
    /// flat at elevation zero.
    pub fn from_area_fill(fill: &Fill) -> (mesh: Mesh)
        ensures
            mesh@ == fill_mesh(fill@, Number { bits: ZERO_BITS }),
    {
        fill.lift(Number::zero())
    }

    /// The band of the given width around a path, at elevation `z`.
    pub fn from_path_as_band(path: &LinePath, width: Number, z: Number) -> (mesh: Mesh)
        requires
            valid_path(*path),
            2 * path_points(*path).len() <= INDEX_LIMIT,
        ensures
            mesh@ == band_mesh(path_points(*path), width.halved(), width.halved(), z),
    {
        Self::from_path_as_band_asymmetric(path, width.halved(), width.halved(), z)
    }

    /// The band of the given width around a path, at elevation `z`, if the
    /// path is valid and has no more points than half the index limit.
    pub fn try_from_path_as_band(path: &LinePath, width: Number, z: Number) -> (r: Option<Mesh>)
        ensures
            match r {
                Some(mesh) => {
                    &&& valid_path(*path)
                    &&& 2 * path_points(*path).len() <= INDEX_LIMIT
                    &&& mesh@ == band_mesh(path_points(*path), width.halved(), width.halved(), z)
                },
                None => !valid_path(*path) || 2 * path_points(*path).len() > INDEX_LIMIT,
            },
    {
        if check_valid_path(path) && points_of(path).len() <= INDEX_LIMIT / 2 {
            Some(Self::from_path_as_band(path, width, z))
        } else {
            None
        }
    }

    /// The band that reaches `width_left` to the left and `width_right` to
    /// the right of a path, at elevation `z`, if the path is valid and has
    /// no more points than half the index limit.
    pub fn try_from_path_as_band_asymmetric(
        path: &LinePath,
        width_left: Number,
        width_right: Number,
        z: Number,
    ) -> (r: Option<Mesh>)
        ensures
            match r {
                Some(mesh) => {
                    &&& valid_path(*path)
                    &&& 2 * path_points(*path).len() <= INDEX_LIMIT
                    &&& mesh@ == band_mesh(path_points(*path), width_left, width_right, z)
                },
                None => !valid_path(*path) || 2 * path_points(*path).len() > INDEX_LIMIT,
            },
    {
        if check_valid_path(path) && points_of(path).len() <= INDEX_LIMIT / 2 {
            Some(Self::from_path_as_band_asymmetric(path, width_left, width_right, z))
        } else {
            None
        }
    }

    /// The band that reaches `width_left` to the left and `width_right` to
    /// the right of a path, at elevation `z`; the empty mesh where the path
    /// cannot be shifted to either side.
    pub fn from_path_as_band_asymmetric(
        path: &LinePath,
        width_left: Number,
        width_right: Number,
        z: Number,
    ) -> (mesh: Mesh)
        requires
            valid_path(*path),
            2 * path_points(*path).len() <= INDEX_LIMIT,
        ensures
            mesh@ == band_mesh(path_points(*path), width_left, width_right, z),
    {
        let left_path = match shift_orthogonally(path, width_left.negated()) {
            Some(moved) => moved,
            None => {
                return Mesh::empty();
            },
        };
        let right_path = match shift_orthogonally(path, width_right) {
            Some(moved) => moved,
            None => {
                return Mesh::empty();
            },
        };
        let left_line = Rc::new(SculptLine::new(left_path, z));
        let right_line = Rc::new(SculptLine::new(right_path, z));
        let surface = SpannedSurface::new(left_line, right_line);
        let mut surfaces: Vec<Surface> = Vec::new();
        surfaces.push(Surface::Spanned(surface));
        let sculpture = Sculpture::new(surfaces);
        let fills: Vec<Option<Fill>> = Vec::new();
        proof {
            let only = sculpture@;
            assert(only.len() == 1);
            assert(only.drop_last() =~= Seq::<Surface>::empty());
            assert(sculpture_mesh(only.drop_last(), fills@) == MeshView::empty());
            let joined = MeshView::empty().join(surface.mesh());
            assert(sculpture_mesh(only, fills@) == joined);
            assert(joined.vertices =~= surface.mesh().vertices);
            lemma_surface_mesh_safe(only[0], None);
            assert(joined.indices =~= surface.mesh().indices);
        }
        sculpture.to_mesh(&fills)
    }
}

} // verus!
