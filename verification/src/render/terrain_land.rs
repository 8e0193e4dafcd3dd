//! The land layer of one region as a list of vertices.
//!
//! Every cell of a patch's height grid becomes two triangles, six vertices.
//! The vertices of all patches of a region share one buffer that is
//! allocated once; patches are written into it in the order in which they
//! become available. A vertex holds grid coordinates and the bit pattern of
//! its height: turning them into floats is the renderer's part.

use vstd::arithmetic::div_mod::lemma_fundamental_div_mod_converse;
use vstd::prelude::*;
use crate::data::ids::RegionId;
use crate::data::region::RegionDimensions;
use crate::data::terrain::{PatchModel, PatchPosition, StorageError, TerrainPatch};

verus! {

/// A corner of a triangle.
#[derive(Clone, Copy, Debug, PartialEq, Eq, Structural)]
pub struct Vertex {
    /// Row in the region's grid of height samples.
    pub x: usize,
    /// Column in the region's grid of height samples.
    pub y: usize,
    /// The height there, as the bit pattern of a 32-bit float.
    pub height: u32,
}

/// The vertex that fills the buffer before anything is written.
pub open spec fn blank() -> Vertex {
    Vertex { x: 0, y: 0, height: 0 }
}

/// The number of vertices of a patch with `size` samples per side.
pub open spec fn vertices_per_patch(size: nat) -> nat {
    if size == 0 {
        0
    } else {
        6 * ((size - 1) * (size - 1)) as nat
    }
}

/// The number of vertices of all patches of a region.
pub open spec fn vertices_per_region(dims: RegionDimensions) -> nat {
    (dims.patches_per_side * dims.patches_per_side) as nat * vertices_per_patch(
        dims.patch_size_axis as nat,
    )
}

/// Row and column offset of the `c`-th vertex of a cell: the triangle
/// (0,0) (1,0) (0,1), then the triangle (1,1) (0,1) (1,0).
pub open spec fn corner(c: int) -> (int, int) {
    if c == 0 {
        (0, 0)
    } else if c == 1 {
        (1, 0)
    } else if c == 2 {
        (0, 1)
    } else if c == 3 {
        (1, 1)
    } else if c == 4 {
        (0, 1)
    } else {
        (1, 0)
    }
}

/// The `k`-th vertex of a patch. Cells are taken row by row.
pub open spec fn patch_vertex(m: PatchModel, k: int) -> Vertex {
    let width = m.size - 1;
    let cell = k / 6;
    let x = cell / width + corner(k % 6).0;
    let y = cell % width + corner(k % 6).1;
    Vertex {
        x: (x + m.position.x * m.size) as usize,
        y: (y + m.position.y * m.size) as usize,
        height: m.height_at(x as nat, y as nat),
    }
}

/// The patch positions of a region with `side` patches per side, row by
/// row.
pub open spec fn all_positions(side: nat) -> Seq<PatchPosition> {
    Seq::new(side * side, |i: int| PatchPosition { x: (i / side as int) as u8, y: (i % side as int) as u8 })
}

/// The mathematical content of a [`RenderState`].
pub struct RenderModel {
    /// The region that is rendered.
    pub region_id: RegionId,
    /// The vertex buffer.
    pub vertices: Seq<Vertex>,
    /// How much of the buffer is written.
    pub offset: nat,
    /// The patches whose vertices are not in the buffer yet.
    pub pending: Seq<PatchPosition>,
}

/// What an update has done after some of the pending patches were handled.
pub struct UpdateTrace {
    pub vertices: Seq<Vertex>,
    pub offset: nat,
    /// The handled positions that stay pending.
    pub kept: Seq<PatchPosition>,
    /// Whether vertices were added.
    pub added: bool,
    /// The last failure of the disk tier.
    pub error: Option<StorageError>,
}

impl RenderModel {
    /// Validity: the written part lies in the buffer.
    pub open spec fn wf(self) -> bool {
        self.offset <= self.vertices.len()
    }

    /// Whether the vertices of `patch` still fit into the buffer.
    pub open spec fn fits(vertices: Seq<Vertex>, offset: nat, patch: PatchModel) -> bool {
        patch.size >= 1 && offset + vertices_per_patch(patch.size) <= vertices.len()
    }

    /// The buffer with the vertices of `patch` written at `offset`.
    pub open spec fn written(vertices: Seq<Vertex>, offset: nat, patch: PatchModel) -> Seq<
        Vertex,
    > {
        Seq::new(
            vertices.len(),
            |i: int|
                if offset <= i < offset + vertices_per_patch(patch.size) {
                    patch_vertex(patch, i - offset)
                } else {
                    vertices[i]
                },
        )
    }

    /// The state of an update after the first `n` pending positions were
    /// handled, `fetched[i]` being what the storage gave for the `i`-th of
    /// them. A patch that was found and fits is written into the buffer and
    /// is no longer pending. A patch that was not found, could not be read,
    /// or does not fit stays pending.
    pub open spec fn trace(
        self,
        fetched: Seq<Result<PatchModel, StorageError>>,
        n: nat,
    ) -> UpdateTrace
        decreases n,
    {
        if n == 0 {
            UpdateTrace {
                vertices: self.vertices,
                offset: self.offset,
                kept: Seq::empty(),
                added: false,
                error: None,
            }
        } else {
            let before = self.trace(fetched, (n - 1) as nat);
            let position = self.pending[n - 1];
            match fetched[n - 1] {
                Ok(patch) => if Self::fits(before.vertices, before.offset, patch) {
                    UpdateTrace {
                        vertices: Self::written(before.vertices, before.offset, patch),
                        offset: before.offset + vertices_per_patch(patch.size),
                        added: true,
                        ..before
                    }
                } else {
                    UpdateTrace { kept: before.kept.push(position), ..before }
                },
                Err(StorageError::NotFound) => UpdateTrace {
                    kept: before.kept.push(position),
                    ..before
                },
                Err(e) => UpdateTrace {
                    kept: before.kept.push(position),
                    error: Some(e),
                    ..before
                },
            }
        }
    }

    /// How many pending positions an update handles: as many as results were
    /// fetched for.
    pub open spec fn handled(self, fetched: Seq<Result<PatchModel, StorageError>>) -> nat {
        if fetched.len() <= self.pending.len() {
            fetched.len()
        } else {
            self.pending.len()
        }
    }

    /// The state after an update.
    pub open spec fn updated(self, fetched: Seq<Result<PatchModel, StorageError>>) -> RenderModel {
        let n = self.handled(fetched);
        let end = self.trace(fetched, n);
        RenderModel {
            region_id: self.region_id,
            vertices: end.vertices,
            offset: end.offset,
            pending: end.kept + self.pending.skip(n as int),
        }
    }

    /// What an update returns: the last failure of the disk tier if there
    /// was one, and otherwise whether vertices were added.
    pub open spec fn update_result(
        self,
        fetched: Seq<Result<PatchModel, StorageError>>,
    ) -> Result<bool, StorageError> {
        let end = self.trace(fetched, self.handled(fetched));
        match end.error {
            Some(e) => Err(e),
            None => Ok(end.added),
        }
    }
}

/// The results of lookups, in terms of the model.
pub open spec fn fetched_model(fetched: Seq<Result<TerrainPatch, StorageError>>) -> Seq<
    Result<PatchModel, StorageError>,
> {
    fetched.map_values(
        |r: Result<TerrainPatch, StorageError>|
            match r {
                Ok(patch) => Ok(patch@),
                Err(e) => Err(e),
            },
    )
}

/// Render state for land layer terrain data of one region.
pub struct RenderState {
    region_id: RegionId,
    vertices: Vec<Vertex>,
    /// Current write offset.
    vertices_offset: usize,
    /// Patches which yet have to be added to the vertices vector.
    patches_pending: Vec<PatchPosition>,
}

impl View for RenderState {
    type V = RenderModel;

    closed spec fn view(&self) -> RenderModel {
        RenderModel {
            region_id: self.region_id,
            vertices: self.vertices@,
            offset: self.vertices_offset as nat,
            pending: self.patches_pending@,
        }
    }
}

/// The place of a vertex in its patch determines its cell and its corner.
proof fn lemma_vertex_place(width: int, x1: int, y1: int, c: int)
    requires
        0 <= x1,
        0 <= y1 < width,
        0 <= c < 6,
    ensures
        (6 * (x1 * width + y1) + c) / 6 == x1 * width + y1,
        (6 * (x1 * width + y1) + c) % 6 == c,
        (x1 * width + y1) / width == x1,
        (x1 * width + y1) % width == y1,
{
    let cell = x1 * width + y1;
    lemma_fundamental_div_mod_converse(6 * cell + c, 6, cell, c);
    lemma_fundamental_div_mod_converse(cell, width, x1, y1);
}

/// A square that fits the address space has a side whose 256-fold fits too.
proof fn lemma_side_bound(size: int)
    requires
        0 <= size,
        size * size <= usize::MAX,
    ensures
        256 * size <= usize::MAX,
{
    if size >= 256 {
        assert(256 * size <= size * size) by (nonlinear_arith)
            requires
                size >= 256,
        ;
    }
}

impl RenderState {
    /// Validity of the render state.
    pub open spec fn wf(&self) -> bool {
        self@.wf()
    }

    /// Whether a render state can be made for a region of these dimensions:
    /// its patches have at least one sample per side, and the vertices of
    /// all of them fit the address space.
    pub fn can_hold(reg_dims: &RegionDimensions) -> (ok: bool)
        ensures
            ok == (reg_dims.patch_size_axis >= 1 && vertices_per_region(*reg_dims) <= usize::MAX),
    {
        if reg_dims.patch_size_axis < 1 {
            return false;
        }
        let pps: usize = reg_dims.patches_per_side as usize;
        let width: usize = (reg_dims.patch_size_axis - 1) as usize;
        assert(width * width <= 254 * 254) by (nonlinear_arith)
            requires
                0 <= width <= 254,
        ;
        assert(pps * pps <= 255 * 255) by (nonlinear_arith)
            requires
                0 <= pps <= 255,
        ;
        let per_patch: usize = 6 * (width * width);
        let patches: usize = pps * pps;
        patches.checked_mul(per_patch).is_some()
    }

    /// The render state of a region of which nothing is rendered yet: all of
    /// its patches are pending, and the buffer has room for the vertices of
    /// all of them.
    ///
    /// A patch has at least one sample per side, and the buffer must fit the
    /// address space.
    pub fn new(region_id: RegionId, reg_dims: &RegionDimensions) -> (state: Self)
        requires
            reg_dims.patch_size_axis >= 1,
            vertices_per_region(*reg_dims) <= usize::MAX,
        ensures
            state.wf(),
            state@.region_id == region_id,
            state@.offset == 0,
            state@.pending == all_positions(reg_dims.patches_per_side as nat),
            state@.vertices == Seq::new(vertices_per_region(*reg_dims), |i: int| blank()),
    {
        let pps: usize = reg_dims.patches_per_side as usize;
        let ghost side = pps as int;
        let mut patches_pending: Vec<PatchPosition> = Vec::new();
        let mut patch_x: u8 = 0;
        while patch_x < reg_dims.patches_per_side
            invariant
                side == reg_dims.patches_per_side,
                patch_x <= reg_dims.patches_per_side,
                patches_pending@.len() == patch_x * side,
                forall|i: int|
                    0 <= i < patches_pending@.len() ==> patches_pending@[i] == all_positions(
                        side as nat,
                    )[i],
            decreases reg_dims.patches_per_side - patch_x,
        {
            let mut patch_y: u8 = 0;
            while patch_y < reg_dims.patches_per_side
                invariant
                    side == reg_dims.patches_per_side,
                    patch_x < reg_dims.patches_per_side,
                    patch_y <= reg_dims.patches_per_side,
                    patches_pending@.len() == patch_x * side + patch_y,
                    forall|i: int|
                        0 <= i < patches_pending@.len() ==> patches_pending@[i] == all_positions(
                            side as nat,
                        )[i],
                decreases reg_dims.patches_per_side - patch_y,
            {
                proof {
                    let i = patch_x * side + patch_y;
                    lemma_fundamental_div_mod_converse(i, side, patch_x as int, patch_y as int);
                    assert(i < side * side) by (nonlinear_arith)
                        requires
                            i == patch_x * side + patch_y,
                            0 <= patch_x < side,
                            0 <= patch_y < side,
                    ;
                }
                patches_pending.push(PatchPosition { x: patch_x, y: patch_y });
                patch_y += 1;
            }
            assert((patch_x + 1) * side == patch_x * side + side) by (nonlinear_arith);
            patch_x += 1;
        }
        assert(patches_pending@ =~= all_positions(side as nat));

        let width: usize = (reg_dims.patch_size_axis - 1) as usize;
        let ghost per_patch = vertices_per_patch(reg_dims.patch_size_axis as nat) as int;
        let ghost total = side * side * per_patch;
        proof {
            assert(per_patch == 6 * (width * width));
            assert(width * width <= 254 * 254) by (nonlinear_arith)
                requires
                    0 <= width <= 254,
            ;
            assert(side * side <= 255 * 255) by (nonlinear_arith)
                requires
                    0 <= side <= 255,
            ;
        }
        let v_per_patch: usize = 6 * (width * width);
        let patches: usize = pps * pps;
        let v_tot: usize = patches * v_per_patch;
        let mut vertices: Vec<Vertex> = Vec::new();
        let mut i: usize = 0;
        while i < v_tot
            invariant
                i <= v_tot,
                vertices@.len() == i,
                forall|j: int| 0 <= j < i ==> vertices@[j] == blank(),
            decreases v_tot - i,
        {
            vertices.push(Vertex { x: 0, y: 0, height: 0 });
            i += 1;
        }
        assert(vertices@ =~= Seq::new(total as nat, |i: int| blank()));
        RenderState { region_id, vertices, vertices_offset: 0, patches_pending }
    }

    /// The vertex buffer. Its written part comes first.
    pub fn vertices(&self) -> (vertices: &Vec<Vertex>)
        ensures
            vertices@ == self@.vertices,
    {
        &self.vertices
    }

    /// How many vertices of the buffer are written.
    pub fn vertices_offset(&self) -> (offset: usize)
        ensures
            offset == self@.offset,
    {
        self.vertices_offset
    }

    /// The patches that are not rendered yet, in the order in which an
    /// update expects their lookups.
    pub fn patches_pending(&self) -> (pending: &Vec<PatchPosition>)
        ensures
            pending@ == self@.pending,
    {
        &self.patches_pending
    }

    /// The region that is rendered.
    pub fn region_id(&self) -> (region_id: RegionId)
        ensures
            region_id == self@.region_id,
    {
        self.region_id
    }

    /// Whether the vertices of `patch` still fit into the buffer.
    fn has_room(&self, patch: &TerrainPatch) -> (fits: bool)
        requires
            self.wf(),
        ensures
            fits == RenderModel::fits(self@.vertices, self@.offset, patch@),
    {
        let size = *patch.size();
        if size < 1 {
            return false;
        }
        let width = size - 1;
        let free = self.vertices.len() - self.vertices_offset;
        match width.checked_mul(width) {
            Some(cells) => match cells.checked_mul(6) {
                Some(needed) => needed <= free,
                None => false,
            },
            None => {
                assert(6 * (width * width) > usize::MAX) by (nonlinear_arith)
                    requires
                        width * width > usize::MAX,
                ;
                false
            },
        }
    }

    /// For each grid cell two triangles, i.e. 6 vertices, are written.
    fn add_vertices(&mut self, patch: &TerrainPatch)
        requires
            old(self).wf(),
            RenderModel::fits(old(self)@.vertices, old(self)@.offset, patch@),
        ensures
            final(self).wf(),
            final(self)@ == (RenderModel {
                vertices: RenderModel::written(old(self)@.vertices, old(self)@.offset, patch@),
                offset: old(self)@.offset + vertices_per_patch(patch@.size),
                ..old(self)@
            }),
    {
        let size: usize = *patch.size();
        let position = *patch.position();
        let ghost m = patch@;
        let ghost start = self.vertices_offset as int;
        let ghost initial = self.vertices@;
        let width: usize = size - 1;
        let cells = patch.land_heightmap().len();
        proof {
            assert(size * size == cells);
            lemma_side_bound(size as int);
        }
        assert(position.x * size <= 255 * size) by (nonlinear_arith)
            requires
                0 <= position.x <= 255,
                0 <= size,
        ;
        assert(position.y * size <= 255 * size) by (nonlinear_arith)
            requires
                0 <= position.y <= 255,
                0 <= size,
        ;
        let offset_x: usize = position.x as usize * size;
        let offset_y: usize = position.y as usize * size;
        let mut x1: usize = 0;
        while x1 < width
            invariant
                m == patch@,
                size == m.size,
                size >= 1,
                width == size - 1,
                position == m.position,
                offset_x == position.x * size,
                offset_y == position.y * size,
                offset_x <= 255 * size,
                offset_y <= 255 * size,
                256 * size <= usize::MAX,
                x1 <= width,
                start + 6 * (width * width) <= initial.len(),
                self.vertices@.len() == initial.len(),
                self.vertices_offset == start + 6 * (x1 * width),
                self.region_id == old(self).region_id,
                self.patches_pending == old(self).patches_pending,
                forall|i: int|
                    0 <= i < initial.len() ==> self.vertices@[i] == if start <= i
                        < self.vertices_offset {
                        patch_vertex(m, i - start)
                    } else {
                        initial[i]
                    },
            decreases width - x1,
        {
            let mut y1: usize = 0;
            while y1 < width
                invariant
                    m == patch@,
                    size == m.size,
                    size >= 1,
                    width == size - 1,
                    position == m.position,
                    offset_x == position.x * size,
                    offset_y == position.y * size,
                    offset_x <= 255 * size,
                    offset_y <= 255 * size,
                    256 * size <= usize::MAX,
                    x1 < width,
                    y1 <= width,
                    start + 6 * (width * width) <= initial.len(),
                    self.vertices@.len() == initial.len(),
                    self.vertices_offset == start + 6 * (x1 * width + y1),
                    self.region_id == old(self).region_id,
                    self.patches_pending == old(self).patches_pending,
                    forall|i: int|
                        0 <= i < initial.len() ==> self.vertices@[i] == if start <= i
                            < self.vertices_offset {
                            patch_vertex(m, i - start)
                        } else {
                            initial[i]
                        },
                decreases width - y1,
            {
                let x2 = x1 + 1;
                let y2 = y1 + 1;
                let ghost cell = x1 * width + y1;
                proof {
                    assert(cell + 1 <= width * width) by (nonlinear_arith)
                        requires
                            cell == x1 * width + y1,
                            0 <= x1 < width,
                            0 <= y1 < width,
                    ;
                    lemma_vertex_place(width as int, x1 as int, y1 as int, 0);
                    lemma_vertex_place(width as int, x1 as int, y1 as int, 1);
                    lemma_vertex_place(width as int, x1 as int, y1 as int, 2);
                    lemma_vertex_place(width as int, x1 as int, y1 as int, 3);
                    lemma_vertex_place(width as int, x1 as int, y1 as int, 4);
                    lemma_vertex_place(width as int, x1 as int, y1 as int, 5);
                }
                let a = Vertex { x: x1 + offset_x, y: y1 + offset_y, height: patch.sample(x1, y1) };
                let b = Vertex { x: x2 + offset_x, y: y1 + offset_y, height: patch.sample(x2, y1) };
                let c = Vertex { x: x1 + offset_x, y: y2 + offset_y, height: patch.sample(x1, y2) };
                let d = Vertex { x: x2 + offset_x, y: y2 + offset_y, height: patch.sample(x2, y2) };
                let at = self.vertices_offset;
                let room = self.vertices.len();
                assert(at == start + 6 * cell);
                assert(at + 6 <= room);
                assert(a == patch_vertex(m, 6 * cell + 0));
                assert(b == patch_vertex(m, 6 * cell + 1));
                assert(c == patch_vertex(m, 6 * cell + 2));
                assert(d == patch_vertex(m, 6 * cell + 3));
                assert(c == patch_vertex(m, 6 * cell + 4));
                assert(b == patch_vertex(m, 6 * cell + 5));
                self.vertices.set(at, a);
                self.vertices.set(at + 1, b);
                self.vertices.set(at + 2, c);
                self.vertices.set(at + 3, d);
                self.vertices.set(at + 4, c);
                self.vertices.set(at + 5, b);
                self.vertices_offset = at + 6;
                y1 += 1;
            }
            assert((x1 + 1) * width == x1 * width + width) by (nonlinear_arith);
            x1 += 1;
        }
        proof {
            assert(self.vertices@ =~= RenderModel::written(initial, start as nat, m));
        }
    }

    /// Tries to update the vertices with newly available terrain patches.
    ///
    /// `fetched[i]` is what the terrain storage gave for the `i`-th pending
    /// patch. A patch that was found is written into the buffer and is no
    /// longer pending, unless the buffer has no room for it. Everything else
    /// stays pending, also the positions for which nothing was fetched.
    ///
    /// Returns the last failure of the disk tier if there was one.
    /// Otherwise, if and only if some new vertices are added `Ok(true)` is
    /// returned, else `Ok(false)`.
    pub fn update(&mut self, fetched: &Vec<Result<TerrainPatch, StorageError>>) -> (changed: Result<
        bool,
        StorageError,
    >)
        requires
            old(self).wf(),
        ensures
            final(self).wf(),
            final(self)@ == old(self)@.updated(fetched_model(fetched@)),
            changed == old(self)@.update_result(fetched_model(fetched@)),
    {
        let ghost before = self@;
        let ghost results = fetched_model(fetched@);
        let n = if fetched.len() <= self.patches_pending.len() {
            fetched.len()
        } else {
            self.patches_pending.len()
        };
        let mut kept: Vec<PatchPosition> = Vec::new();
        let mut added = false;
        let mut error: Option<StorageError> = None;
        let mut i: usize = 0;
        while i < n
            invariant
                i <= n,
                n == before.handled(results),
                results == fetched_model(fetched@),
                self.wf(),
                self.patches_pending@ == before.pending,
                self.region_id == before.region_id,
                before.trace(results, i as nat) == (UpdateTrace {
                    vertices: self.vertices@,
                    offset: self.vertices_offset as nat,
                    kept: kept@,
                    added,
                    error,
                }),
            decreases n - i,
        {
            let position = self.patches_pending[i];
            match &fetched[i] {
                Ok(patch) => {
                    if self.has_room(patch) {
                        self.add_vertices(patch);
                        added = true;
                    } else {
                        kept.push(position);
                    }
                },
                Err(StorageError::NotFound) => {
                    kept.push(position);
                },
                Err(e) => {
                    kept.push(position);
                    error = Some(*e);
                },
            }
            i += 1;
        }
        let mut j: usize = n;
        let ghost handled = kept@;
        assert(before.pending.skip(n as int).take(0) =~= Seq::<PatchPosition>::empty());
        while j < self.patches_pending.len()
            invariant
                n <= j <= before.pending.len(),
                self.patches_pending@ == before.pending,
                kept@ == handled + before.pending.skip(n as int).take(j - n),
            decreases before.pending.len() - j,
        {
            kept.push(self.patches_pending[j]);
            j += 1;
            assert(kept@ =~= handled + before.pending.skip(n as int).take(j - n));
        }
        assert(before.pending.skip(n as int).take(j - n) =~= before.pending.skip(n as int));
        self.patches_pending = kept;
        match error {
            Some(e) => Err(e),
            None => Ok(added),
        }
    }
}

} // verus!
