use vstd::prelude::*;
use crate::material::{AlphaMode, Material};
use crate::gltf_model::{PrimitiveMode, PrimitiveShape};

verus! {

/// A mesh vertex: its shading attributes (positions, normals, ...), which
/// this library carries without reading, and the skin it is bound to
/// (-1 for none).
#[derive(Debug, Clone, Copy)]
pub struct Vertex<A> {
    pub attributes: A,
    pub skin_index: i32,
}

/// Per-geometry record the shaders read: where its vertices and indices
/// start, its material and its skin.
#[derive(Debug, Clone, Copy, PartialEq, Eq, Structural)]
pub struct PrimInfo {
    pub v_offset: u32,
    pub i_offset: u32,
    pub material_id: u32,
    pub skin_id: u32,
}

impl PrimInfo {
    /// From `[vertex offset, index offset, material id]`, unskinned.
    pub fn new(offsets: &[u32; 3]) -> (p: Self)
        ensures
            p.v_offset == offsets@[0],
            p.i_offset == offsets@[1],
            p.material_id == offsets@[2],
            p.skin_id == 0,
    {
        PrimInfo { v_offset: offsets[0], i_offset: offsets[1], material_id: offsets[2], skin_id: 0 }
    }
}

/// The shared vertex and index buffers of all geometries, with the table of
/// each geometry's offsets and lengths.
pub struct GeoBuilder<A> {
    pub vertices: Vec<Vertex<A>>,
    pub indices: Vec<u32>,
    pub geo_counter: u32,
    /// Vertex offset, index offset, material id per geometry.
    pub offsets: Vec<[u32; 3]>,
    /// Vertex count, index count per geometry.
    pub len: Vec<[usize; 2]>,
    pub normal_textures: Vec<bool>,
    pub opaque: Vec<bool>,
    pub material_id: Vec<usize>,
}

/// Geometry `g` is recorded and its ranges lie within the buffers.
pub open spec fn geometry_in_range<A>(b: &GeoBuilder<A>, g: int) -> bool {
    &&& 0 <= g < b.offsets@.len()
    &&& g < b.len@.len()
    &&& b.offsets@[g]@[0] + b.len@[g]@[0] <= b.vertices@.len()
    &&& b.offsets@[g]@[1] + b.len@[g]@[1] <= b.indices@.len()
}

/// The tables describe every geometry handed out, and each geometry's
/// vertex and index ranges lie within the buffers.
pub open spec fn ranges_recorded<A>(b: &GeoBuilder<A>) -> bool {
    &&& b.offsets@.len() == b.len@.len()
    &&& b.len@.len() == b.material_id@.len()
    &&& b.material_id@.len() == b.geo_counter
    &&& forall|g: int|
        0 <= g < b.offsets@.len() ==> b.offsets@[g]@[0] + (#[trigger] b.len@[g])@[0] <= b.vertices@.len()
            && b.offsets@[g]@[1] + b.len@[g]@[1] <= b.indices@.len()
}

/// Every vertex of geometry `g` is still unskinned.
pub open spec fn geometry_unskinned<A>(b: &GeoBuilder<A>, g: int) -> bool {
    forall|k: int|
        b.offsets@[g]@[0] <= k < b.offsets@[g]@[0] + b.len@[g]@[0] ==> (#[trigger] b.vertices@[k]).skin_index == -1
}

/// `v` is `src` with every vertex bound to skin `skin`.
pub open spec fn skinned_copy<A>(v: Seq<Vertex<A>>, src: Seq<Vertex<A>>, skin: i32) -> bool {
    &&& v.len() == src.len()
    &&& forall|k: int|
        0 <= k < v.len() ==> (#[trigger] v[k]).attributes == src[k].attributes && v[k].skin_index == skin
}

impl<A: Copy> GeoBuilder<A> {
    /// An empty builder that knows, per material, whether it has a normal
    /// texture and whether it is opaque.
    pub fn new(materials: &[Material]) -> (b: Self)
        ensures
            b.vertices@.len() == 0,
            b.indices@.len() == 0,
            b.geo_counter == 0,
            b.offsets@.len() == 0,
            b.len@.len() == 0,
            b.material_id@.len() == 0,
            b.normal_textures@.len() == materials@.len(),
            b.opaque@.len() == materials@.len(),
            forall|i: int| 0 <= i < materials@.len() ==> #[trigger] b.normal_textures@[i] == (
            materials@[i].normal_texture.texture_index != -1),
            forall|i: int| 0 <= i < materials@.len() ==> #[trigger] b.opaque@[i] == (materials@[i].alpha_mode
                == AlphaMode::Opaque),
    {
        let mut normal_textures: Vec<bool> = Vec::new();
        let mut opaque: Vec<bool> = Vec::new();
        let mut i: usize = 0;
        while i < materials.len()
            invariant
                i <= materials@.len(),
                normal_textures@.len() == i,
                opaque@.len() == i,
                forall|k: int| 0 <= k < i ==> #[trigger] normal_textures@[k] == (
                materials@[k].normal_texture.texture_index != -1),
                forall|k: int| 0 <= k < i ==> #[trigger] opaque@[k] == (materials@[k].alpha_mode
                    == AlphaMode::Opaque),
            decreases materials@.len() - i,
        {
            normal_textures.push(materials[i].has_normal_texture());
            opaque.push(materials[i].is_opaque());
            i += 1;
        }
        GeoBuilder {
            vertices: Vec::new(),
            indices: Vec::new(),
            geo_counter: 0,
            offsets: Vec::new(),
            len: Vec::new(),
            normal_textures,
            opaque,
            material_id: Vec::new(),
        }
    }

    /// Whether the material of geometry `geo_id` is opaque.
    pub fn is_opaque(&self, geo_id: u32) -> (b: bool)
        requires
            geo_id < self.material_id@.len(),
            self.material_id@[geo_id as int] < self.opaque@.len(),
        ensures
            b == self.opaque@[self.material_id@[geo_id as int] as int],
    {
        self.opaque[self.material_id[geo_id as usize]]
    }

    /// Whether every material is opaque.
    pub fn fully_opaque(&self) -> (b: bool)
        ensures
            b == forall|i: int| 0 <= i < self.opaque@.len() ==> #[trigger] self.opaque@[i],
    {
        let mut i: usize = 0;
        while i < self.opaque.len()
            invariant
                i <= self.opaque@.len(),
                forall|k: int| 0 <= k < i ==> #[trigger] self.opaque@[k],
            decreases self.opaque@.len() - i,
        {
            if !self.opaque[i] {
                return false;
            }
            i += 1;
        }
        true
    }

    /// Hands out the next geometry id and records its material.
    pub fn next_geo_id(&mut self, material_id: u32) -> (id: u32)
        requires
            old(self).geo_counter < u32::MAX,
        ensures
            id == old(self).geo_counter,
            final(self).geo_counter == old(self).geo_counter + 1,
            final(self).material_id@ == old(self).material_id@.push(material_id as usize),
            final(self).vertices@ == old(self).vertices@,
            final(self).indices@ == old(self).indices@,
            final(self).offsets@ == old(self).offsets@,
            final(self).len@ == old(self).len@,
            final(self).opaque@ == old(self).opaque@,
            final(self).normal_textures@ == old(self).normal_textures@,
    {
        let cur = self.geo_counter;
        self.geo_counter += 1;
        self.material_id.push(material_id as usize);
        cur
    }

    /// One `PrimInfo` per geometry, in id order.
    pub fn flatten(&self) -> (p: Vec<PrimInfo>)
        ensures
            p@.len() == self.offsets@.len(),
            forall|i: int| 0 <= i < p@.len() ==> #[trigger] p@[i] == (PrimInfo {
                v_offset: self.offsets@[i]@[0],
                i_offset: self.offsets@[i]@[1],
                material_id: self.offsets@[i]@[2],
                skin_id: 0,
            }),
    {
        let mut p: Vec<PrimInfo> = Vec::new();
        let mut i: usize = 0;
        while i < self.offsets.len()
            invariant
                i <= self.offsets@.len(),
                p@.len() == i,
                forall|k: int| 0 <= k < i ==> #[trigger] p@[k] == (PrimInfo {
                    v_offset: self.offsets@[k]@[0],
                    i_offset: self.offsets@[k]@[1],
                    material_id: self.offsets@[k]@[2],
                    skin_id: 0,
                }),
            decreases self.offsets@.len() - i,
        {
            p.push(PrimInfo::new(&self.offsets[i]));
            i += 1;
        }
        p
    }

    /// Appends a primitive's vertices and indices to the shared buffers and
    /// records where they start (offsets stored as `u32`) and how long they are.
    pub fn append_geometry(&mut self, vertices: Vec<Vertex<A>>, indices: Vec<u32>, material_index: u32)
        ensures
            final(self).vertices@ == old(self).vertices@ + vertices@,
            final(self).indices@ == old(self).indices@ + indices@,
            final(self).len@ == old(self).len@.push([vertices@.len() as usize, indices@.len() as usize]),
            final(self).offsets@ == old(self).offsets@.push(
                [old(self).vertices@.len() as u32, old(self).indices@.len() as u32, material_index],
            ),
            final(self).geo_counter == old(self).geo_counter,
            final(self).material_id@ == old(self).material_id@,
            final(self).opaque@ == old(self).opaque@,
            final(self).normal_textures@ == old(self).normal_textures@,
    {
        let mut vertices = vertices;
        let mut indices = indices;
        let v_offset = self.vertices.len();
        let i_offset = self.indices.len();
        let lens = [vertices.len(), indices.len()];
        self.len.push(lens);
        self.vertices.append(&mut vertices);
        self.indices.append(&mut indices);
        let offs = [v_offset as u32, i_offset as u32, material_index];
        self.offsets.push(offs);
    }

    /// Whether tangents must be generated for a primitive of material
    /// `material_index`: the primitive brings none, has texture coordinates,
    /// and its material (if known) has a normal texture.
    pub fn needs_generated_tangents(&self, tangents_found: bool, has_uv0: bool, material_index: u32) -> (b: bool)
        ensures
            b == (!tangents_found && has_uv0 && material_index < self.normal_textures@.len()
                && self.normal_textures@[material_index as int]),
    {
        if tangents_found || !has_uv0 {
            return false;
        }
        let i = material_index as usize;
        if i < self.normal_textures.len() {
            self.normal_textures[i]
        } else {
            false
        }
    }

    /// Records a primitive of material `material_index`: a new geometry id,
    /// its vertices and indices appended to the shared buffers.
    pub fn add_primitive(&mut self, vertices: Vec<Vertex<A>>, indices: Vec<u32>, material_index: u32) -> (id: u32)
        requires
            old(self).geo_counter < u32::MAX,
        ensures
            id == old(self).geo_counter,
            final(self).geo_counter == old(self).geo_counter + 1,
            final(self).material_id@ == old(self).material_id@.push(material_index as usize),
            final(self).vertices@ == old(self).vertices@ + vertices@,
            final(self).indices@ == old(self).indices@ + indices@,
            final(self).len@ == old(self).len@.push([vertices@.len() as usize, indices@.len() as usize]),
            final(self).offsets@ == old(self).offsets@.push(
                [old(self).vertices@.len() as u32, old(self).indices@.len() as u32, material_index],
            ),
            final(self).opaque@ == old(self).opaque@,
            final(self).normal_textures@ == old(self).normal_textures@,
            ranges_recorded(old(self)) ==> ranges_recorded(final(self)),
    {
        let id = self.next_geo_id(material_index);
        let ghost before = *self;
        let ghost vl: usize = self.vertices@.len() as usize;
        let ghost il: usize = self.indices@.len() as usize;
        self.append_geometry(vertices, indices, material_index);
        proof {
            assert((vl as u32) <= vl) by (bit_vector);
            assert((il as u32) <= il) by (bit_vector);
            if ranges_recorded(old(self)) {
                assert forall|g: int| 0 <= g < self.offsets@.len() implies self.offsets@[g]@[0] + (
                #[trigger] self.len@[g])@[0] <= self.vertices@.len() && self.offsets@[g]@[1] + self.len@[g]@[1]
                    <= self.indices@.len() by {
                    if g < before.offsets@.len() {
                        assert(self.offsets@[g] == before.offsets@[g]);
                        assert(self.len@[g] == before.len@[g]);
                        assert(before.len@[g] == old(self).len@[g]);
                    }
                }
            }
        }
        id
    }

    /// Binds the vertices of geometry `geometry_id` to skin `skin_index`
    /// in place; they must all be unskinned (the loader asserts it).
    pub fn set_skin_index(&mut self, geometry_id: usize, skin_index: usize)
        requires
            geometry_in_range(old(self), geometry_id as int),
            geometry_unskinned(old(self), geometry_id as int),
        ensures
            final(self).vertices@.len() == old(self).vertices@.len(),
            forall|k: int|
                0 <= k < old(self).vertices@.len() ==> (#[trigger] final(self).vertices@[k]).attributes == old(
                    self,
                ).vertices@[k].attributes && final(self).vertices@[k].skin_index == if old(self).offsets@[geometry_id as int]@[0] <= k
                    < old(self).offsets@[geometry_id as int]@[0] + old(self).len@[geometry_id as int]@[0] {
                    skin_index as i32
                } else {
                    old(self).vertices@[k].skin_index
                },
            final(self).indices@ == old(self).indices@,
            final(self).offsets@ == old(self).offsets@,
            final(self).len@ == old(self).len@,
            final(self).geo_counter == old(self).geo_counter,
            final(self).material_id@ == old(self).material_id@,
            final(self).opaque@ == old(self).opaque@,
            final(self).normal_textures@ == old(self).normal_textures@,
    {
        let vertex_offset = self.offsets[geometry_id][0] as usize;
        let vertex_length = self.len[geometry_id][0];
        let ghost old_v = self.vertices@;
        let vertex_count = self.vertices.len();
        assert(vertex_offset + vertex_length <= vertex_count);
        let end = vertex_offset + vertex_length;
        let mut k = vertex_offset;
        while k < end
            invariant
                end == vertex_offset + vertex_length,
                vertex_offset == old(self).offsets@[geometry_id as int]@[0],
                vertex_length == old(self).len@[geometry_id as int]@[0],
                vertex_offset + vertex_length <= old_v.len(),
                vertex_offset <= k <= vertex_offset + vertex_length,
                self.vertices@.len() == old_v.len(),
                forall|j: int| vertex_offset <= j < vertex_offset + vertex_length ==> (#[trigger] old_v[j]).skin_index == -1,
                forall|j: int|
                    0 <= j < old_v.len() ==> (#[trigger] self.vertices@[j]).attributes == old_v[j].attributes
                        && self.vertices@[j].skin_index == if vertex_offset <= j < k {
                        skin_index as i32
                    } else {
                        old_v[j].skin_index
                    },
                self.indices@ == old(self).indices@,
                self.offsets@ == old(self).offsets@,
                self.len@ == old(self).len@,
                self.geo_counter == old(self).geo_counter,
                self.material_id@ == old(self).material_id@,
                self.opaque@ == old(self).opaque@,
                self.normal_textures@ == old(self).normal_textures@,
            decreases vertex_offset + vertex_length - k,
        {
            let v = self.vertices[k];
            assert(v.skin_index == -1);
            self.vertices.set(k, Vertex { attributes: v.attributes, skin_index: skin_index as i32 });
            k += 1;
        }
    }

    /// Copies geometry `geometry_id` as a new geometry bound to skin
    /// `skin_index`: a new id with the same material, its vertices appended
    /// with the skin set, its indices appended unchanged. The source vertices
    /// must be unskinned (the loader asserts it).
    pub fn duplicate_geometry(&mut self, geometry_id: usize, skin_index: usize) -> (id: u32)
        requires
            geometry_in_range(old(self), geometry_id as int),
            geometry_unskinned(old(self), geometry_id as int),
            old(self).geo_counter < u32::MAX,
        ensures
            ({
                let o = old(self).offsets@[geometry_id as int]@;
                let l = old(self).len@[geometry_id as int]@;
                &&& id == old(self).geo_counter
                &&& final(self).geo_counter == old(self).geo_counter + 1
                &&& final(self).material_id@ == old(self).material_id@.push(o[2] as usize)
                &&& final(self).vertices@.len() == old(self).vertices@.len() + l[0]
                &&& final(self).vertices@.subrange(0, old(self).vertices@.len() as int) == old(self).vertices@
                &&& skinned_copy(
                    final(self).vertices@.subrange(old(self).vertices@.len() as int, final(self).vertices@.len() as int),
                    old(self).vertices@.subrange(o[0] as int, o[0] + l[0]),
                    skin_index as i32,
                )
                &&& final(self).indices@ == old(self).indices@ + old(self).indices@.subrange(o[1] as int, o[1] + l[1])
                &&& final(self).len@ == old(self).len@.push([l[0], l[1]])
                &&& final(self).offsets@ == old(self).offsets@.push(
                    [old(self).vertices@.len() as u32, old(self).indices@.len() as u32, o[2]],
                )
            }),
            final(self).opaque@ == old(self).opaque@,
            final(self).normal_textures@ == old(self).normal_textures@,
    {
        let vertex_offset = self.offsets[geometry_id][0] as usize;
        let index_offset = self.offsets[geometry_id][1] as usize;
        let material_id = self.offsets[geometry_id][2];
        let vertex_length = self.len[geometry_id][0];
        let index_length = self.len[geometry_id][1];
        let new_id = self.next_geo_id(material_id);
        let cur_vertex_len = self.vertices.len();
        let cur_index_len = self.indices.len();
        let ghost v0 = self.vertices@;
        let ghost i0 = self.indices@;
        let mut dup: Vec<Vertex<A>> = Vec::new();
        let vertex_count = self.vertices.len();
        assert(vertex_offset + vertex_length <= vertex_count);
        let end = vertex_offset + vertex_length;
        let mut k = vertex_offset;
        while k < end
            invariant
                end == vertex_offset + vertex_length,
                self.vertices@ == v0,
                vertex_offset == old(self).offsets@[geometry_id as int]@[0],
                vertex_length == old(self).len@[geometry_id as int]@[0],
                vertex_offset + vertex_length <= v0.len(),
                vertex_offset <= k <= vertex_offset + vertex_length,
                v0 == old(self).vertices@,
                forall|j: int| vertex_offset <= j < vertex_offset + vertex_length ==> (#[trigger] v0[j]).skin_index == -1,
                skinned_copy(dup@, v0.subrange(vertex_offset as int, k as int), skin_index as i32),
            decreases vertex_offset + vertex_length - k,
        {
            let v = self.vertices[k];
            assert(v.skin_index == -1);
            dup.push(Vertex { attributes: v.attributes, skin_index: skin_index as i32 });
            k += 1;
        }
        let mut dup_indices: Vec<u32> = Vec::new();
        let index_count = self.indices.len();
        assert(index_offset + index_length <= index_count);
        let index_end = index_offset + index_length;
        let mut j = index_offset;
        while j < index_end
            invariant
                index_end == index_offset + index_length,
                self.indices@ == i0,
                i0 == old(self).indices@,
                index_offset == old(self).offsets@[geometry_id as int]@[1],
                index_length == old(self).len@[geometry_id as int]@[1],
                index_offset + index_length <= i0.len(),
                index_offset <= j <= index_offset + index_length,
                dup_indices@ == i0.subrange(index_offset as int, j as int),
            decreases index_offset + index_length - j,
        {
            dup_indices.push(self.indices[j]);
            j += 1;
            proof {
                assert(dup_indices@ =~= i0.subrange(index_offset as int, j as int));
            }
        }
        let ghost dup_view = dup@;
        self.vertices.append(&mut dup);
        self.indices.append(&mut dup_indices);
        self.len.push([vertex_length, index_length]);
        self.offsets.push([cur_vertex_len as u32, cur_index_len as u32, material_id]);
        proof {
            assert(self.vertices@.subrange(0, v0.len() as int) =~= v0);
            assert(self.vertices@.subrange(v0.len() as int, self.vertices@.len() as int) =~= dup_view);
        }
        new_id
    }
}

/// The indices `0, 1, ..., count - 1`, for a primitive drawn without an index buffer.
pub fn sequential_indices(count: u32) -> (v: Vec<u32>)
    ensures
        v@.len() == count,
        forall|i: int| 0 <= i < count ==> v@[i] == i,
{
    let mut v: Vec<u32> = Vec::new();
    let mut i: u32 = 0;
    while i < count
        invariant
            i <= count,
            v@.len() == i,
            forall|k: int| 0 <= k < i ==> v@[k] == k,
        decreases count - i,
    {
        v.push(i);
        i += 1;
    }
    v
}

/// A primitive is turned into geometry when it has positions and is drawn
/// as a triangle list.
pub fn is_primitive_supported(p: &PrimitiveShape) -> (b: bool)
    ensures
        b == (p.has_positions && p.mode == PrimitiveMode::Triangles),
{
    p.has_positions && p.mode == PrimitiveMode::Triangles
}

} // verus!
