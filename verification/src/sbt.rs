use vstd::prelude::*;
use crate::align::{compute_aligned_size, is_power_of_two, lemma_aligned_size_bounds, spec_aligned_size};
use crate::rt_pipeline::RayTracingShaderGroupInfo;

verus! {

/// Sizes of a shader binding table: every shader handle is padded to the
/// handle alignment, and each of the three regions (ray generation, miss,
/// hit) is padded to the group base alignment.
#[derive(Debug, Clone, Copy)]
pub struct SbtLayout {
    pub handle_size: u32,
    pub aligned_handle_size: u32,
    pub handle_pad: u32,
    pub group_alignment: u32,
    /// Bytes of shader group handles to fetch from the driver.
    pub data_size: u32,
    pub raygen_count: u32,
    pub miss_count: u32,
    pub hit_count: u32,
    pub raygen_region_size: u32,
    pub miss_region_size: u32,
    pub hit_region_size: u32,
    pub buffer_size: u32,
}

/// One `VkStridedDeviceAddressRegionKHR`.
#[derive(Debug, Clone, Copy, PartialEq, Eq, Structural)]
pub struct StridedRegion {
    pub device_address: u64,
    pub stride: u64,
    pub size: u64,
}

/// The three regions a `vkCmdTraceRaysKHR` call reads.
#[derive(Debug, Clone, Copy)]
pub struct ShaderBindingTable {
    pub raygen_region: StridedRegion,
    pub miss_region: StridedRegion,
    pub hit_region: StridedRegion,
}

/// The inputs on which building the table neither overflows nor underflows.
pub open spec fn layout_inputs_ok(
    handle_size: u32,
    handle_alignment: u32,
    group_alignment: u32,
    desc: RayTracingShaderGroupInfo,
) -> bool {
    let ahs = spec_aligned_size(handle_size, handle_alignment);
    &&& handle_alignment >= 1
    &&& handle_size + handle_alignment - 1 <= u32::MAX
    &&& ahs >= handle_size
    &&& desc.group_count * handle_size <= u32::MAX
    &&& group_alignment >= 1
    &&& region_ok(desc.raygen_shader_count, ahs, group_alignment)
    &&& region_ok(desc.miss_shader_count, ahs, group_alignment)
    &&& region_ok(desc.hit_shader_count, ahs, group_alignment)
    &&& spec_aligned_size((desc.raygen_shader_count * ahs) as u32, group_alignment) + spec_aligned_size(
        (desc.miss_shader_count * ahs) as u32,
        group_alignment,
    ) + spec_aligned_size((desc.hit_shader_count * ahs) as u32, group_alignment) <= u32::MAX
}

/// A region of `count` aligned handles can be sized and padded.
pub open spec fn region_ok(count: u32, aligned_handle_size: u32, group_alignment: u32) -> bool {
    &&& count * aligned_handle_size + group_alignment - 1 <= u32::MAX
    &&& spec_aligned_size((count * aligned_handle_size) as u32, group_alignment) >= count * aligned_handle_size
}

/// The layout that `ShaderBindingTable::layout` computes.
pub open spec fn spec_layout(
    handle_size: u32,
    handle_alignment: u32,
    group_alignment: u32,
    desc: RayTracingShaderGroupInfo,
) -> SbtLayout {
    let ahs = spec_aligned_size(handle_size, handle_alignment);
    let rs = spec_aligned_size((desc.raygen_shader_count * ahs) as u32, group_alignment);
    let ms = spec_aligned_size((desc.miss_shader_count * ahs) as u32, group_alignment);
    let hs = spec_aligned_size((desc.hit_shader_count * ahs) as u32, group_alignment);
    SbtLayout {
        handle_size,
        aligned_handle_size: ahs,
        handle_pad: (ahs - handle_size) as u32,
        group_alignment,
        data_size: (desc.group_count * handle_size) as u32,
        raygen_count: desc.raygen_shader_count,
        miss_count: desc.miss_shader_count,
        hit_count: desc.hit_shader_count,
        raygen_region_size: rs,
        miss_region_size: ms,
        hit_region_size: hs,
        buffer_size: (rs + ms + hs) as u32,
    }
}

/// Each region of the table is sized for the pipeline's own count of its
/// kind of shader: the ray generation region for the ray generation shaders,
/// the miss region for the miss shaders, the hit region for the hit groups.
/// With a power-of-two group alignment, a region holds exactly its count of
/// aligned handles followed by less than one group alignment of padding, and
/// the buffer is the three regions back to back.
pub proof fn lemma_layout_regions_follow_counts(
    handle_size: u32,
    handle_alignment: u32,
    group_alignment: u32,
    desc: RayTracingShaderGroupInfo,
)
    requires
        layout_inputs_ok(handle_size, handle_alignment, group_alignment, desc),
    ensures
        ({
            let l = spec_layout(handle_size, handle_alignment, group_alignment, desc);
            let ahs = l.aligned_handle_size;
            &&& ahs == spec_aligned_size(handle_size, handle_alignment)
            &&& l.raygen_count == desc.raygen_shader_count
            &&& l.miss_count == desc.miss_shader_count
            &&& l.hit_count == desc.hit_shader_count
            &&& l.buffer_size == l.raygen_region_size + l.miss_region_size + l.hit_region_size
            &&& is_power_of_two(group_alignment) ==> {
                &&& desc.raygen_shader_count * ahs <= l.raygen_region_size < desc.raygen_shader_count * ahs
                    + group_alignment
                &&& desc.miss_shader_count * ahs <= l.miss_region_size < desc.miss_shader_count * ahs
                    + group_alignment
                &&& desc.hit_shader_count * ahs <= l.hit_region_size < desc.hit_shader_count * ahs
                    + group_alignment
                &&& l.raygen_region_size % group_alignment == 0
                &&& l.miss_region_size % group_alignment == 0
                &&& l.hit_region_size % group_alignment == 0
            }
        }),
{
    let ahs = spec_aligned_size(handle_size, handle_alignment);
    let r = (desc.raygen_shader_count * ahs) as u32;
    let m = (desc.miss_shader_count * ahs) as u32;
    let h = (desc.hit_shader_count * ahs) as u32;
    lemma_aligned_size_bounds(r, group_alignment);
    lemma_aligned_size_bounds(m, group_alignment);
    lemma_aligned_size_bounds(h, group_alignment);
}

/// The internal consistency of a layout that the data builder relies on.
pub open spec fn layout_valid(l: SbtLayout) -> bool {
    &&& l.aligned_handle_size == l.handle_size + l.handle_pad
    &&& l.group_alignment >= 1
    &&& region_ok(l.raygen_count, l.aligned_handle_size, l.group_alignment)
    &&& region_ok(l.miss_count, l.aligned_handle_size, l.group_alignment)
    &&& region_ok(l.hit_count, l.aligned_handle_size, l.group_alignment)
    &&& l.raygen_region_size == spec_aligned_size((l.raygen_count * l.aligned_handle_size) as u32, l.group_alignment)
    &&& l.miss_region_size == spec_aligned_size((l.miss_count * l.aligned_handle_size) as u32, l.group_alignment)
    &&& l.hit_region_size == spec_aligned_size((l.hit_count * l.aligned_handle_size) as u32, l.group_alignment)
    &&& l.buffer_size == l.raygen_region_size + l.miss_region_size + l.hit_region_size
}

pub open spec fn zeros(n: nat) -> Seq<u8> {
    Seq::new(n, |i: int| 0u8)
}

/// `count` consecutive handles read from `handles` starting at byte `start`,
/// each followed by `pad` zero bytes.
pub open spec fn handle_records(handles: Seq<u8>, start: int, count: nat, handle_size: nat, pad: nat) -> Seq<u8>
    decreases count,
{
    if count == 0 {
        Seq::empty()
    } else {
        handles.subrange(start, start + handle_size) + zeros(pad) + handle_records(
            handles,
            start + handle_size,
            (count - 1) as nat,
            handle_size,
            pad,
        )
    }
}

/// One region: its padded handles, then zeros up to the region's aligned size.
pub open spec fn region_bytes(handles: Seq<u8>, start: int, count: u32, l: SbtLayout) -> Seq<u8> {
    let group_size = count * l.aligned_handle_size;
    handle_records(handles, start, count as nat, l.handle_size as nat, l.handle_pad as nat)
        + zeros((spec_aligned_size(group_size as u32, l.group_alignment) - group_size) as nat)
}

/// The whole table: ray generation, miss and hit regions, back to back,
/// taking the handles in order.
pub open spec fn sbt_bytes(handles: Seq<u8>, l: SbtLayout) -> Seq<u8> {
    region_bytes(handles, 0, l.raygen_count, l) + region_bytes(
        handles,
        l.raygen_count * l.handle_size,
        l.miss_count,
        l,
    ) + region_bytes(handles, (l.raygen_count + l.miss_count) * l.handle_size, l.hit_count, l)
}

proof fn lemma_handle_records_len(handles: Seq<u8>, start: int, count: nat, hs: nat, pad: nat)
    requires
        0 <= start,
        start + count * hs <= handles.len(),
    ensures
        handle_records(handles, start, count, hs, pad).len() == count * (hs + pad),
    decreases count,
{
    if count > 0 {
        assert(start + hs + (count - 1) * hs <= handles.len()) by (nonlinear_arith)
            requires
                start + count * hs <= handles.len(),
                count > 0,
        ;
        assert(start + hs <= handles.len()) by (nonlinear_arith)
            requires
                start + hs + (count - 1) * hs <= handles.len(),
                count > 0,
        ;
        lemma_handle_records_len(handles, start + hs, (count - 1) as nat, hs, pad);
        let rest = handle_records(handles, start + hs, (count - 1) as nat, hs, pad);
        assert(handle_records(handles, start, count, hs, pad) == handles.subrange(start, start + hs)
            + zeros(pad) + rest);
        assert(handles.subrange(start, start + hs).len() == hs);
        assert((hs + pad) + (count - 1) * (hs + pad) == count * (hs + pad)) by (nonlinear_arith)
            requires
                count > 0,
        ;
    } else {
        assert(count * (hs + pad) == 0) by (nonlinear_arith)
            requires
                count == 0,
        ;
    }
}

proof fn lemma_handle_records_index(handles: Seq<u8>, start: int, count: nat, hs: nat, pad: nat, j: int, k: int)
    requires
        0 <= start,
        start + count * hs <= handles.len(),
        0 <= j < count,
        0 <= k < hs + pad,
    ensures
        j * (hs + pad) + k < handle_records(handles, start, count, hs, pad).len(),
        handle_records(handles, start, count, hs, pad)[j * (hs + pad) + k] == if k < hs {
            handles[start + j * hs + k]
        } else {
            0u8
        },
    decreases count,
{
    lemma_handle_records_len(handles, start, count, hs, pad);
    assert(start + hs + (count - 1) * hs <= handles.len()) by (nonlinear_arith)
        requires
            start + count * hs <= handles.len(),
            count > 0,
    ;
    assert(start + hs <= handles.len()) by (nonlinear_arith)
        requires
            start + hs + (count - 1) * hs <= handles.len(),
            count > 0,
    ;
    assert(j * (hs + pad) + k < count * (hs + pad)) by (nonlinear_arith)
        requires
            0 <= j < count,
            0 <= k < hs + pad,
    ;
    let first = handles.subrange(start, start + hs) + zeros(pad);
    let rest = handle_records(handles, start + hs, (count - 1) as nat, hs, pad);
    assert(handle_records(handles, start, count, hs, pad) == first + rest);
    if j == 0 {
        assert(j * (hs + pad) == 0) by (nonlinear_arith)
            requires
                j == 0,
        ;
        assert(j * hs == 0) by (nonlinear_arith)
            requires
                j == 0,
        ;
    } else {
        lemma_handle_records_index(handles, start + hs, (count - 1) as nat, hs, pad, j - 1, k);
        assert(j * (hs + pad) + k == (hs + pad) + ((j - 1) * (hs + pad) + k)) by (nonlinear_arith);
        assert(start + j * hs + k == (start + hs) + (j - 1) * hs + k) by (nonlinear_arith);
    }
}

/// Where each shader group's handle lands in the table: the `j`-th ray
/// generation record holds handle `j`, the `j`-th miss record (after the
/// whole ray generation region) holds handle `raygen_count + j`, and the
/// `j`-th hit record (after the ray generation and miss regions) holds
/// handle `raygen_count + miss_count + j`; each record's bytes past the
/// handle are zero.
pub proof fn lemma_table_records(handles: Seq<u8>, l: SbtLayout, j: int, k: int)
    requires
        layout_valid(l),
        (l.raygen_count + l.miss_count + l.hit_count) * l.handle_size <= handles.len(),
        0 <= j,
        0 <= k < l.aligned_handle_size,
    ensures
        ({
            let t = sbt_bytes(handles, l);
            let a = l.aligned_handle_size as int;
            let hs = l.handle_size as int;
            &&& t.len() == l.buffer_size
            &&& j < l.raygen_count ==> t[j * a + k] == if k < hs { handles[j * hs + k] } else { 0u8 }
            &&& j < l.miss_count ==> t[l.raygen_region_size + j * a + k] == if k < hs {
                handles[(l.raygen_count + j) * hs + k]
            } else {
                0u8
            }
            &&& j < l.hit_count ==> t[l.raygen_region_size + l.miss_region_size + j * a + k] == if k < hs {
                handles[(l.raygen_count + l.miss_count + j) * hs + k]
            } else {
                0u8
            }
        }),
{
    let hs = l.handle_size as nat;
    let pad = l.handle_pad as nat;
    let h = handles;
    let rc = l.raygen_count as nat;
    let mc = l.miss_count as nat;
    let hc = l.hit_count as nat;
    assert(rc * hs + mc * hs + hc * hs == (rc + mc + hc) * hs) by (nonlinear_arith);
    assert((rc + mc) * hs == rc * hs + mc * hs) by (nonlinear_arith);
    lemma_handle_records_len(h, 0, rc, hs, pad);
    lemma_handle_records_len(h, (rc * hs) as int, mc, hs, pad);
    lemma_handle_records_len(h, ((rc + mc) * hs) as int, hc, hs, pad);
    let r0 = region_bytes(h, 0, l.raygen_count, l);
    let r1 = region_bytes(h, l.raygen_count * l.handle_size, l.miss_count, l);
    let r2 = region_bytes(h, (l.raygen_count + l.miss_count) * l.handle_size, l.hit_count, l);
    assert(r0.len() == l.raygen_region_size);
    assert(r1.len() == l.miss_region_size);
    assert(r2.len() == l.hit_region_size);
    assert(sbt_bytes(h, l) == r0 + r1 + r2);
    if j < l.raygen_count {
        lemma_handle_records_index(h, 0, rc, hs, pad, j, k);
        assert(j * hs == 0 + j * hs);
    }
    if j < l.miss_count {
        lemma_handle_records_index(h, (rc * hs) as int, mc, hs, pad, j, k);
        assert(rc * hs + j * hs == (rc + j) * hs) by (nonlinear_arith);
    }
    if j < l.hit_count {
        lemma_handle_records_index(h, ((rc + mc) * hs) as int, hc, hs, pad, j, k);
        assert((rc + mc) * hs + j * hs == (rc + mc + j) * hs) by (nonlinear_arith);
    }
}

impl ShaderBindingTable {
    /// Sizes the table: the handle size rounded up to the handle alignment,
    /// and each region's handles rounded up to the group base alignment.
    pub fn layout(
        handle_size: u32,
        handle_alignment: u32,
        group_alignment: u32,
        desc: RayTracingShaderGroupInfo,
    ) -> (l: SbtLayout)
        requires
            layout_inputs_ok(handle_size, handle_alignment, group_alignment, desc),
        ensures
            l == spec_layout(handle_size, handle_alignment, group_alignment, desc),
            layout_valid(l),
            l.aligned_handle_size == spec_aligned_size(handle_size, handle_alignment),
            l.raygen_count == desc.raygen_shader_count,
            l.miss_count == desc.miss_shader_count,
            l.hit_count == desc.hit_shader_count,
            l.raygen_region_size == spec_aligned_size(
                (desc.raygen_shader_count * l.aligned_handle_size) as u32,
                group_alignment,
            ),
            l.miss_region_size == spec_aligned_size((desc.miss_shader_count * l.aligned_handle_size) as u32, group_alignment),
            l.hit_region_size == spec_aligned_size((desc.hit_shader_count * l.aligned_handle_size) as u32, group_alignment),
            l.buffer_size == l.raygen_region_size + l.miss_region_size + l.hit_region_size,
    {
        let aligned_handle_size = compute_aligned_size(handle_size, handle_alignment);
        let handle_pad = aligned_handle_size - handle_size;
        let data_size = desc.group_count * handle_size;
        let raygen_region_size = compute_aligned_size(
            desc.raygen_shader_count * aligned_handle_size,
            group_alignment,
        );
        let miss_region_size = compute_aligned_size(
            desc.miss_shader_count * aligned_handle_size,
            group_alignment,
        );
        let hit_region_size = compute_aligned_size(
            desc.hit_shader_count * aligned_handle_size,
            group_alignment,
        );
        let buffer_size = raygen_region_size + miss_region_size + hit_region_size;
        SbtLayout {
            handle_size,
            aligned_handle_size,
            handle_pad,
            group_alignment,
            data_size,
            raygen_count: desc.raygen_shader_count,
            miss_count: desc.miss_shader_count,
            hit_count: desc.hit_shader_count,
            raygen_region_size,
            miss_region_size,
            hit_region_size,
            buffer_size,
        }
    }

    /// Lays the shader group handles out as the table's bytes: each handle
    /// followed by its padding, each region followed by its padding.
    pub fn data(handles: &[u8], l: &SbtLayout) -> (data: Vec<u8>)
        requires
            layout_valid(*l),
            (l.raygen_count + l.miss_count + l.hit_count) * l.handle_size <= handles@.len(),
        ensures
            data@ == sbt_bytes(handles@, *l),
            data@.len() == l.buffer_size,
    {
        let mut data: Vec<u8> = Vec::new();
        let ghost h = handles@;
        let ghost hs = l.handle_size as nat;
        proof {
            assert(l.raygen_count * hs + l.miss_count * hs + l.hit_count * hs
                == (l.raygen_count + l.miss_count + l.hit_count) * hs) by (nonlinear_arith);
            assert((l.raygen_count + l.miss_count) * hs == l.raygen_count * hs + l.miss_count * hs)
                by (nonlinear_arith);
        }
        let offset = push_region(&mut data, handles, 0, l.raygen_count, l);
        let offset = push_region(&mut data, handles, offset, l.miss_count, l);
        let offset = push_region(&mut data, handles, offset, l.hit_count, l);
        proof {
            let g0 = l.raygen_count * l.aligned_handle_size;
            let g1 = l.miss_count * l.aligned_handle_size;
            let g2 = l.hit_count * l.aligned_handle_size;
            lemma_handle_records_len(h, 0, l.raygen_count as nat, hs, l.handle_pad as nat);
            lemma_handle_records_len(h, l.raygen_count * hs, l.miss_count as nat, hs, l.handle_pad as nat);
            lemma_handle_records_len(
                h,
                (l.raygen_count + l.miss_count) * hs,
                l.hit_count as nat,
                hs,
                l.handle_pad as nat,
            );
        }
        data
    }

    /// The device-address regions of a table whose buffer starts at `address`:
    /// ray generation first (its stride is its whole size), then miss, then
    /// hit, each with the aligned handle size as stride.
    pub fn regions(address: u64, l: &SbtLayout) -> (t: ShaderBindingTable)
        requires
            address + l.raygen_region_size + l.miss_region_size <= u64::MAX,
        ensures
            t.raygen_region == (StridedRegion {
                device_address: address,
                stride: l.raygen_region_size as u64,
                size: l.raygen_region_size as u64,
            }),
            t.miss_region == (StridedRegion {
                device_address: (address + l.raygen_region_size) as u64,
                stride: l.aligned_handle_size as u64,
                size: l.miss_region_size as u64,
            }),
            t.hit_region == (StridedRegion {
                device_address: (address + l.raygen_region_size + l.miss_region_size) as u64,
                stride: l.aligned_handle_size as u64,
                size: l.hit_region_size as u64,
            }),
    {
        let raygen_region = StridedRegion {
            device_address: address,
            size: l.raygen_region_size as u64,
            stride: l.raygen_region_size as u64,
        };
        let miss_region = StridedRegion {
            device_address: address + raygen_region.size,
            size: l.miss_region_size as u64,
            stride: l.aligned_handle_size as u64,
        };
        let hit_region = StridedRegion {
            device_address: address + raygen_region.size + miss_region.size,
            size: l.hit_region_size as u64,
            stride: l.aligned_handle_size as u64,
        };
        ShaderBindingTable { raygen_region, miss_region, hit_region }
    }
}

/// Appends one region to `data`, reading `count` handles from byte `start`;
/// returns the byte offset after the handles read.
fn push_region(data: &mut Vec<u8>, handles: &[u8], start: usize, count: u32, l: &SbtLayout) -> (next: usize)
    requires
        layout_valid(*l),
        count == l.raygen_count || count == l.miss_count || count == l.hit_count,
        start + count * l.handle_size <= handles@.len(),
    ensures
        final(data)@ == old(data)@ + region_bytes(handles@, start as int, count, *l),
        next == start + count * l.handle_size,
{
    let ghost h = handles@;
    let ghost hs = l.handle_size as nat;
    let ghost pad = l.handle_pad as nat;
    let ghost base = data@;
    let mut offset = start;
    let mut k: u32 = 0;
    proof {
        assert(start + (count - 0) * hs <= h.len());
    }
    while k < count
        invariant
            layout_valid(*l),
            h == handles@,
            hs == l.handle_size,
            pad == l.handle_pad,
            k <= count,
            offset + (count - k) * hs <= h.len(),
            offset == start + k * hs,
            base + handle_records(h, start as int, count as nat, hs, pad)
                == data@ + handle_records(h, offset as int, (count - k) as nat, hs, pad),
        decreases count - k,
    {
        let ghost before = data@;
        let ghost off0 = offset as int;
        proof {
            assert(off0 + hs + (count - k - 1) * hs <= h.len()) by (nonlinear_arith)
                requires
                    off0 + (count - k) * hs <= h.len(),
                    k < count,
            ;
        }
        let mut j: u32 = 0;
        while j < l.handle_size
            invariant
                h == handles@,
                hs == l.handle_size,
                j <= hs,
                offset == off0 + j,
                off0 + hs <= h.len(),
                0 <= off0,
                data@ == before + h.subrange(off0, off0 + j),
            decreases hs - j,
        {
            data.push(handles[offset]);
            offset += 1;
            j += 1;
            proof {
                assert(data@ =~= before + h.subrange(off0, off0 + j));
            }
        }
        let ghost after_handle = data@;
        let mut p: u32 = 0;
        while p < l.handle_pad
            invariant
                pad == l.handle_pad,
                p <= pad,
                data@ == after_handle + zeros(p as nat),
            decreases pad - p,
        {
            data.push(0);
            p += 1;
            proof {
                assert(data@ =~= after_handle + zeros(p as nat));
            }
        }
        k += 1;
        proof {
            assert(offset == start + k * hs) by (nonlinear_arith)
                requires
                    off0 == start + (k - 1) * hs,
                    offset == off0 + hs,
            ;
            assert(offset + (count - k) * hs <= h.len()) by (nonlinear_arith)
                requires
                    off0 + hs + (count - k) * hs <= h.len(),
                    offset == off0 + hs,
            ;
            let rest = handle_records(h, offset as int, (count - k) as nat, hs, pad);
            assert(handle_records(h, off0, (count - (k - 1)) as nat, hs, pad)
                == h.subrange(off0, off0 + hs) + zeros(pad) + rest);
            assert(data@ =~= before + h.subrange(off0, off0 + hs) + zeros(pad));
            assert(before + h.subrange(off0, off0 + hs) + zeros(pad) + rest
                =~= before + (h.subrange(off0, off0 + hs) + zeros(pad) + rest));
        }
    }
    let ghost after_records = data@;
    let group_size = count * l.aligned_handle_size;
    let aligned_group_size = compute_aligned_size(group_size, l.group_alignment);
    let group_pad = aligned_group_size - group_size;
    let mut q: u32 = 0;
    while q < group_pad
        invariant
            q <= group_pad,
            data@ == after_records + zeros(q as nat),
        decreases group_pad - q,
    {
        data.push(0);
        q += 1;
        proof {
            assert(data@ =~= after_records + zeros(q as nat));
        }
    }
    proof {
        assert(handle_records(h, offset as int, 0, hs, pad) =~= Seq::<u8>::empty());
        assert(after_records =~= base + handle_records(h, start as int, count as nat, hs, pad));
    }
    offset
}

} // verus!
