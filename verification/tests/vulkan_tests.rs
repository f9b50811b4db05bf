use rustracer::align::compute_aligned_size;
use rustracer::device::{device_order, device_rank, supports_extensions, QueueFamily};
use rustracer::pipeline::ComputePipelineCreateInfo;
use rustracer::rt_pipeline::{shader_groups, RayTracingShaderGroupInfo, ShaderGroupType};
use rustracer::sbt::ShaderBindingTable;
use rustracer::version::Version;
use rustracer::error::Error;
use rustracer::shader::read_shader_from_bytes;
use rustracer::device::PhysicalDeviceType::{Cpu, DiscreteGpu, IntegratedGpu, VirtualGpu};
use rustracer::rt_pipeline::RayTracingShaderGroup::{AnyHit, ClosestHit, Miss, RayGen, ShadowAnyHit, ShadowMiss};

#[test]
fn version_1_3_packs_like_vulkan() {
    let v = Version::from_major_minor(1, 3);
    assert_eq!(v.variant, 0);
    assert_eq!(v.major, 1);
    assert_eq!(v.minor, 3);
    assert_eq!(v.patch, 0);
    assert_eq!(v.make_api_version(), 4206592);
}

#[test]
fn version_fields_pack_into_their_bits() {
    assert_eq!(Version::new(0, 1, 2, 3).make_api_version(), (1 << 22) | (2 << 12) | 3);
    assert_eq!(Version::new(1, 0, 0, 0).make_api_version(), 1 << 29);
    let m = Version::from_major(2);
    assert_eq!((m.variant, m.major, m.minor, m.patch), (0, 2, 0, 0));
    assert_eq!(m.make_api_version(), 2 << 22);
}

#[test]
fn aligned_size_rounds_up_to_alignment() {
    assert_eq!(compute_aligned_size(33, 32), 64);
    assert_eq!(compute_aligned_size(32, 32), 32);
    assert_eq!(compute_aligned_size(0, 16), 0);
    assert_eq!(compute_aligned_size(5, 1), 5);
    assert_eq!(compute_aligned_size(1, 64), 64);
}

#[test]
fn aligned_size_is_idempotent() {
    for (size, alignment) in [(33u32, 32u32), (7, 8), (100, 64), (0, 4)] {
        let once = compute_aligned_size(size, alignment);
        assert_eq!(compute_aligned_size(once, alignment), once);
    }
}

#[test]
fn shader_groups_of_a_full_pipeline() {
    let shaders = [RayGen, Miss, ShadowMiss, ClosestHit, AnyHit, ShadowAnyHit];
    let (info, groups) = shader_groups(&shaders);
    assert_eq!(info.group_count, 5);
    assert_eq!(info.raygen_shader_count, 1);
    assert_eq!(info.miss_shader_count, 2);
    assert_eq!(info.hit_shader_count, 2);
    assert_eq!(groups.len(), 5);
    let unused = u32::MAX;
    for (k, g) in groups.iter().take(3).enumerate() {
        assert_eq!(g.ty, ShaderGroupType::General);
        assert_eq!(g.general_shader, k as u32);
        assert_eq!(g.closest_hit_shader, unused);
        assert_eq!(g.any_hit_shader, unused);
        assert_eq!(g.intersection_shader, unused);
    }
    assert_eq!(groups[3].ty, ShaderGroupType::TrianglesHitGroup);
    assert_eq!(groups[3].general_shader, unused);
    assert_eq!(groups[3].closest_hit_shader, 3);
    assert_eq!(groups[3].any_hit_shader, 4);
    assert_eq!(groups[4].ty, ShaderGroupType::TrianglesHitGroup);
    assert_eq!(groups[4].closest_hit_shader, unused);
    assert_eq!(groups[4].any_hit_shader, 5);
}

#[test]
fn shader_groups_without_any_hit() {
    let (info, groups) = shader_groups(&[RayGen, Miss, ClosestHit]);
    assert_eq!(info.group_count, 3);
    assert_eq!(groups.len(), 3);
    assert_eq!(groups[2].closest_hit_shader, 2);
    assert_eq!(groups[2].any_hit_shader, u32::MAX);
}

#[test]
fn group_count_is_the_sum_of_the_kinds() {
    let (info, _) = shader_groups(&[RayGen, Miss, ShadowMiss, ClosestHit, AnyHit, ShadowAnyHit]);
    assert_eq!(info.group_count, info.raygen_shader_count + info.miss_shader_count + info.hit_shader_count);
}

fn group_info(group_count: u32, raygen: u32, miss: u32, hit: u32) -> RayTracingShaderGroupInfo {
    RayTracingShaderGroupInfo {
        group_count,
        raygen_shader_count: raygen,
        miss_shader_count: miss,
        hit_shader_count: hit,
    }
}

#[test]
fn sbt_layout_pads_regions_to_group_alignment() {
    let l = ShaderBindingTable::layout(32, 32, 64, group_info(4, 1, 2, 1));
    assert_eq!(l.aligned_handle_size, 32);
    assert_eq!(l.handle_pad, 0);
    assert_eq!(l.data_size, 128);
    assert_eq!(l.raygen_region_size, 64);
    assert_eq!(l.miss_region_size, 64);
    assert_eq!(l.hit_region_size, 64);
    assert_eq!(l.buffer_size, 192);
}

#[test]
fn sbt_data_pads_handles_and_regions() {
    let l = ShaderBindingTable::layout(4, 8, 16, group_info(3, 1, 1, 1));
    assert_eq!(l.aligned_handle_size, 8);
    assert_eq!(l.handle_pad, 4);
    assert_eq!(l.data_size, 12);
    assert_eq!(l.buffer_size, 48);
    let handles: Vec<u8> = (1..=12).collect();
    let data = ShaderBindingTable::data(&handles, &l);
    assert_eq!(data.len(), l.buffer_size as usize);
    let mut expected = vec![0u8; 48];
    expected[0..4].copy_from_slice(&[1, 2, 3, 4]);
    expected[16..20].copy_from_slice(&[5, 6, 7, 8]);
    expected[32..36].copy_from_slice(&[9, 10, 11, 12]);
    assert_eq!(data, expected);
}

#[test]
fn sbt_regions_follow_each_other() {
    let l = ShaderBindingTable::layout(32, 32, 64, group_info(4, 1, 2, 1));
    let t = ShaderBindingTable::regions(0x1000, &l);
    assert_eq!((t.raygen_region.device_address, t.raygen_region.stride, t.raygen_region.size), (0x1000, 64, 64));
    assert_eq!((t.miss_region.device_address, t.miss_region.stride, t.miss_region.size), (0x1040, 32, 64));
    assert_eq!((t.hit_region.device_address, t.hit_region.stride, t.hit_region.size), (0x1080, 32, 64));
}

#[test]
fn queue_family_flags() {
    let q = QueueFamily::new(0, 0b11, 4, 64, true);
    assert!(q.supports_graphics());
    assert!(q.supports_compute());
    assert!(q.supports_present());
    assert!(q.has_queues());
    assert!(q.supports_timestamp_queries());
    let c = QueueFamily::new(1, 0b10, 0, 0, false);
    assert!(!c.supports_graphics());
    assert!(c.supports_compute());
    assert!(!c.supports_present());
    assert!(!c.has_queues());
    assert!(!c.supports_timestamp_queries());
    let t = QueueFamily::new(2, 0b100, 1, 0, false);
    assert!(!t.supports_graphics());
    assert!(!t.supports_compute());
}

#[test]
fn device_supports_only_listed_extensions() {
    let supported = vec!["VK_KHR_swapchain".to_string(), "VK_KHR_ray_tracing_pipeline".to_string()];
    assert!(supports_extensions(&supported, &["VK_KHR_swapchain".to_string()]));
    assert!(supports_extensions(&supported, &[]));
    assert!(!supports_extensions(&supported, &["VK_KHR_swapchain".to_string(), "VK_EXT_other".to_string()]));
}

#[test]
fn devices_rank_discrete_first() {
    assert_eq!(device_rank(DiscreteGpu), 0);
    assert_eq!(device_rank(IntegratedGpu), 1);
    assert_eq!(device_rank(Cpu), 2);
    assert_eq!(device_order(&[Cpu, IntegratedGpu, DiscreteGpu, VirtualGpu, DiscreteGpu]), vec![2, 4, 1, 0, 3]);
}

#[test]
fn compute_pipeline_info_holds_the_shader() {
    let bytes = [3u8, 2, 0x23, 7];
    let info = ComputePipelineCreateInfo { shader_source: &bytes };
    assert_eq!(info.shader_source.len(), 4);
}

#[test]
fn spirv_words_are_read_little_endian() {
    let words = read_shader_from_bytes(&[0x03, 0x02, 0x23, 0x07, 0x01, 0x00, 0x00, 0x00, 0x78, 0x56, 0x34, 0x12]).unwrap();
    assert_eq!(words, vec![0x0723_0203, 1, 0x1234_5678]);
}

#[test]
fn byte_swapped_spirv_is_read_big_endian() {
    let words = read_shader_from_bytes(&[0x07, 0x23, 0x02, 0x03, 0x00, 0x00, 0x00, 0x01]).unwrap();
    assert_eq!(words, vec![0x0723_0203, 1]);
}

#[test]
fn spirv_needs_whole_words_and_the_magic_number() {
    match read_shader_from_bytes(&[0x03, 0x02, 0x23]) {
        Err(Error::Load(m)) => assert_eq!(m, "input length not divisible by 4"),
        other => panic!("unexpected {:?}", other),
    }
    for bytes in [vec![], vec![0u8, 0, 0, 0], vec![0x02, 0x03, 0x23, 0x07]] {
        match read_shader_from_bytes(&bytes) {
            Err(Error::Load(m)) => assert_eq!(m, "input missing SPIR-V magic number"),
            other => panic!("unexpected {:?}", other),
        }
    }
}
