use rustracer::accel::{collect_blas_inputs, primitive_to_blas_input, sort_by_geo_id, top_level_instances, BlasInput};
use rustracer::geometry::{is_primitive_supported, sequential_indices, GeoBuilder, PrimInfo, Vertex};
use rustracer::gltf_model::{PrimitiveMode, PrimitiveShape};
use rustracer::image::{Image, TexGamma};
use rustracer::light::{is_dir, report_lights, scene_lights, LightKind, LightType};
use rustracer::material::{AlphaMode, Material, MaterialType, TextureInfo, TextureRef};
use rustracer::model::{mesh_ranges, node_primitives, MeshRange};
use rustracer::scene::{check_indices, subtree_fits, traverse_root_nodes, walkable, SceneNode};
use rustracer::skinning::{
    check_copies_possible, check_meshes_apart, SkinPlan,
    bind_geometries_to_skin, duplicate_mesh_for_node, duplicate_mesh_for_non_affine_transform, mesh_users, skin_plan,
};
use rustracer::skybox::{face_index, Face, SkyBox};
use rustracer::texture::Sampler;


fn material(alpha_mode: AlphaMode, normal: Option<usize>) -> Material {
    Material {
        name: None,
        index: 0,
        unlit: false,
        alpha_mode,
        double_sided: false,
        base_color_texture: TextureInfo::default(),
        metallic_roughness_texture: TextureInfo::default(),
        normal_texture: TextureInfo::new(normal.map(|i| TextureRef { texture_index: i, tex_coord: 0 })),
        emissive_texture: TextureInfo::default(),
        occlusion_texture: TextureInfo::default(),
        material_type: MaterialType::MetallicRoughness,
        has_specular_glossiness: false,
    }
}

fn vertices(attrs: &[u32]) -> Vec<Vertex<u32>> {
    attrs.iter().map(|&a| Vertex { attributes: a, skin_index: -1 }).collect()
}

/// Two geometries: geometry 0 (three vertices, one triangle, opaque material
/// with a normal map) and geometry 1 (four vertices, two triangles, blended
/// material).
fn two_geometries() -> GeoBuilder<u32> {
    let mut b = GeoBuilder::new(&[material(AlphaMode::Opaque, Some(0)), material(AlphaMode::Blend, None)]);
    let g0 = b.add_primitive(vertices(&[10, 11, 12]), vec![0, 1, 2], 0);
    let g1 = b.add_primitive(vertices(&[20, 21, 22, 23]), vec![0, 1, 2, 2, 3, 0], 1);
    assert_eq!((g0, g1), (0, 1));
    b
}

fn node(children: Vec<usize>, mesh: Option<usize>, skin: Option<usize>, light: Option<usize>) -> SceneNode {
    SceneNode { children, mesh, skin, light }
}

#[test]
fn builder_records_offsets_and_lengths() {
    let b = two_geometries();
    assert_eq!(b.geo_counter, 2);
    assert_eq!(b.offsets, vec![[0, 0, 0], [3, 3, 1]]);
    assert_eq!(b.len, vec![[3, 3], [4, 6]]);
    assert_eq!(b.material_id, vec![0, 1]);
    assert_eq!(b.indices, vec![0, 1, 2, 0, 1, 2, 2, 3, 0]);
    assert_eq!(b.normal_textures, vec![true, false]);
    assert_eq!(b.opaque, vec![true, false]);
    assert!(b.is_opaque(0));
    assert!(!b.is_opaque(1));
    assert!(!b.fully_opaque());
    let flat = b.flatten();
    assert_eq!(flat, vec![
        PrimInfo { v_offset: 0, i_offset: 0, material_id: 0, skin_id: 0 },
        PrimInfo { v_offset: 3, i_offset: 3, material_id: 1, skin_id: 0 },
    ]);
    assert_eq!(PrimInfo::new(&[7, 8, 9]), PrimInfo { v_offset: 7, i_offset: 8, material_id: 9, skin_id: 0 });
    let opaque_only = GeoBuilder::<u32>::new(&[material(AlphaMode::Opaque, None)]);
    assert!(opaque_only.fully_opaque());
}

#[test]
fn tangents_are_generated_for_normal_mapped_materials_only() {
    let b = two_geometries();
    assert!(b.needs_generated_tangents(false, true, 0));
    assert!(!b.needs_generated_tangents(true, true, 0));
    assert!(!b.needs_generated_tangents(false, false, 0));
    assert!(!b.needs_generated_tangents(false, true, 1));
    assert!(!b.needs_generated_tangents(false, true, 9));
}

#[test]
fn primitives_without_indices_get_sequential_ones() {
    assert_eq!(sequential_indices(4), vec![0, 1, 2, 3]);
    assert!(sequential_indices(0).is_empty());
}

#[test]
fn only_triangle_lists_with_positions_are_loaded() {
    let tri = PrimitiveShape { has_indices: false, has_positions: true, has_normals: false, mode: PrimitiveMode::Triangles };
    assert!(is_primitive_supported(&tri));
    assert!(!is_primitive_supported(&PrimitiveShape { has_positions: false, ..tri }));
    assert!(!is_primitive_supported(&PrimitiveShape { mode: PrimitiveMode::TriangleStrip, ..tri }));
}

#[test]
fn skinning_in_place_and_by_copy() {
    let mut b = two_geometries();
    b.set_skin_index(0, 5);
    let skins: Vec<i32> = b.vertices.iter().map(|v| v.skin_index).collect();
    assert_eq!(skins, vec![5, 5, 5, -1, -1, -1, -1]);
    let id = b.duplicate_geometry(1, 2);
    assert_eq!(id, 2);
    assert_eq!(b.geo_counter, 3);
    assert_eq!(b.vertices.len(), 11);
    let copy: Vec<(u32, i32)> = b.vertices[7..].iter().map(|v| (v.attributes, v.skin_index)).collect();
    assert_eq!(copy, vec![(20, 2), (21, 2), (22, 2), (23, 2)]);
    assert_eq!(&b.indices[9..], &[0, 1, 2, 2, 3, 0]);
    assert_eq!(b.offsets[2], [7, 9, 1]);
    assert_eq!(b.len[2], [4, 6]);
    assert_eq!(b.material_id, vec![0, 1, 1]);
}

#[test]
fn blas_inputs_address_triangles_in_bytes() {
    let b = two_geometries();
    let i = primitive_to_blas_input(&b, 1);
    assert_eq!(i, BlasInput { geo_id: 1, max_vertex: 4, first_vertex: 3, primitive_count: 2, primitive_offset: 12, opaque: false });
    let all = collect_blas_inputs(&b, &vec![vec![1], vec![0]]);
    assert_eq!(all, vec![primitive_to_blas_input(&b, 0), primitive_to_blas_input(&b, 1)]);
}

#[test]
fn blas_sort_is_stable() {
    let input = |geo_id: u32, max_vertex: u32| BlasInput {
        geo_id,
        max_vertex,
        first_vertex: 0,
        primitive_count: 1,
        primitive_offset: 0,
        opaque: true,
    };
    let sorted = sort_by_geo_id(&vec![input(2, 1), input(0, 2), input(2, 3), input(1, 4), input(0, 5)]);
    let keys: Vec<(u32, u32)> = sorted.iter().map(|i| (i.geo_id, i.max_vertex)).collect();
    assert_eq!(keys, vec![(0, 2), (0, 5), (1, 4), (2, 1), (2, 3)]);
}

#[test]
fn instances_follow_the_visit_order() {
    let nodes = vec![node(vec![1], Some(0), None, None), node(vec![], Some(1), Some(0), None)];
    let ins = top_level_instances(&nodes, &[0, 1], &vec![vec![0], vec![1, 0]], &[100, 200]);
    let got: Vec<(usize, bool, u32, u8, u64)> =
        ins.iter().map(|i| (i.node, i.world_transform, i.custom_index, i.mask, i.blas_address)).collect();
    assert_eq!(got, vec![(0, true, 0, 0xff, 100), (1, false, 1, 0xff, 200), (1, false, 0, 0xff, 100)]);
}

#[test]
fn instance_custom_index_keeps_24_bits() {
    let g: u32 = (1 << 24) + 5;
    let mut addresses = vec![0u64; g as usize + 1];
    addresses[g as usize] = 42;
    let nodes = vec![node(vec![], Some(0), None, None)];
    let ins = top_level_instances(&nodes, &[0], &vec![vec![g]], &addresses);
    assert_eq!(ins.len(), 1);
    assert_eq!(ins[0].custom_index, 5);
    assert_eq!(ins[0].mask, 0xff);
    assert_eq!(ins[0].blas_address, 42);
}

#[test]
fn repeated_meshes_reuse_their_ranges() {
    let counts = vec![vec![(3, 3), (4, 6)], vec![(2, 3)]];
    let ranges = mesh_ranges(&[0, 1, 0], &counts);
    let r = |vertex_offset, vertex_count, index_offset, index_count| MeshRange {
        vertex_offset,
        vertex_count,
        index_offset,
        index_count,
    };
    assert_eq!(ranges, vec![r(0, 3, 0, 3), r(3, 4, 3, 6), r(7, 2, 9, 3), r(0, 3, 0, 3), r(3, 4, 3, 6)]);
}

#[test]
fn nodes_address_the_ranges_of_their_mesh() {
    let counts = vec![vec![(3, 3), (4, 6)], vec![(2, 3)]];
    let pairs = node_primitives(&[Some(1), None, Some(0)], &counts);
    assert_eq!(pairs, vec![(0, 2), (2, 0), (2, 1)]);
    let ranges = mesh_ranges(&[0, 1], &counts);
    assert_eq!(ranges[pairs[0].1], MeshRange { vertex_offset: 7, vertex_count: 2, index_offset: 9, index_count: 3 });
    assert_eq!(ranges[pairs[2].1].vertex_count, 4);
}

/// Node 0 holds nodes 1 and 2, which share mesh 0 (node 1 skinned, node 2
/// not); node 3, a root, is the only user of mesh 1 and is skinned.
fn skinned_scene() -> Vec<SceneNode> {
    vec![
        node(vec![1, 2], None, None, None),
        node(vec![], Some(0), Some(0), None),
        node(vec![], Some(0), None, None),
        node(vec![], Some(1), Some(1), None),
    ]
}

#[test]
fn scene_walk_is_parent_first() {
    let nodes = skinned_scene();
    assert_eq!(traverse_root_nodes(&nodes, &[0, 3]), vec![0, 1, 2, 3]);
    assert_eq!(traverse_root_nodes(&nodes, &[3, 0]), vec![3, 0, 1, 2]);
    let deep = vec![node(vec![2], None, None, None), node(vec![], None, None, None), node(vec![1], None, None, None)];
    assert_eq!(traverse_root_nodes(&deep, &[0]), vec![0, 2, 1]);
    assert!(traverse_root_nodes(&deep, &[]).is_empty());
}

#[test]
fn table_indices_must_match_positions() {
    assert!(check_indices(&[0, 1, 2]));
    assert!(check_indices(&[]));
    assert!(!check_indices(&[0, 2]));
}

#[test]
fn mesh_users_and_plans() {
    let nodes = skinned_scene();
    let users = mesh_users(&nodes, &[0, 1, 2, 3, 1], 2);
    assert_eq!(users, vec![vec![(1, true), (2, false)], vec![(3, true)]]);
    let p0 = skin_plan(&users[0]);
    assert_eq!((p0.in_place, p0.duplicate), (None, vec![1]));
    let p1 = skin_plan(&users[1]);
    assert_eq!((p1.in_place, p1.duplicate), (Some(3), vec![]));
    let p2 = skin_plan(&[(5, true), (6, true)]);
    assert_eq!((p2.in_place, p2.duplicate), (Some(6), vec![5]));
    let p3 = skin_plan(&[(1, false)]);
    assert_eq!((p3.in_place, p3.duplicate), (None, vec![]));
}

#[test]
fn binding_a_mesh_to_a_skin() {
    let mut b = two_geometries();
    bind_geometries_to_skin(&mut b, &[1, 0], 7);
    let skins: Vec<i32> = b.vertices.iter().map(|v| v.skin_index).collect();
    assert_eq!(skins, vec![7; 7]);
}

#[test]
fn copying_a_mesh_for_a_node() {
    let mut nodes = skinned_scene();
    let mut meshes = vec![vec![0], vec![1]];
    let mut b = two_geometries();
    duplicate_mesh_for_node(&mut nodes, &mut meshes, &mut b, 1, 3);
    assert_eq!(meshes, vec![vec![0], vec![1], vec![2]]);
    assert_eq!(nodes[3].mesh, Some(2));
    assert_eq!(nodes[3].skin, Some(1));
    let copy: Vec<(u32, i32)> = b.vertices[7..].iter().map(|v| (v.attributes, v.skin_index)).collect();
    assert_eq!(copy, vec![(20, 1), (21, 1), (22, 1), (23, 1)]);
    assert_eq!(b.offsets[2], [7, 9, 1]);
}

#[test]
fn skinned_nodes_get_vertices_of_their_own() {
    let mut nodes = skinned_scene();
    let mut meshes = vec![vec![0], vec![1]];
    let mut b = two_geometries();
    let order = traverse_root_nodes(&nodes, &[0, 3]);
    duplicate_mesh_for_non_affine_transform(&mut nodes, &mut meshes, &mut b, &order);
    // Mesh 0 is shared with a static node: node 1 gets a copy (mesh 2).
    assert_eq!(meshes, vec![vec![0], vec![1], vec![2]]);
    assert_eq!(nodes[1].mesh, Some(2));
    assert_eq!(nodes[2].mesh, Some(0));
    // Mesh 1 has only skinned users: node 3 takes it in place.
    assert_eq!(nodes[3].mesh, Some(1));
    let v: Vec<(u32, i32)> = b.vertices.iter().map(|v| (v.attributes, v.skin_index)).collect();
    assert_eq!(v, vec![(10, -1), (11, -1), (12, -1), (20, 1), (21, 1), (22, 1), (23, 1), (10, 0), (11, 0), (12, 0)]);
    assert_eq!(b.offsets[2], [7, 9, 0]);
    assert_eq!(b.len[2], [3, 3]);
    assert_eq!(b.geo_counter, 3);
    // Every skinned node of the walk now draws a mesh of its own.
    for &n in order.iter().filter(|&&n| nodes[n].skin.is_some()) {
        for &other in order.iter().filter(|&&o| o != n) {
            assert_ne!(nodes[other].mesh, nodes[n].mesh);
        }
    }
}

#[test]
fn meshes_used_only_by_skinned_nodes_keep_one_in_place() {
    // Nodes 1 and 2 both draw mesh 0 and both are skinned.
    let mut nodes = vec![
        node(vec![1, 2], None, None, None),
        node(vec![], Some(0), Some(0), None),
        node(vec![], Some(0), Some(1), None),
    ];
    let mut meshes = vec![vec![]];
    let mut b = GeoBuilder::<u32>::new(&[material(AlphaMode::Opaque, None)]);
    let order = traverse_root_nodes(&nodes, &[0]);
    duplicate_mesh_for_non_affine_transform(&mut nodes, &mut meshes, &mut b, &order);
    assert_eq!(nodes[2].mesh, Some(0));
    assert_eq!(nodes[1].mesh, Some(1));
    assert_eq!(meshes, vec![vec![], vec![]]);
}

#[test]
fn spot_lights_are_drawn_as_point_lights() {
    assert_eq!(LightType::from_kind(LightKind::Directional), LightType::DIRECTIONAL);
    assert_eq!(LightType::from_kind(LightKind::Point), LightType::POINT);
    assert_eq!(LightType::from_kind(LightKind::Spot), LightType::POINT);
    assert_eq!((LightType::DIRECTIONAL.code(), LightType::POINT.code(), LightType::SPOT.code()), (0, 1, 2));
    assert!(is_dir(0));
    assert!(!is_dir(1));
    assert!(!is_dir(2));
}

#[test]
fn lights_are_counted_by_type() {
    assert_eq!(report_lights(&[LightType::DIRECTIONAL, LightType::POINT, LightType::POINT, LightType::SPOT]), (1, 2));
    assert_eq!(report_lights(&[]), (0, 0));
}

#[test]
fn scene_lights_split_by_type() {
    let nodes = vec![
        node(vec![1, 2], None, None, Some(1)),
        node(vec![], None, None, Some(0)),
        node(vec![], None, None, None),
    ];
    let types = [LightType::DIRECTIONAL, LightType::POINT];
    let l = scene_lights(&nodes, &[0, 1, 2], &types);
    assert_eq!(l.directional, vec![(1, 0)]);
    assert_eq!(l.point, vec![(0, 1)]);
    assert!(!l.add_default_directional);
    assert_eq!(l.random_point_lights, 0);
    let none = scene_lights(&nodes, &[2], &types);
    assert!(none.directional.is_empty() && none.point.is_empty());
    assert!(none.add_default_directional);
    assert_eq!(none.random_point_lights, 5);
}

#[test]
fn face_names_give_cube_map_layers() {
    for (name, layer) in [
        ("posx.png", 0),
        ("negx.jpg", 1),
        ("posy.png", 2),
        ("negy.png", 3),
        ("posz.png", 4),
        ("negz.png", 5),
        ("right.jpg", 0),
        ("left.png", 1),
        ("top.png", 2),
        ("bottom.png", 3),
        ("front.png", 4),
        ("back.png", 5),
        ("back", 5),
        ("top.hdr.png", 2),
    ] {
        assert_eq!(Face::get_index(name), layer, "{}", name);
    }
}

#[test]
fn faces_load_in_layer_order() {
    let names: Vec<String> =
        ["back.png", "right.png", "left.png", "top.png", "bottom.png", "front.png"].iter().map(|s| s.to_string()).collect();
    assert_eq!(SkyBox::face_order(&names), vec![1, 2, 3, 4, 5, 0]);
}

fn face(pixels: Vec<u8>, width: u32, height: u32) -> Image {
    Image { pixels, width, height, source: None, index: 0, gamma: TexGamma::Linear }
}

#[test]
fn skybox_reads_its_faces() {
    let images = vec![face(vec![1, 2, 3, 4], 1, 1), face(vec![5, 6, 7, 8, 9, 10, 11, 12], 2, 3)];
    assert_eq!(SkyBox::collect_pixels(&images), vec![1, 2, 3, 4, 5, 6, 7, 8, 9, 10, 11, 12]);
    let sky = SkyBox { images, sampler: Sampler::default(), collector: vec![] };
    assert_eq!(sky.get_total_size(), 12);
    assert_eq!(sky.get_extents(), [1, 3]);
    assert_eq!(sky.get_gamma(), TexGamma::Linear);
}

#[test]
fn other_names_are_no_faces() {
    assert_eq!(face_index("sky.png"), None);
    assert_eq!(face_index("posx2.png"), None);
    assert_eq!(face_index(""), None);
    assert_eq!(face_index("right.png"), Some(0));
    assert_eq!(face_index("negy"), Some(3));
}

#[test]
fn only_acyclic_scenes_are_walkable() {
    let nodes = skinned_scene();
    assert!(walkable(&nodes, &[0, 3]));
    assert!(subtree_fits(&nodes, 0, 2));
    assert!(!subtree_fits(&nodes, 0, 1));
    let cyclic = vec![node(vec![1], None, None, None), node(vec![0], None, None, None)];
    assert!(!walkable(&cyclic, &[0]));
    let dangling = vec![node(vec![5], None, None, None)];
    assert!(!walkable(&dangling, &[0]));
    assert!(walkable(&dangling, &[]));
}

#[test]
fn sorted_blas_inputs_sit_at_their_geometry_id() {
    let mut b = two_geometries();
    assert_eq!(b.add_primitive(vertices(&[30, 31, 32]), vec![0, 1, 2], 0), 2);
    let inputs = collect_blas_inputs(&b, &vec![vec![2, 0], vec![], vec![1]]);
    for (g, input) in inputs.iter().enumerate() {
        assert_eq!(input.geo_id as usize, g);
    }
    assert_eq!(inputs.len(), 3);
}

#[test]
fn recorded_ranges_stay_within_the_buffers() {
    let b = two_geometries();
    assert_eq!(b.offsets.len(), b.len.len());
    assert_eq!(b.len.len(), b.material_id.len());
    assert_eq!(b.material_id.len(), b.geo_counter as usize);
    for g in 0..b.offsets.len() {
        assert!(b.offsets[g][0] as usize + b.len[g][0] <= b.vertices.len());
        assert!(b.offsets[g][1] as usize + b.len[g][1] <= b.indices.len());
    }
}

#[test]
fn skinning_preconditions_are_checked() {
    let mut b = two_geometries();
    assert!(check_meshes_apart(&b, &vec![vec![0], vec![1]]));
    assert!(!check_meshes_apart(&b, &vec![vec![0, 0]]));
    assert!(!check_meshes_apart(&b, &vec![vec![5]]));
    let plans = vec![
        SkinPlan { in_place: None, duplicate: vec![1] },
        SkinPlan { in_place: Some(3), duplicate: vec![] },
    ];
    assert!(check_copies_possible(&b, &vec![vec![0], vec![1]], &plans));
    let both = vec![SkinPlan { in_place: Some(3), duplicate: vec![1] }, SkinPlan { in_place: None, duplicate: vec![] }];
    assert!(!check_copies_possible(&b, &vec![vec![0], vec![1]], &both));
    b.geo_counter = u32::MAX - 1;
    assert!(!check_copies_possible(&b, &vec![vec![0], vec![1]], &plans));
    b.set_skin_index(0, 4);
    assert!(!check_meshes_apart(&b, &vec![vec![0], vec![1]]));
}

#[test]
fn blas_readiness_checks_every_table() {
    let b = two_geometries();
    assert!(rustracer::accel::is_blas_ready(&b, 0));
    assert!(rustracer::accel::is_blas_ready(&b, 1));
    assert!(!rustracer::accel::is_blas_ready(&b, 2));
    let mut odd = GeoBuilder::<u32>::new(&[material(AlphaMode::Opaque, None)]);
    odd.add_primitive(vertices(&[1, 2]), vec![0, 1], 0);
    assert!(!rustracer::accel::is_blas_ready(&odd, 0));
    let mut no_material = GeoBuilder::<u32>::new(&[]);
    no_material.add_primitive(vertices(&[1, 2, 3]), vec![0, 1, 2], 0);
    assert!(!rustracer::accel::is_blas_ready(&no_material, 0));
}
