use baldej::assets::AssetManager;
use baldej::navigation::navmesh_polygons;
use baldej::physics::{resolve_collision_groups, trimesh_triangles, CollisionGroups};
use baldej::render_order::{draw_order, quicksort, render_layer_from_index, reversed, RenderLayer};
use baldej::shaders::{get_full_asset_path, ShaderAsset, ShaderAssetPath, ShaderError};

#[test]
fn collision_groups_are_bits() {
    assert_eq!(CollisionGroups::group(1).bits, 1);
    assert_eq!(CollisionGroups::group(3).bits, 4);
    assert_eq!(CollisionGroups::group(32).bits, 1 << 31);
    let g = CollisionGroups::group(1).union(CollisionGroups::group(3));
    assert_eq!(g.bits, 5);
    assert!(g.contains_group(1));
    assert!(!g.contains_group(2));
    assert!(g.contains_group(3));
}

#[test]
fn missing_collision_groups_default_to_the_first() {
    let (m, f) = resolve_collision_groups(None, Some(CollisionGroups::group(2)));
    assert_eq!(m.bits, 1);
    assert_eq!(f.bits, 2);
    let (m, f) = resolve_collision_groups(Some(CollisionGroups { bits: 6 }), None);
    assert_eq!(m.bits, 6);
    assert_eq!(f, CollisionGroups::group1());
}

#[test]
fn trimesh_keeps_every_full_triple() {
    assert_eq!(trimesh_triangles(&vec![0, 1, 2, 3, 4, 5, 6]), vec![[0, 1, 2], [3, 4, 5]]);
    assert_eq!(trimesh_triangles(&vec![0, 1, 2]), vec![[0, 1, 2]]);
    assert_eq!(trimesh_triangles(&vec![0, 1, 2, 3, 4, 5]), vec![[0, 1, 2], [3, 4, 5]]);
    assert_eq!(trimesh_triangles(&vec![]), Vec::<[u32; 3]>::new());
    assert_eq!(trimesh_triangles(&vec![7, 8]), Vec::<[u32; 3]>::new());
}

#[test]
fn navmesh_polygons_take_whole_triples() {
    let (polygons, types) = navmesh_polygons(&vec![0, 1, 2, 3, 4, 5, 6, 7]);
    assert_eq!(polygons, vec![vec![0, 1, 2], vec![3, 4, 5]]);
    assert_eq!(types, vec![0, 0]);
    let (polygons, types) = navmesh_polygons(&vec![1, 2]);
    assert!(polygons.is_empty() && types.is_empty());
}

#[test]
fn quicksort_orders_by_key() {
    let mut v = vec![(5, 0), (1, 1), (3, 2), (1, 3), (0, 4)];
    quicksort(&mut v);
    let keys: Vec<u32> = v.iter().map(|e| e.0).collect();
    assert_eq!(keys, vec![0, 1, 1, 3, 5]);
    let mut items: Vec<usize> = v.iter().map(|e| e.1).collect();
    items.sort();
    assert_eq!(items, vec![0, 1, 2, 3, 4]);
    let mut empty: Vec<(u32, usize)> = vec![];
    quicksort(&mut empty);
    assert!(empty.is_empty());
}

#[test]
fn reversed_reverses() {
    assert_eq!(reversed(&vec![(1, 0), (2, 1), (3, 2)]), vec![(3, 2), (2, 1), (1, 0)]);
}

#[test]
fn draw_order_puts_opaque_near_first_and_transparent_far_first() {
    let (opaque, transparent) = draw_order(&vec![(5, false), (2, true), (1, false), (9, true)]);
    assert_eq!(opaque, vec![(1, 2), (5, 0)]);
    assert_eq!(transparent, vec![(9, 3), (2, 1)]);
}

#[test]
fn render_layers_from_script_numbers() {
    assert_eq!(render_layer_from_index(None), (RenderLayer::Layer1, true));
    assert_eq!(render_layer_from_index(Some(0)), (RenderLayer::Layer1, true));
    assert_eq!(render_layer_from_index(Some(1)), (RenderLayer::Layer1, true));
    assert_eq!(render_layer_from_index(Some(2)), (RenderLayer::Layer2, true));
    assert_eq!(render_layer_from_index(Some(3)), (RenderLayer::Layer1, false));
}

#[test]
fn asset_paths_sit_beside_the_executable() {
    assert_eq!(
        get_full_asset_path("/home/u/game/baldej", "models/a.gltf", false),
        "/home/u/game/assets/models/a.gltf"
    );
    assert_eq!(get_full_asset_path("baldej", "x.png", false), "assets/x.png");
    assert_eq!(
        get_full_asset_path("/opt/g/run", "shaders/a.vert", true),
        "\\opt\\g\\assets\\shaders\\a.vert"
    );
}

fn reader(path: &str) -> Option<String> {
    match path {
        "shaders/default.vert" => Some("vertex".to_string()),
        "shaders/default.frag" => Some("fragment".to_string()),
        "shaders/shadow_map.vert" => Some("shadow vertex".to_string()),
        "shaders/default_instanced.vert" => Some("iv".to_string()),
        "shaders/default_instanced.frag" => Some("if".to_string()),
        _ => None,
    }
}

#[test]
fn default_shader_reads_both_sources() {
    let shader = ShaderAsset::load_default_shader(reader).unwrap();
    assert_eq!(shader.vertex_shader_source, "vertex");
    assert_eq!(shader.fragment_shader_source, "fragment");
    let instanced = ShaderAsset::load_default_instanced_shader(reader).unwrap();
    assert_eq!(instanced.vertex_shader_source, "iv");
    assert_eq!(instanced.fragment_shader_source, "if");
}

#[test]
fn shader_errors_name_the_missing_source() {
    assert_eq!(ShaderAsset::load_shadow_shader(reader).err(), Some(ShaderError::FragShaderLoadErr));
    assert_eq!(
        ShaderAsset::load_default_framebuffer_shader(reader).err(),
        Some(ShaderError::VertShaderLoadErr)
    );
}

#[test]
fn preloading_a_shader_stores_it() {
    let mut assets: AssetManager<u8, u8, u8, ShaderAsset> = AssetManager::new();
    let path = ShaderAssetPath {
        vertex_shader_path: "shaders/default.vert".to_string(),
        fragment_shader_path: "shaders/default.frag".to_string(),
    };
    assert_eq!(ShaderAsset::preload_shader_asset(&mut assets, "lit".to_string(), path.clone(), reader), Ok(()));
    let id = assets.get_shader_asset_id("lit").unwrap();
    assert_eq!(assets.get_shader_asset(&id).unwrap().fragment_shader_source, "fragment");
    assert_eq!(ShaderAsset::preload_shader_asset(&mut assets, "lit".to_string(), path, reader), Err(()));
    let broken = ShaderAssetPath {
        vertex_shader_path: "nope".to_string(),
        fragment_shader_path: "shaders/default.frag".to_string(),
    };
    assert_eq!(ShaderAsset::preload_shader_asset(&mut assets, "other".to_string(), broken, reader), Err(()));
    assert!(assets.get_shader_asset_id("other").is_none());
}
