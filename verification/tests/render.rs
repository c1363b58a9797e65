use mesh_ripper::features::Features;
use mesh_ripper::render::{FeatureAwareRenderer, PointRenderOptions, RenderKind};

type Renderer = FeatureAwareRenderer<u8>;

#[test]
fn indexed_meshes_are_drawn_connected() {
    assert_eq!(Renderer::renderer(&Features::new(Some(3), Some(3), true)), RenderKind::Connected);
    assert_eq!(Renderer::renderer(&Features::new(Some(3), None, false)), RenderKind::Unconnected);
    assert_eq!(Renderer::renderer(&Features::new(None, None, false)), RenderKind::Unconnected);
}

#[test]
fn renderer_keeps_its_handle() {
    assert_eq!(*Renderer::new(9).handle(), 9);
}

#[test]
fn sample_has_the_asked_size() {
    let cloud = Features::new(Some(1000), None, false);
    let sample = Renderer::sample_indices(&cloud, 100);
    assert_eq!(sample.len(), 100);
    assert!(sample.iter().all(|index| *index < 1000));
    let mut distinct = sample.clone();
    distinct.sort();
    distinct.dedup();
    assert_eq!(distinct.len(), 100);
}

#[test]
fn sample_of_a_small_mesh_is_the_whole_mesh() {
    let cloud = Features::new(Some(5), None, false);
    let mut sample = Renderer::sample_indices(&cloud, 100);
    sample.sort();
    assert_eq!(sample, vec![0, 1, 2, 3, 4]);
    let mut sample = Renderer::sample_indices(&cloud, usize::MAX);
    sample.sort();
    assert_eq!(sample, vec![0, 1, 2, 3, 4]);
}

#[test]
fn sample_of_nothing_is_empty() {
    assert!(Renderer::sample_indices(&Features::new(None, None, false), 10).is_empty());
    assert!(Renderer::sample_indices(&Features::new(Some(0), None, false), 10).is_empty());
    assert!(Renderer::sample_indices(&Features::new(Some(10), None, false), 0).is_empty());
}

#[test]
fn point_options_are_two() {
    assert_ne!(PointRenderOptions::Sphere, PointRenderOptions::Directional);
}

#[test]
fn features_report_what_a_mesh_has() {
    let mesh = Features::new(Some(8), None, true);
    assert!(mesh.has_vertices());
    assert!(mesh.has_indices());
    assert!(!mesh.has_normals());
    assert!(!mesh.has_velocities());
    assert_eq!(mesh.vertices(), Some(8));
    assert_eq!(mesh.normals(), None);
    assert_eq!(mesh.velocities(), None);
    assert!(mesh.indices());
    let cloud = Features::new(Some(8), Some(8), false);
    assert!(cloud.has_normals());
    assert!(cloud.has_velocities());
    assert_eq!(cloud.velocities(), Some(8));
    assert!(!cloud.has_indices());
    assert!(!Features::new(None, None, false).has_vertices());
}

#[test]
fn render_cache_keeps_one_mesh_per_option() {
    let mut cache: mesh_ripper::render::RenderCache<&str> = mesh_ripper::render::RenderCache::new();
    assert_eq!(cache.get(&PointRenderOptions::Sphere), None);
    assert_eq!(cache.insert(PointRenderOptions::Sphere, "ball"), None);
    assert_eq!(cache.insert(PointRenderOptions::Directional, "arrow"), None);
    assert_eq!(cache.insert(PointRenderOptions::Sphere, "orb"), Some("ball"));
    assert_eq!(cache.get(&PointRenderOptions::Sphere), Some(&"orb"));
    assert_eq!(cache.get(&PointRenderOptions::Directional), Some(&"arrow"));
    cache.clear();
    assert_eq!(cache.get(&PointRenderOptions::Sphere), None);
    assert_eq!(cache.get(&PointRenderOptions::Directional), None);
}
