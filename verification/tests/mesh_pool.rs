use mesh_ripper::features::Features;
use mesh_ripper::mesh_pool::{FrameAction, FrameDirection, MeshPool};

type Pool = MeshPool<u32, &'static str>;

fn shown(action: FrameAction<u32>) -> (Vec<u32>, usize) {
    match action {
        FrameAction::Show { despawn, index } => (despawn, index),
        FrameAction::Wait => panic!("nothing is shown"),
    }
}

fn waits(action: FrameAction<u32>) -> bool {
    matches!(action, FrameAction::Wait)
}

#[test]
fn new_pool_is_paused_at_the_first_frame() {
    let pool = Pool::new(3, 100, 1000);
    assert_eq!(pool.num_fluids, 3);
    assert_eq!(pool.advance_every, 100);
    assert_eq!(pool.sample_size, 1000);
    assert!(pool.paused);
    assert!(!pool.have_displayed);
    assert_eq!(pool.current_mesh_index, 0);
    assert_eq!(pool.frame_direction, FrameDirection::Forward);
    assert_eq!(FrameDirection::default(), FrameDirection::Forward);
    assert!(pool.sampled_indices().is_empty());
    assert!(pool.current_mesh_handle().is_none());
}

#[test]
fn advance_wraps_around() {
    let mut pool = Pool::new(3, 100, 10);
    let mut seen = Vec::new();
    for _ in 0..7 {
        seen.push(pool.current_mesh_index);
        pool.advance();
    }
    assert_eq!(seen, vec![0, 1, 2, 0, 1, 2, 0]);
}

#[test]
fn retreat_wraps_from_the_first_to_the_last() {
    let mut pool = Pool::new(3, 100, 10);
    pool.retreat();
    assert_eq!(pool.current_mesh_index, 2);
    pool.retreat();
    assert_eq!(pool.current_mesh_index, 1);
    pool.retreat();
    assert_eq!(pool.current_mesh_index, 0);
}

#[test]
fn no_frames_no_move() {
    let mut pool = Pool::new(0, 100, 10);
    pool.advance();
    assert_eq!(pool.current_mesh_index, 0);
    pool.retreat();
    assert_eq!(pool.current_mesh_index, 0);
    pool.paused = false;
    pool.have_displayed = true;
    assert!(waits(pool.update_fluid(1000, 0)));
    assert_eq!(pool.current_mesh_index, 0);
}

#[test]
fn advance_folds_an_index_past_the_frames() {
    let mut pool = Pool::new(3, 100, 10);
    pool.current_mesh_index = 7;
    pool.advance();
    assert_eq!(pool.current_mesh_index, 2);
    pool.current_mesh_index = usize::MAX;
    pool.advance();
    assert_eq!(pool.current_mesh_index, (usize::MAX % 3 + 1) % 3);
}

#[test]
fn reset_goes_to_the_first_frame() {
    let mut pool = Pool::new(5, 100, 10);
    pool.advance();
    pool.advance();
    pool.reset();
    assert_eq!(pool.current_mesh_index, 0);
}

#[test]
fn needs_update_is_period_gated() {
    let mut pool = Pool::new(3, 100, 10);
    assert!(pool.needs_update(0));
    pool.have_displayed = true;
    assert!(!pool.needs_update(1_000_000));
    pool.paused = false;
    assert!(!pool.needs_update(100));
    assert!(pool.needs_update(101));
    assert!(pool.needs_update(u128::MAX));
    pool.currently_advanced = 60;
    assert!(!pool.needs_update(40));
    assert!(pool.needs_update(41));
    assert!(pool.needs_update(u128::MAX));
}

#[test]
fn first_tick_shows_the_current_frame_even_when_paused() {
    let mut pool = Pool::new(3, 100, 10);
    assert!(pool.paused);
    let (despawn, index) = shown(pool.update_fluid(1, 3));
    assert!(despawn.is_empty());
    assert_eq!(index, 0);
    assert!(pool.have_displayed);
    assert!(waits(pool.update_fluid(1_000, 3)));
    assert_eq!(pool.current_mesh_index, 0);
    assert_eq!(pool.currently_advanced, 0);
}

#[test]
fn first_tick_waits_for_a_loaded_frame() {
    let mut pool = Pool::new(0, 100, 10);
    assert!(waits(pool.update_fluid(1, 0)));
    assert!(!pool.have_displayed);
    pool.num_fluids = 2;
    let (_, index) = shown(pool.update_fluid(1, 2));
    assert_eq!(index, 0);
    assert!(pool.have_displayed);
}

#[test]
fn playing_pool_moves_once_the_period_is_exceeded() {
    let mut pool = Pool::new(3, 100, 10);
    pool.paused = false;
    let (_, index) = shown(pool.update_fluid(30, 3));
    assert_eq!(index, 0);
    pool.spawn_mesh("mesh0", vec![7, 8]);
    assert!(waits(pool.update_fluid(60, 3)));
    assert_eq!(pool.currently_advanced, 60);
    assert!(waits(pool.update_fluid(40, 3)));
    assert_eq!(pool.currently_advanced, 100);
    let (despawn, index) = shown(pool.update_fluid(1, 3));
    assert_eq!(despawn, vec![7, 8]);
    assert_eq!(index, 1);
    assert_eq!(pool.currently_advanced, 0);
    assert_eq!(pool.current_mesh_index, 1);
    pool.spawn_mesh("mesh1", vec![9]);
    let (despawn, index) = shown(pool.update_fluid(500, 3));
    assert_eq!(despawn, vec![9]);
    assert_eq!(index, 2);
    let (despawn, index) = shown(pool.update_fluid(500, 3));
    assert!(despawn.is_empty());
    assert_eq!(index, 0);
}

#[test]
fn playing_backward_retreats() {
    let mut pool = Pool::new(3, 100, 10);
    pool.paused = false;
    pool.frame_direction = FrameDirection::Back;
    pool.have_displayed = true;
    let (_, index) = shown(pool.update_fluid(101, 3));
    assert_eq!(index, 2);
    let (_, index) = shown(pool.update_fluid(101, 3));
    assert_eq!(index, 1);
}

#[test]
fn paused_pool_gathers_no_time() {
    let mut pool = Pool::new(3, 100, 10);
    pool.have_displayed = true;
    assert!(waits(pool.update_fluid(1_000, 3)));
    assert_eq!(pool.currently_advanced, 0);
    assert_eq!(pool.current_mesh_index, 0);
}

#[test]
fn scrub_steps_only_while_paused() {
    let mut pool = Pool::new(3, 100, 10);
    pool.spawn_mesh("mesh0", vec![1]);
    let (despawn, index) = shown(pool.scrub(FrameDirection::Back));
    assert_eq!(despawn, vec![1]);
    assert_eq!(index, 2);
    let (despawn, index) = shown(pool.scrub(FrameDirection::Forward));
    assert!(despawn.is_empty());
    assert_eq!(index, 0);
    pool.paused = false;
    assert!(waits(pool.scrub(FrameDirection::Forward)));
    assert_eq!(pool.current_mesh_index, 0);
}

#[test]
fn redraw_shows_the_current_frame_again() {
    let mut pool = Pool::new(3, 100, 10);
    pool.advance();
    pool.spawn_mesh("mesh1", vec![4, 5]);
    let (despawn, index) = shown(pool.redraw());
    assert_eq!(despawn, vec![4, 5]);
    assert_eq!(index, 1);
    let (despawn, _) = shown(pool.redraw());
    assert!(despawn.is_empty());
}

#[test]
fn despawn_hands_out_the_entities_once() {
    let mut pool = Pool::new(3, 100, 10);
    assert!(pool.despawn_mesh().is_empty());
    pool.spawn_mesh("mesh", vec![1, 2, 3]);
    assert_eq!(pool.current_mesh_handle(), Some(&"mesh"));
    assert_eq!(pool.despawn_mesh(), vec![1, 2, 3]);
    assert!(pool.despawn_mesh().is_empty());
    assert_eq!(pool.current_mesh_handle(), Some(&"mesh"));
}

#[test]
fn clear_forgets_mesh_and_sample() {
    let mut pool = Pool::new(3, 100, 4);
    let cloud = Features::new(Some(10), None, false);
    pool.advance();
    pool.prepare_sample(Some(&cloud));
    pool.spawn_mesh("mesh", vec![1]);
    assert_eq!(pool.sampled_indices().len(), 4);
    assert_eq!(pool.clear(), vec![1]);
    assert_eq!(pool.current_mesh_index, 0);
    assert!(pool.current_mesh_handle().is_none());
    assert!(pool.sampled_indices().is_empty());
    assert!(pool.clear().is_empty());
}

#[test]
fn current_mesh_reads_the_loaded_list() {
    let loaded = vec![(String::from("a"), "mesh a"), (String::from("b"), "mesh b")];
    let mut pool = Pool::new(2, 100, 10);
    assert_eq!(pool.current_mesh(&loaded), Some(&(String::from("a"), "mesh a")));
    pool.advance();
    assert_eq!(pool.current_mesh(&loaded), Some(&(String::from("b"), "mesh b")));
    pool.current_mesh_index = 2;
    assert_eq!(pool.current_mesh(&loaded), None);
    assert_eq!(pool.current_mesh(&Vec::new()), None);
}

#[test]
fn sample_is_drawn_when_size_or_mesh_changes() {
    let mut pool = Pool::new(3, 100, 4);
    let cloud = Features::new(Some(10), Some(10), false);
    pool.prepare_sample(None);
    assert!(pool.sampled_indices().is_empty());
    pool.prepare_sample(Some(&cloud));
    let first = pool.sampled_indices().clone();
    assert_eq!(first.len(), 4);
    assert!(first.iter().all(|index| *index < 10));
    let mut sorted = first.clone();
    sorted.sort();
    sorted.dedup();
    assert_eq!(sorted.len(), 4);
    assert_eq!(pool.previous_mesh_size(), 10);
    pool.spawn_mesh("mesh", vec![1]);
    assert_eq!(pool.previous_mesh_size(), 10);
    // a mesh that is not available: nothing changes
    pool.prepare_sample(None);
    assert_eq!(pool.sampled_indices(), &first);
    assert_eq!(pool.previous_mesh_size(), 10);
    // same size, same sample size: the sample stays
    pool.prepare_sample(Some(&cloud));
    assert_eq!(pool.sampled_indices(), &first);
    // a smaller mesh: drawn anew, and all of its points
    let small = Features::new(Some(3), None, false);
    pool.prepare_sample(Some(&small));
    let mut all = pool.sampled_indices().clone();
    all.sort();
    assert_eq!(all, vec![0, 1, 2]);
    assert_eq!(pool.previous_mesh_size(), 3);
    // fewer points asked for: drawn anew, within the same mesh
    pool.sample_size = 2;
    pool.prepare_sample(Some(&small));
    assert_eq!(pool.sampled_indices().len(), 2);
    assert!(pool.sampled_indices().iter().all(|index| *index < 3));
    assert_ne!(pool.sampled_indices()[0], pool.sampled_indices()[1]);
    // a mesh without vertices: an empty sample
    pool.prepare_sample(Some(&Features::new(None, None, true)));
    assert!(pool.sampled_indices().is_empty());
    assert_eq!(pool.previous_mesh_size(), 0);
    pool.spawn_mesh("bare", vec![]);
    assert_eq!(pool.previous_mesh_size(), 0);
}

#[test]
fn point_sample_fits_its_mesh() {
    let mut sample = mesh_ripper::render::PointSample::new();
    assert!(sample.indices().is_empty());
    assert_eq!(sample.mesh_size(), 0);
    sample.prepare(&Features::new(Some(6), None, false), 4);
    assert_eq!(sample.mesh_size(), 6);
    let mut drawn = sample.indices().clone();
    assert_eq!(drawn.len(), 4);
    drawn.sort();
    drawn.dedup();
    assert_eq!(drawn.len(), 4);
    assert!(drawn.iter().all(|index| *index < 6));
    let kept = sample.indices().clone();
    sample.prepare(&Features::new(Some(6), Some(6), true), 4);
    assert_eq!(sample.indices(), &kept);
    sample.prepare(&Features::new(Some(2), None, false), 4);
    assert_eq!(sample.mesh_size(), 2);
    assert_eq!(sample.indices().len(), 2);
    sample.clear();
    assert!(sample.indices().is_empty());
    assert_eq!(sample.mesh_size(), 2);
    sample.prepare(&Features::new(None, None, false), 4);
    assert!(sample.indices().is_empty());
    assert_eq!(sample.mesh_size(), 0);
}
