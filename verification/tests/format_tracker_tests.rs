use cdm::format::EntityIdTracker;

#[test]
fn test_entity_id_tracker_global_ids() {
    let mut tracker = EntityIdTracker::new();
    tracker.add_global_id(1);
    tracker.add_global_id(5);
    tracker.add_global_id(3);
    assert_eq!(tracker.next_global_id(), 6);
    assert_eq!(tracker.next_global_id(), 7);
}

#[test]
fn test_entity_id_tracker_field_ids() {
    let mut tracker = EntityIdTracker::new();
    tracker.add_field_id("User", 1);
    tracker.add_field_id("User", 3);
    tracker.add_field_id("Post", 1);
    tracker.add_field_id("Post", 2);
    assert_eq!(tracker.next_field_id("User"), 4);
    assert_eq!(tracker.next_field_id("Post"), 3);
    assert_eq!(tracker.next_field_id("Comment"), 1);
}

#[test]
fn test_field_id_scoping() {
    let mut tracker = EntityIdTracker::new();
    tracker.add_field_id("User", 1);
    tracker.add_field_id("User", 2);
    tracker.add_field_id("User", 3);
    tracker.add_field_id("Post", 1);
    tracker.add_field_id("Post", 2);
    assert_eq!(tracker.next_field_id("User"), 4);
    assert_eq!(tracker.next_field_id("Post"), 3);
    assert_eq!(tracker.next_field_id("Comment"), 1);
}

#[test]
fn test_global_id_collision_avoidance() {
    let mut tracker = EntityIdTracker::new();
    tracker.add_global_id(1);
    tracker.add_global_id(5);
    tracker.add_global_id(10);
    assert_eq!(tracker.next_global_id(), 11);
    assert_eq!(tracker.next_global_id(), 12);
}

#[test]
fn tracker_fresh_ids_start_at_one_and_skip_lower_ids() {
    let mut tracker = EntityIdTracker::new();
    assert_eq!(tracker.next_global_id(), 1);
    tracker.add_global_id(0);
    assert_eq!(tracker.next_global_id(), 2);
    tracker.add_field_id("User", 7);
    tracker.add_field_id("User", 2);
    assert_eq!(tracker.next_field_id("User"), 8);
    assert_eq!(tracker.next_field_id("User"), 9);
}
