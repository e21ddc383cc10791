use behavior_tree::BehaviorContext;

#[test]
fn unset_key_reads_zero() {
    let context = BehaviorContext::new();
    assert_eq!(context.get_value("anything"), 0);
    assert_eq!(context.get_value(""), 0);
    assert_eq!(context.get_value("node_0"), 0);
}

#[test]
fn written_value_is_read_back() {
    let mut context = BehaviorContext::new();
    context.set_value("target_visible", 1000);
    assert_eq!(context.get_value("target_visible"), 1000);
    context.set_value("target_visible", -250);
    assert_eq!(context.get_value("target_visible"), -250);
    context.set_value("limit", i64::MAX);
    assert_eq!(context.get_value("limit"), i64::MAX);
    context.set_value("floor", i64::MIN);
    assert_eq!(context.get_value("floor"), i64::MIN);
}

#[test]
fn write_leaves_other_keys_alone() {
    let mut context = BehaviorContext::new();
    context.set_value("a", 1);
    context.set_value("b", 2);
    context.set_value("a", 3);
    assert_eq!(context.get_value("a"), 3);
    assert_eq!(context.get_value("b"), 2);
    assert_eq!(context.get_value("ab"), 0);
}

#[test]
fn fresh_context_is_at_full_health_at_the_origin() {
    let context = BehaviorContext::new();
    assert_eq!(context.get_distance_to_target(), 0);
    assert_eq!(context.get_health_percentage(), 1000);
    assert_eq!(context.entity_type(), 0);
}

#[test]
fn distance_of_three_four_is_five() {
    let mut context = BehaviorContext::new();
    context.set_entity_position(0, 0, 0);
    context.set_target_position(3000, 4000, 0);
    assert_eq!(context.get_distance_to_target(), 5000);
}

#[test]
fn distance_uses_all_three_axes() {
    let mut context = BehaviorContext::new();
    context.set_entity_position(1000, 2000, 3000);
    context.set_target_position(3000, 5000, 9000);
    // (2, 3, 6) has length 7
    assert_eq!(context.get_distance_to_target(), 7000);
    context.set_target_position(-1000, -1000, -3000);
    assert_eq!(context.get_distance_to_target(), 7000);
}

#[test]
fn distance_is_rounded_down() {
    let mut context = BehaviorContext::new();
    context.set_target_position(1000, 1000, 0);
    // the root of 2_000_000 is 1414.2...
    assert_eq!(context.get_distance_to_target(), 1414);
    context.set_target_position(1, 1, 1);
    assert_eq!(context.get_distance_to_target(), 1);
    context.set_target_position(2, 2, 1);
    assert_eq!(context.get_distance_to_target(), 3);
}

#[test]
fn distance_beyond_all_quantities_is_the_largest() {
    let mut context = BehaviorContext::new();
    context.set_entity_position(i64::MIN, 0, 0);
    context.set_target_position(i64::MAX, 0, 0);
    assert_eq!(context.get_distance_to_target(), i64::MAX);
    context.set_entity_position(0, 0, 0);
    context.set_target_position(i64::MAX, i64::MAX, i64::MAX);
    assert_eq!(context.get_distance_to_target(), i64::MAX);
    context.set_target_position(i64::MAX, 0, 0);
    assert_eq!(context.get_distance_to_target(), i64::MAX);
    context.set_target_position(i64::MAX - 1, 0, 0);
    assert_eq!(context.get_distance_to_target(), i64::MAX - 1);
}

#[test]
fn health_fraction_is_health_over_full_health() {
    let mut context = BehaviorContext::new();
    context.set_entity_health(30_000, 100_000);
    assert_eq!(context.get_health_percentage(), 300);
    context.set_entity_health(1_000, 3_000);
    assert_eq!(context.get_health_percentage(), 333);
    context.set_entity_health(250_000, 100_000);
    assert_eq!(context.get_health_percentage(), 2500);
    context.set_entity_health(-1_000, 3_000);
    assert_eq!(context.get_health_percentage(), -333);
}

#[test]
fn health_fraction_without_full_health_is_zero() {
    let mut context = BehaviorContext::new();
    context.set_entity_health(50_000, 0);
    assert_eq!(context.get_health_percentage(), 0);
    context.set_entity_health(50_000, -100_000);
    assert_eq!(context.get_health_percentage(), 0);
    context.set_entity_health(-50_000, 0);
    assert_eq!(context.get_health_percentage(), 0);
}

#[test]
fn health_fraction_beyond_all_quantities_is_the_nearest() {
    let mut context = BehaviorContext::new();
    context.set_entity_health(i64::MAX, 1);
    assert_eq!(context.get_health_percentage(), i64::MAX);
    context.set_entity_health(i64::MIN, 1);
    assert_eq!(context.get_health_percentage(), i64::MIN);
    context.set_entity_health(i64::MAX, i64::MAX);
    assert_eq!(context.get_health_percentage(), 1000);
}

#[test]
fn setters_take_what_they_are_given() {
    let mut context = BehaviorContext::new();
    context.set_entity_type(7);
    assert_eq!(context.entity_type(), 7);
    context.set_entity_type(u32::MAX);
    assert_eq!(context.entity_type(), u32::MAX);
    context.set_entity_health(-5, -7);
    assert_eq!(context.get_health_percentage(), 0);
}

#[test]
fn target_within_range_compares_squares() {
    let mut context = BehaviorContext::new();
    assert!(context.is_target_within(0));
    assert!(!context.is_target_within(-1));
    context.set_target_position(3000, 4000, 0);
    assert!(context.is_target_within(5000));
    assert!(!context.is_target_within(4999));
    assert!(context.is_target_within(i64::MAX));
    assert!(!context.is_target_within(i64::MIN));
    context.set_target_position(1, 1, 0);
    assert!(!context.is_target_within(1));
    assert!(context.is_target_within(2));
}

#[test]
fn target_within_range_at_the_ends_of_the_line() {
    let mut context = BehaviorContext::new();
    context.set_target_position(i64::MAX, 0, 0);
    assert!(context.is_target_within(i64::MAX));
    assert!(!context.is_target_within(i64::MAX - 1));
    context.set_target_position(i64::MAX, 1, 0);
    assert!(!context.is_target_within(i64::MAX));
    context.set_entity_position(i64::MIN, 0, 0);
    assert!(!context.is_target_within(i64::MAX));
    context.set_entity_position(-1, 0, 0);
    context.set_target_position(i64::MAX, 0, 0);
    assert!(!context.is_target_within(i64::MAX));
}

#[test]
fn health_at_most_compares_products() {
    let mut context = BehaviorContext::new();
    assert!(context.is_health_at_most(1000));
    assert!(!context.is_health_at_most(999));
    context.set_entity_health(30_000, 100_000);
    assert!(context.is_health_at_most(300));
    assert!(!context.is_health_at_most(299));
    context.set_entity_health(1, 3);
    assert!(!context.is_health_at_most(333));
    assert!(context.is_health_at_most(334));
    context.set_entity_health(i64::MAX, i64::MAX);
    assert!(context.is_health_at_most(1000));
    assert!(!context.is_health_at_most(999));
    context.set_entity_health(i64::MIN, 1);
    assert!(context.is_health_at_most(i64::MIN));
    context.set_entity_health(i64::MAX, 1);
    assert!(!context.is_health_at_most(i64::MAX));
}

#[test]
fn health_without_full_health_is_none() {
    let mut context = BehaviorContext::new();
    context.set_entity_health(50_000, 0);
    assert!(context.is_health_at_most(0));
    assert!(context.is_health_at_most(1));
    assert!(!context.is_health_at_most(-1));
    context.set_entity_health(50_000, -3);
    assert!(context.is_health_at_most(0));
    assert!(!context.is_health_at_most(-1));
}
