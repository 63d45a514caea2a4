use praxec_core::tier::Tier;

#[test]
fn caps_get_cap_tier() {
    assert_eq!(Tier::from_id("cap.plan.vet"), Tier::Cap);
    assert_eq!(Tier::from_id("swe/cap.plan.vet"), Tier::Cap);
    assert_eq!(Tier::from_id("deeply/nested/cap.x"), Tier::Cap);
}

#[test]
fn flows_get_flow_tier() {
    assert_eq!(Tier::from_id("flow.add-feature"), Tier::Flow);
    assert_eq!(Tier::from_id("swe/flow.add-feature"), Tier::Flow);
}

#[test]
fn legacy_ids_get_other_tier() {
    assert_eq!(Tier::from_id("with_artifact_lock"), Tier::Other);
    assert_eq!(Tier::from_id("namespaced/with_artifact_lock"), Tier::Other);
    assert_eq!(Tier::from_id(""), Tier::Other);
}

#[test]
fn prefix_must_be_exact_with_dot() {
    assert_eq!(Tier::from_id("capable.thing"), Tier::Other);
    assert_eq!(Tier::from_id("flow_no_dot"), Tier::Other);
}
