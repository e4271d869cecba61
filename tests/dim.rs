use aide::{resolve_overlays, DimContext, DimOverlay};

fn overlay(
    id: &str,
    priority: u8,
    policy: Option<&str>,
    time_slot: Option<u64>,
    location: Option<&str>,
    expires_at: Option<u64>,
) -> DimOverlay {
    DimOverlay {
        id: id.to_string(),
        priority,
        policy: policy.map(|p| p.to_string()),
        time_slot,
        location: location.map(|l| l.to_string()),
        expires_at,
    }
}

#[test]
fn resolve_overlays_applies_priority_and_pruning() {
    let now = 100;
    let overlays = vec![
        DimOverlay {
            id: "low".to_string(),
            priority: 10,
            policy: Some("allow".to_string()),
            time_slot: Some(1),
            location: None,
            expires_at: Some(200),
        },
        DimOverlay {
            id: "high".to_string(),
            priority: 1,
            policy: Some("deny".to_string()),
            time_slot: None,
            location: Some("HCM".to_string()),
            expires_at: Some(200),
        },
        DimOverlay {
            id: "expired".to_string(),
            priority: 0,
            policy: Some("deny".to_string()),
            time_slot: None,
            location: None,
            expires_at: Some(50),
        },
    ];
    let ctx = resolve_overlays(overlays, now);
    assert_eq!(ctx.policy.as_deref(), Some("allow"));
    assert_eq!(ctx.time_slot, Some(1));
    assert_eq!(ctx.location.as_deref(), Some("HCM"));
}

#[test]
fn priority_scenario_without_time_slot() {
    let overlays = vec![
        overlay("low", 10, Some("allow"), None, None, Some(200)),
        overlay("high", 1, Some("deny"), None, Some("HCM"), Some(200)),
        overlay("expired", 0, Some("deny"), None, None, Some(50)),
    ];
    let ctx = resolve_overlays(overlays, 100);
    assert_eq!(ctx.policy.as_deref(), Some("allow"));
    assert_eq!(ctx.time_slot, None);
    assert_eq!(ctx.location.as_deref(), Some("HCM"));
}

#[test]
fn overlay_expiring_exactly_now_is_pruned() {
    let overlays = vec![
        overlay("a", 1, Some("allow"), None, None, None),
        overlay("b", 9, Some("deny"), Some(4), Some("HAN"), Some(100)),
    ];
    let ctx = resolve_overlays(overlays, 100);
    assert_eq!(ctx.policy.as_deref(), Some("allow"));
    assert_eq!(ctx.time_slot, None);
    assert_eq!(ctx.location, None);
}

#[test]
fn overlay_expiring_after_now_is_kept() {
    let overlays = vec![overlay("b", 9, Some("deny"), None, None, Some(101))];
    let ctx = resolve_overlays(overlays, 100);
    assert_eq!(ctx.policy.as_deref(), Some("deny"));
}

#[test]
fn overlay_without_policy_does_not_clear_policy() {
    let overlays = vec![
        overlay("slot", 50, None, Some(7), None, None),
        overlay("base", 5, Some("allow"), None, None, None),
    ];
    let ctx = resolve_overlays(overlays, 0);
    assert_eq!(ctx.policy.as_deref(), Some("allow"));
    assert_eq!(ctx.time_slot, Some(7));
    assert_eq!(ctx.location, None);
}

#[test]
fn equal_priority_is_broken_by_id() {
    let overlays = vec![
        overlay("b", 3, Some("from-b"), None, None, None),
        overlay("a", 3, Some("from-a"), None, None, None),
        overlay("ab", 3, None, None, Some("from-ab"), None),
        overlay("aa", 3, None, None, Some("from-aa"), None),
    ];
    let ctx = resolve_overlays(overlays, 0);
    assert_eq!(ctx.policy.as_deref(), Some("from-b"));
    assert_eq!(ctx.location.as_deref(), Some("from-ab"));
}

#[test]
fn higher_priority_number_wins_over_lower() {
    let overlays = vec![
        overlay("z", 2, Some("two"), Some(2), None, None),
        overlay("a", 200, Some("two-hundred"), None, None, None),
        overlay("m", 255, None, Some(255), None, None),
    ];
    let ctx = resolve_overlays(overlays, 0);
    assert_eq!(ctx.policy.as_deref(), Some("two-hundred"));
    assert_eq!(ctx.time_slot, Some(255));
}

#[test]
fn empty_and_fully_expired_inputs_give_empty_context() {
    assert_eq!(resolve_overlays(Vec::new(), 5), DimContext::empty());
    let overlays = vec![
        overlay("a", 1, Some("x"), Some(1), Some("y"), Some(0)),
        overlay("b", 2, Some("x"), Some(1), Some("y"), Some(5)),
    ];
    assert_eq!(resolve_overlays(overlays, 5), DimContext::empty());
}

#[test]
fn empty_context_has_no_fields() {
    let ctx = DimContext::empty();
    assert_eq!(ctx.policy, None);
    assert_eq!(ctx.time_slot, None);
    assert_eq!(ctx.location, None);
}
