use std::collections::HashSet;
use rway::ipc::events::{parse_subscribe_payload, SubscriptionType};

#[test]
fn test_parse_subscribe_single_workspace() {
    let result = parse_subscribe_payload(r#"["workspace"]"#).unwrap();
    assert_eq!(result, vec![SubscriptionType::Workspace]);
}

#[test]
fn test_parse_subscribe_multiple() {
    let result =
        parse_subscribe_payload(r#"["workspace", "window", "output"]"#).unwrap();
    assert_eq!(
        result,
        vec![
            SubscriptionType::Workspace,
            SubscriptionType::Window,
            SubscriptionType::Output,
        ]
    );
}

#[test]
fn test_parse_subscribe_all_known_types() {
    let payload = r#"["workspace","output","mode","window","binding","shutdown","tick","barconfig_update","bar_state_update","input"]"#;
    let result = parse_subscribe_payload(payload).unwrap();

    assert_eq!(result.len(), 10);
    assert!(result.contains(&SubscriptionType::Workspace));
    assert!(result.contains(&SubscriptionType::Output));
    assert!(result.contains(&SubscriptionType::Mode));
    assert!(result.contains(&SubscriptionType::Window));
    assert!(result.contains(&SubscriptionType::Binding));
    assert!(result.contains(&SubscriptionType::Shutdown));
    assert!(result.contains(&SubscriptionType::Tick));
    assert!(result.contains(&SubscriptionType::BarConfigUpdate));
    assert!(result.contains(&SubscriptionType::BarStateUpdate));
    assert!(result.contains(&SubscriptionType::Input));
}

#[test]
fn test_parse_subscribe_empty_array() {
    let result = parse_subscribe_payload("[]").unwrap();
    assert!(result.is_empty());
}

#[test]
fn test_parse_subscribe_unknown_type_ignored() {
    let result =
        parse_subscribe_payload(r#"["workspace", "unknown_event", "window"]"#).unwrap();
    // unknown_event 应被忽略
    assert_eq!(
        result,
        vec![SubscriptionType::Workspace, SubscriptionType::Window]
    );
}

#[test]
fn test_parse_subscribe_invalid_json() {
    let result = parse_subscribe_payload("not json");
    assert!(result.is_err());
}

#[test]
fn test_parse_subscribe_non_array_json() {
    let result = parse_subscribe_payload(r#"{"workspace": true}"#);
    assert!(result.is_err());
}

#[test]
fn test_parse_subscribe_array_with_non_string_elements() {
    let result = parse_subscribe_payload(r#"[1, 2, 3]"#);
    assert!(result.is_err());
}

#[test]
fn test_parse_subscribe_all_unknown_returns_empty() {
    let result =
        parse_subscribe_payload(r#"["foo", "bar", "baz"]"#).unwrap();
    assert!(result.is_empty());
}

#[test]
fn test_parse_subscribe_empty_string() {
    let result = parse_subscribe_payload("");
    assert!(result.is_err());
}

#[test]
fn test_subscription_type_equality() {
    assert_eq!(SubscriptionType::Workspace, SubscriptionType::Workspace);
    assert_ne!(SubscriptionType::Workspace, SubscriptionType::Window);
}

#[test]
fn test_subscription_type_clone() {
    let original = SubscriptionType::Window;
    let cloned = original.clone();
    assert_eq!(original, cloned);
}

#[test]
fn test_subscription_type_in_hashset() {
    let mut set = HashSet::new();
    set.insert(SubscriptionType::Workspace);
    set.insert(SubscriptionType::Workspace); // 重复插入
    set.insert(SubscriptionType::Window);

    assert_eq!(set.len(), 2);
    assert!(set.contains(&SubscriptionType::Workspace));
    assert!(set.contains(&SubscriptionType::Window));
}
