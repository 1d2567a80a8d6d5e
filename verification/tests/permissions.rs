use std::collections::HashMap;

use ailly::permissions::{denial_text, AllowAllBackend, BasePolicy, Classification, ClassRouterBackend, ConstClassifier, Decision, DenyAllBackend};

#[test]
fn classification_display_returns_snake_case_for_each_variant() {
    assert_eq!(Classification::Read.as_str(), "read");
    assert_eq!(Classification::Safe.as_str(), "safe");
    assert_eq!(Classification::Unsafe.as_str(), "unsafe");
}

#[test]
fn classification_round_trips_through_hashmap() {
    let mut map: HashMap<Classification, &'static str> = HashMap::new();
    map.insert(Classification::Read, "r");
    map.insert(Classification::Safe, "s");
    map.insert(Classification::Unsafe, "u");

    assert_eq!(map.get(&Classification::Read), Some(&"r"));
    assert_eq!(map.get(&Classification::Safe), Some(&"s"));
    assert_eq!(map.get(&Classification::Unsafe), Some(&"u"));
}

#[test]
fn decision_deny_carries_reason_and_supports_equality() {
    let denied = Decision::Deny {
        reason: "no read".to_string(),
    };

    assert_eq!(
        denied,
        Decision::Deny {
            reason: "no read".to_string()
        }
    );
    assert_ne!(denied, Decision::Allow);
    assert_ne!(
        denied,
        Decision::Deny {
            reason: "different".to_string()
        }
    );
}

#[test]
fn base_policy_supports_equality_and_copy() {
    let allow = BasePolicy::Allow;
    let copied = allow;

    assert_eq!(allow, copied);
    assert_ne!(BasePolicy::Allow, BasePolicy::Deny);
}

#[test]
fn const_classifier_returns_captured_value_for_arbitrary_args() {
    let classifier = ConstClassifier(Classification::Safe);

    let object: serde_json::Value = serde_json::from_str(r#"{"k": 1, "v": [true, false]}"#).unwrap();
    let array: serde_json::Value = serde_json::from_str("[1, 2, 3]").unwrap();
    let null = serde_json::Value::Null;
    let number = serde_json::Value::from(42);
    let string = serde_json::Value::from("hello");
    let boolean = serde_json::Value::from(true);

    assert_eq!(classifier.classify(&object), Classification::Safe);
    assert_eq!(classifier.classify(&array), Classification::Safe);
    assert_eq!(classifier.classify(&null), Classification::Safe);
    assert_eq!(classifier.classify(&number), Classification::Safe);
    assert_eq!(classifier.classify(&string), Classification::Safe);
    assert_eq!(classifier.classify(&boolean), Classification::Safe);
}

#[test]
fn allow_all_backend_returns_allow_for_every_variant() {
    let backend = AllowAllBackend;
    for class in [Classification::Read, Classification::Safe, Classification::Unsafe] {
        assert_eq!(backend.decide("any.tool", class), Decision::Allow, "class {}", class.as_str());
    }
}

#[test]
fn deny_all_backend_returns_deny_with_non_empty_reason_for_every_variant() {
    let backend = DenyAllBackend;
    for class in [Classification::Read, Classification::Safe, Classification::Unsafe] {
        match backend.decide("any.tool", class) {
            Decision::Deny { reason } => assert!(!reason.is_empty(), "deny reason must not be empty"),
            other => panic!("expected Deny for class {}, got {other:?}", class.as_str()),
        }
    }
}

#[test]
fn class_router_backend_routes_each_field_combination_with_bucket_in_reason() {
    let combos = [
        (BasePolicy::Allow, BasePolicy::Allow, BasePolicy::Allow),
        (BasePolicy::Allow, BasePolicy::Allow, BasePolicy::Deny),
        (BasePolicy::Allow, BasePolicy::Deny, BasePolicy::Allow),
        (BasePolicy::Allow, BasePolicy::Deny, BasePolicy::Deny),
        (BasePolicy::Deny, BasePolicy::Allow, BasePolicy::Allow),
        (BasePolicy::Deny, BasePolicy::Allow, BasePolicy::Deny),
        (BasePolicy::Deny, BasePolicy::Deny, BasePolicy::Allow),
        (BasePolicy::Deny, BasePolicy::Deny, BasePolicy::Deny),
    ];
    for (on_read, on_safe, on_unsafe) in combos {
        let backend = ClassRouterBackend { on_read, on_safe, on_unsafe };
        for (class, policy, bucket) in [
            (Classification::Read, on_read, "read"),
            (Classification::Safe, on_safe, "safe"),
            (Classification::Unsafe, on_unsafe, "unsafe"),
        ] {
            match (policy, backend.decide("any.tool", class)) {
                (BasePolicy::Allow, Decision::Allow) => {}
                (BasePolicy::Deny, Decision::Deny { reason }) => {
                    assert!(reason.contains(bucket), "deny reason must mention {bucket}; got {reason}");
                }
                (policy, decision) => panic!("policy {policy:?} produced {decision:?}"),
            }
        }
    }
}

#[test]
fn class_router_backend_reason_is_exact() {
    let backend = ClassRouterBackend {
        on_read: BasePolicy::Deny,
        on_safe: BasePolicy::Allow,
        on_unsafe: BasePolicy::Deny,
    };
    assert_eq!(
        backend.decide("fs.read", Classification::Unsafe),
        Decision::Deny { reason: String::from("policy denies unsafe-classified calls") }
    );
    assert_eq!(
        DenyAllBackend.decide("x", Classification::Read),
        Decision::Deny { reason: String::from("all tool calls denied by policy") }
    );
}

#[test]
fn denial_text_is_none_for_allow_and_prefixed_reason_for_deny() {
    assert_eq!(denial_text(&Decision::Allow), None);
    let d = Decision::Deny { reason: "nope".to_string() };
    assert_eq!(denial_text(&d), Some("permission denied: nope".to_string()));
}
