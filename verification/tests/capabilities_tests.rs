use cdm::capabilities::{collect_capabilities, CapabilitiesResult, PluginCapability, PluginProbe};

#[test]
fn test_plugin_capability_struct() {
    let cap = PluginCapability { name: "test-plugin".to_string(), has_build: true, has_migrate: false };
    assert_eq!(cap.name, "test-plugin");
    assert!(cap.has_build);
    assert!(!cap.has_migrate);
}

#[test]
fn test_capabilities_result_struct() {
    let result = CapabilitiesResult {
        plugins: vec![
            PluginCapability { name: "plugin1".to_string(), has_build: true, has_migrate: false },
            PluginCapability { name: "plugin2".to_string(), has_build: false, has_migrate: true },
        ],
        can_build: true,
        can_migrate: true,
    };
    assert_eq!(result.plugins.len(), 2);
    assert!(result.can_build);
    assert!(result.can_migrate);
}

#[test]
fn test_capabilities_result_multiple_plugins_same_capability() {
    let result = CapabilitiesResult {
        plugins: vec![
            PluginCapability { name: "sql".to_string(), has_build: true, has_migrate: true },
            PluginCapability { name: "typescript".to_string(), has_build: true, has_migrate: false },
        ],
        can_build: true,
        can_migrate: true,
    };
    assert_eq!(result.plugins.len(), 2);
    assert!(result.can_build);
    assert!(result.can_migrate);
}

#[test]
fn test_capabilities_preserves_plugin_order() {
    let plugins = vec![
        PluginCapability { name: "first".to_string(), has_build: true, has_migrate: false },
        PluginCapability { name: "second".to_string(), has_build: false, has_migrate: true },
        PluginCapability { name: "third".to_string(), has_build: true, has_migrate: true },
    ];
    let result = CapabilitiesResult { plugins: plugins.clone(), can_build: true, can_migrate: true };
    assert_eq!(result.plugins[0].name, "first");
    assert_eq!(result.plugins[1].name, "second");
    assert_eq!(result.plugins[2].name, "third");
}

#[test]
fn test_capabilities_result_aggregates_correctly() {
    let result1 = CapabilitiesResult {
        plugins: vec![
            PluginCapability { name: "no_build".to_string(), has_build: false, has_migrate: false },
            PluginCapability { name: "has_build".to_string(), has_build: true, has_migrate: false },
        ],
        can_build: true,
        can_migrate: false,
    };
    assert!(result1.can_build);
    assert!(!result1.can_migrate);
    let result2 = CapabilitiesResult {
        plugins: vec![
            PluginCapability { name: "no_migrate".to_string(), has_build: false, has_migrate: false },
            PluginCapability { name: "has_migrate".to_string(), has_build: false, has_migrate: true },
        ],
        can_build: false,
        can_migrate: true,
    };
    assert!(!result2.can_build);
    assert!(result2.can_migrate);
}

#[test]
fn collect_capabilities_aggregates_probes_in_order() {
    let names = vec!["sql".to_string(), "docs".to_string(), "ts".to_string()];
    let probes = vec![
        PluginProbe::Loaded { build: Some(true), migrate: Some(false) },
        PluginProbe::NotLoaded,
        PluginProbe::Loaded { build: None, migrate: Some(true) },
    ];
    let r = collect_capabilities(&names, &probes);
    assert_eq!(r.plugins.len(), 3);
    assert_eq!(r.plugins[0].name, "sql");
    assert!(r.plugins[0].has_build && !r.plugins[0].has_migrate);
    assert!(!r.plugins[1].has_build && !r.plugins[1].has_migrate);
    assert!(!r.plugins[2].has_build && r.plugins[2].has_migrate);
    assert!(r.can_build);
    assert!(r.can_migrate);
}

#[test]
fn collect_capabilities_none_capable() {
    let names = vec!["a".to_string()];
    let probes = vec![PluginProbe::NotLoaded];
    let r = collect_capabilities(&names, &probes);
    assert!(!r.can_build);
    assert!(!r.can_migrate);
}

#[test]
fn test_plugin_capability_debug() {
    let cap = PluginCapability { name: "sql".to_string(), has_build: true, has_migrate: true };
    let debug_str = format!("{:?}", cap);
    assert!(debug_str.contains("sql"));
    assert!(debug_str.contains("has_build: true"));
    assert!(debug_str.contains("has_migrate: true"));
}

#[test]
fn test_capabilities_result_debug() {
    let result = CapabilitiesResult { plugins: vec![], can_build: false, can_migrate: false };
    let debug_str = format!("{:?}", result);
    assert!(debug_str.contains("plugins"));
    assert!(debug_str.contains("can_build: false"));
    assert!(debug_str.contains("can_migrate: false"));
}
