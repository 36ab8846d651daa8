use url_translator::config::features::{Feature, FeatureFlags};

#[test]
fn test_feature_properties() {
    let feature = Feature::ProjectManagement;
    assert!(!feature.display_name().is_empty());
    assert!(!feature.description().is_empty());
    assert!(feature.requires_authentication());
}

#[test]
fn test_feature_flags() {
    let mut flags = FeatureFlags::new();

    assert!(flags.is_enabled(&Feature::UserAuthentication));

    flags.disable(Feature::UserAuthentication);
    assert!(!flags.is_enabled(&Feature::UserAuthentication));

    flags.toggle(Feature::UserAuthentication);
    assert!(flags.is_enabled(&Feature::UserAuthentication));
}

#[test]
fn test_json_serialization() {
    let flags = FeatureFlags::new();
    let json = flags.to_json();
    assert!(json.contains("userauthentication"));

    let mut new_flags = FeatureFlags::new();
    assert!(new_flags.from_json(&json).is_ok());
}

#[test]
fn test_feature_lists() {
    let flags = FeatureFlags::new();
    let enabled = flags.enabled_features();
    let disabled = flags.disabled_features();

    assert!(!enabled.is_empty());
    assert_eq!(enabled.len() + disabled.len(), Feature::all().len());
}

#[test]
fn defaults_switch_off_only_the_optional_features() {
    let flags = FeatureFlags::new();
    let disabled = flags.disabled_features();
    assert_eq!(disabled, vec![Feature::OfflineMode, Feature::PwaSupport]);
    assert_eq!(flags.enabled_features().len(), 11);
}

#[test]
fn json_lists_every_feature_in_order() {
    let flags = FeatureFlags::new();
    let json = flags.to_json();
    assert!(json.starts_with("{\"projectmanagement\":true,\"history\":true,"));
    assert!(json.ends_with("\"errortracking\":true,\"autosave\":true}"));
    assert!(json.contains("\"offlinemode\":false"));
}

#[test]
fn feature_json_written_is_read_back() {
    let mut flags = FeatureFlags::new();
    flags.toggle(Feature::OfflineMode);
    flags.disable(Feature::Search);
    let json = flags.to_json();
    let mut other = FeatureFlags::new();
    assert!(other.from_json(&json).is_ok());
    for f in Feature::all() {
        assert_eq!(other.is_enabled(&f), flags.is_enabled(&f));
    }
}

#[test]
fn json_without_braces_is_refused_and_changes_nothing() {
    let mut flags = FeatureFlags::new();
    let r = flags.from_json("\"search\":false");
    assert_eq!(r, Err("无效的JSON格式".to_string()));
    assert!(flags.is_enabled(&Feature::Search));
}

#[test]
fn unknown_keys_and_values_are_skipped() {
    let mut flags = FeatureFlags::new();
    assert!(flags.from_json("{\"nothing\":false, \"search\": maybe, \"history\" : false}").is_ok());
    assert!(flags.is_enabled(&Feature::Search));
    assert!(!flags.is_enabled(&Feature::History));
}

#[test]
fn toggling_twice_restores_a_switch() {
    let mut flags = FeatureFlags::new();
    flags.toggle(Feature::AutoSave);
    assert!(!flags.is_enabled(&Feature::AutoSave));
    flags.toggle(Feature::AutoSave);
    assert!(flags.is_enabled(&Feature::AutoSave));
}

#[test]
fn set_multiple_applies_settings_in_order() {
    let mut flags = FeatureFlags::new();
    flags.set_multiple(vec![(Feature::Search, false), (Feature::OfflineMode, true), (Feature::Search, true)]);
    assert!(flags.is_enabled(&Feature::Search));
    assert!(flags.is_enabled(&Feature::OfflineMode));
    flags.reset_to_defaults();
    assert!(!flags.is_enabled(&Feature::OfflineMode));
}

#[test]
fn feature_metadata() {
    assert_eq!(Feature::all().len(), 13);
    assert_eq!(Feature::Search.display_name(), "搜索功能");
    assert!(Feature::Search.requires_authentication());
    assert!(!Feature::AutoSave.requires_authentication());
    assert!(Feature::BatchTranslation.requires_authentication());
    assert!(!Feature::PwaSupport.default_enabled());
}

#[test]
fn summary_lists_enabled_then_disabled() {
    let flags = FeatureFlags::new();
    let s = flags.summary();
    assert!(s.starts_with("功能开关状态:\n启用的功能 (11):\n  - 项目管理\n"));
    assert!(s.contains("\n\n禁用的功能 (2):\n  - 离线模式"));
}
