use juju::config::JujuConfig;
use juju::formatter::FormatError;
use juju::formatter::Segment;
use juju::pipeline::{extract_version, model_suffix, module, module_or_error, resolve_active_model};

fn text_of(segs: &Vec<Segment>) -> String {
    let mut s = String::new();
    for seg in segs {
        s.push_str(&seg.text);
    }
    s
}

fn s(x: &str) -> Option<String> {
    Some(x.to_string())
}

const META: &str = "version: \"3.1.0\"\n";
const CONTROLLERS: &str = "current-controller: foo\n";
const MODELS: &str = "controllers:\n  foo:\n    current-model: bar\n";

#[test]
fn version_only_scenario() {
    let config = JujuConfig::new();
    let out = module(&config, &s("version: \"2.9.43\"\n"), &None, &None).unwrap();
    assert_eq!(text_of(&out), "via 🔮 2.9.43 ");
    assert_eq!(out.len(), 3);
    assert_eq!(out[0].text, "via ");
    assert_eq!(out[0].style, None);
    assert_eq!(out[1].text, "🔮 2.9.43");
    assert_eq!(out[1].style, Some("fg:#E95420".to_string()));
    assert_eq!(out[2].text, " ");
    assert_eq!(out[2].style, None);
}

#[test]
fn full_chain_scenario() {
    let config = JujuConfig::new();
    let out = module(&config, &s(META), &s(CONTROLLERS), &s(MODELS)).unwrap();
    assert_eq!(text_of(&out), "via 🔮 3.1.0 (foo:bar) ");
    assert_eq!(out[1].text, "🔮 3.1.0 (foo:bar)");
    assert_eq!(out[1].style, Some("fg:#E95420".to_string()));
}

#[test]
fn metadata_absent_yields_nothing() {
    let config = JujuConfig::new();
    assert!(module(&config, &None, &s(CONTROLLERS), &s(MODELS)).is_none());
}

#[test]
fn metadata_without_version_yields_nothing() {
    let config = JujuConfig::new();
    assert!(module(&config, &s("name: juju\n"), &None, &None).is_none());
}

#[test]
fn non_string_version_yields_nothing() {
    let config = JujuConfig::new();
    assert!(module(&config, &s("version: 2\n"), &None, &None).is_none());
    assert!(module(&config, &s("version:\n  nested: x\n"), &None, &None).is_none());
}

#[test]
fn disabled_yields_nothing() {
    let mut config = JujuConfig::new();
    config.disabled = true;
    assert!(module(&config, &s(META), &s(CONTROLLERS), &s(MODELS)).is_none());
}

#[test]
fn models_missing_is_version_only() {
    let config = JujuConfig::new();
    let with_controllers = module(&config, &s(META), &s(CONTROLLERS), &None).unwrap();
    let without_any = module(&config, &s(META), &None, &None).unwrap();
    assert_eq!(text_of(&with_controllers), "via 🔮 3.1.0 ");
    assert_eq!(text_of(&with_controllers), text_of(&without_any));
}

#[test]
fn malformed_yaml_acts_like_absent_file() {
    let config = JujuConfig::new();
    let bad = "controllers: [unclosed\n  - ]broken: : :\n";
    // malformed metadata
    assert!(module(&config, &s(bad), &s(CONTROLLERS), &s(MODELS)).is_none());
    assert!(module(&config, &None, &s(CONTROLLERS), &s(MODELS)).is_none());
    // malformed controllers file
    let a = module(&config, &s(META), &s(bad), &s(MODELS)).unwrap();
    let b = module(&config, &s(META), &None, &s(MODELS)).unwrap();
    assert_eq!(text_of(&a), text_of(&b));
    assert_eq!(text_of(&a), "via 🔮 3.1.0 ");
    // malformed models file
    let c = module(&config, &s(META), &s(CONTROLLERS), &s(bad)).unwrap();
    let d = module(&config, &s(META), &s(CONTROLLERS), &None).unwrap();
    assert_eq!(text_of(&c), text_of(&d));
}

#[test]
fn rendering_is_deterministic_and_idempotent() {
    let config = JujuConfig::new();
    let first = module(&config, &s(META), &s(CONTROLLERS), &s(MODELS)).unwrap();
    let second = module(&config, &s(META), &s(CONTROLLERS), &s(MODELS)).unwrap();
    assert_eq!(first.len(), second.len());
    for i in 0..first.len() {
        assert_eq!(first[i].text, second[i].text);
        assert_eq!(first[i].style, second[i].style);
    }
}

#[test]
fn chain_stops_when_controller_is_not_a_key() {
    let config = JujuConfig::new();
    let models = "controllers:\n  other:\n    current-model: bar\n";
    let out = module(&config, &s(META), &s(CONTROLLERS), &s(models)).unwrap();
    assert_eq!(text_of(&out), "via 🔮 3.1.0 ");
}

#[test]
fn extract_version_reads_the_string_field() {
    assert_eq!(extract_version(&s("version: \"1.2\"\n")), Some("1.2".to_string()));
    assert_eq!(extract_version(&s("other: \"1.2\"\n")), None);
    assert_eq!(extract_version(&None), None);
}

#[test]
fn resolve_active_model_needs_every_step() {
    assert_eq!(
        resolve_active_model(&s(CONTROLLERS), &s(MODELS)),
        Some(("foo".to_string(), "bar".to_string()))
    );
    assert_eq!(resolve_active_model(&None, &s(MODELS)), None);
    assert_eq!(resolve_active_model(&s(CONTROLLERS), &None), None);
    assert_eq!(resolve_active_model(&s("current-controller: 7\n"), &s(MODELS)), None);
    assert_eq!(
        resolve_active_model(&s(CONTROLLERS), &s("controllers:\n  foo: {}\n")),
        None
    );
}

#[test]
fn model_suffix_shape() {
    assert_eq!(model_suffix("foo", "bar"), " (foo:bar)");
    assert_eq!(model_suffix("", ""), " (:)");
}

#[test]
fn default_config_values() {
    let config = JujuConfig::new();
    assert_eq!(config.format, "via [$symbol$version$model]($style) ");
    assert_eq!(config.symbol, "🔮 ");
    assert_eq!(config.style, "fg:#E95420");
    assert!(!config.disabled);
}

#[test]
fn render_failure_is_reported_with_its_error() {
    let mut config = JujuConfig::new();
    config.format = "$version $oops";
    let r = module_or_error(&config, &s(META), &None, &None);
    assert!(matches!(r, Err(FormatError::UnknownVariable(ref n)) if n == "oops"));
    // and the plain entry point folds the failure into silence
    assert!(module(&config, &s(META), &None, &None).is_none());
}

#[test]
fn render_failure_descriptions() {
    assert_eq!(
        FormatError::UnknownVariable("oops".to_string()).describe(),
        "unknown variable: oops"
    );
    assert_eq!(
        FormatError::UnknownStyle("bad".to_string()).describe(),
        "unknown style: bad"
    );
    assert_eq!(
        FormatError::UnterminatedGroup.describe(),
        "unterminated group in format string"
    );
}

#[test]
fn quiet_suppression_is_not_an_error() {
    let config = JujuConfig::new();
    assert!(matches!(module_or_error(&config, &None, &None, &None), Ok(None)));
    let mut disabled = JujuConfig::new();
    disabled.disabled = true;
    assert!(matches!(module_or_error(&disabled, &s(META), &None, &None), Ok(None)));
}
