use std::path::PathBuf;

use ruget::{ConfigSource, TurronConfigOptions};

fn shown(sources: Vec<ConfigSource>) -> Vec<String> {
    sources
        .into_iter()
        .map(|source| match source {
            ConfigSource::GlobalFile(file) => format!("global {}", file.display()),
            ConfigSource::Environment => "environment".to_string(),
            ConfigSource::PackageRoot(root) => format!("package {}", root.display()),
        })
        .collect()
}

#[test]
fn defaults_read_the_environment_only() {
    assert_eq!(shown(TurronConfigOptions::new().sources()), vec!["environment"]);
    assert_eq!(shown(TurronConfigOptions::default().sources()), vec!["environment"]);
    assert!(TurronConfigOptions::new().env(false).sources().is_empty());
}

#[test]
fn sources_come_in_order() {
    let options = TurronConfigOptions::new()
        .global_config_file(Some(PathBuf::from("/etc/turron.kdl")))
        .pkg_root(Some(PathBuf::from("/work/pkg")));
    assert_eq!(
        shown(options.sources()),
        vec!["global /etc/turron.kdl", "environment", "package /work/pkg"]
    );
}

#[test]
fn global_file_needs_global_settings() {
    let options = TurronConfigOptions::new()
        .global(false)
        .env(false)
        .global_config_file(Some(PathBuf::from("/etc/turron.kdl")))
        .pkg_root(Some(PathBuf::from("pkg")));
    assert_eq!(shown(options.sources()), vec!["package pkg"]);
    let options = TurronConfigOptions::new()
        .global_config_file(Some(PathBuf::from("a.kdl")))
        .global_config_file(None)
        .global(true);
    assert_eq!(shown(options.sources()), vec!["environment"]);
}
