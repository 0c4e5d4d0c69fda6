use ani::config::{Config, Cursor};
use ani::context::Context;
use ani::package::Package;
use ani::verbosity::{Verbosity, VerbosityLevel};

#[test]
fn verbosity_levels() {
    assert_eq!(Verbosity::new(0, 0).level(), VerbosityLevel::Default);
    assert_eq!(Verbosity::new(1, 0).level(), VerbosityLevel::Verbose);
    assert_eq!(Verbosity::new(2, 0).level(), VerbosityLevel::ExtraVerbose);
    assert_eq!(Verbosity::new(7, 0).level(), VerbosityLevel::Trace);
    assert_eq!(Verbosity::new(3, 1).level(), VerbosityLevel::Quiet);
    assert_eq!(Verbosity::new(0, 2).level(), VerbosityLevel::Silent);
    assert!(VerbosityLevel::Trace.is_trace());
    assert!(!VerbosityLevel::Verbose.is_trace());
    assert_eq!(VerbosityLevel::default(), VerbosityLevel::Default);
}

#[test]
fn config_accessors() {
    let cursor = Cursor::new("left_ptr".to_string(), vec!["default".to_string()], "Normal.ani".to_string());
    let config = Config::new("Suisei".to_string(), vec![cursor]);
    assert_eq!(config.theme(), "Suisei");
    assert_eq!(config.cursors()[0].name(), "left_ptr");
    assert_eq!(config.cursors()[0].aliases(), &["default".to_string()]);
    assert_eq!(config.cursors()[0].input(), "Normal.ani");
}

#[test]
fn package_layout() {
    let package = Package::new("/tmp/pkg".to_string());
    assert_eq!(package.config(), "/tmp/pkg/Cursor.toml");
    assert_eq!(package.build().as_path(), "/tmp/pkg/build");
    assert_eq!(package.build().frames(), "/tmp/pkg/build/frames");
    assert_eq!(package.build().theme().as_path(), "/tmp/pkg/build/theme");
    assert_eq!(package.build().theme().cursors(), "/tmp/pkg/build/theme/cursors");
    assert_eq!(package.build().theme().index_theme(), "/tmp/pkg/build/theme/index.theme");
}

#[test]
fn context_with_level() {
    let ctx = Context::default();
    assert_eq!(ctx.level, VerbosityLevel::Default);
    let ctx = ctx.with_level(VerbosityLevel::Trace);
    assert!(ctx.level.is_trace());
    assert!(ctx.config.is_none());
    assert!(ctx.package.is_none());
}
