use std::path::PathBuf;

use clap::{Arg, ArgAction, ArgMatches, Command};
use web_modules::roots::roots_or_cwd;
use web_modules::{CompilerConfig, Decorators, ResolvedCompiler, Toggle};

fn flag(name: &'static str) -> Arg {
    Arg::new(name).long(name).action(ArgAction::SetTrue)
}

/// Parses a `build` invocation, as far as it concerns the library.
fn parse_build(argv: &[&str]) -> ArgMatches {
    Command::new("build")
        .arg(Arg::new("roots").num_args(0..))
        .arg(Arg::new("out").long("out").required(true))
        .arg(Arg::new("mount").long("mount").default_value("/web_modules"))
        .arg(Arg::new("package").long("package").action(ArgAction::Append))
        .arg(Arg::new("decorators").long("typescript-decorators").default_value("lit"))
        .arg(flag("no-default-features"))
        .args(["typescript", "scss", "tera", "minify", "gzip"].map(flag))
        .args(["no-typescript", "no-scss", "no-tera", "no-minify", "no-gzip"].map(flag))
        .try_get_matches_from(argv)
        .unwrap()
}

fn values(matches: &ArgMatches, name: &str) -> Vec<String> {
    matches.get_many::<String>(name).unwrap_or_default().cloned().collect()
}

fn paths(matches: &ArgMatches, name: &str) -> Vec<PathBuf> {
    values(matches, name).iter().map(PathBuf::from).collect()
}

fn config(matches: &ArgMatches) -> CompilerConfig {
    let toggle = |on: &str, off: &str| Toggle { on: matches.get_flag(on), off: matches.get_flag(off) };
    CompilerConfig {
        no_default_features: matches.get_flag("no-default-features"),
        typescript: toggle("typescript", "no-typescript"),
        scss: toggle("scss", "no-scss"),
        tera: toggle("tera", "no-tera"),
        minify: toggle("minify", "no-minify"),
        gzip: Some(toggle("gzip", "no-gzip")),
        ts_decorators: match values(matches, "decorators")[0].as_str() {
            "standard" => Decorators::Standard,
            _ => Decorators::default(),
        },
        scss_load_paths: Vec::new(),
    }
}

/// Parses a `build` invocation (with a dummy `--out`) and resolves its compiler config.
fn resolve_build(extra: &[&str]) -> ResolvedCompiler {
    let argv: Vec<&str> = [&["build", "--out", "out"][..], extra].concat();
    config(&parse_build(&argv)).resolve()
}

#[test]
fn build_defaults_roots_to_cwd() {
    let roots = paths(&parse_build(&["build", "--out", "dist"]), "roots");
    assert!(roots.is_empty(), "no positional roots given");
    assert_eq!(roots_or_cwd(roots), [PathBuf::from(".")]);
}

#[test]
fn given_roots_are_kept() {
    let roots = vec![PathBuf::from("web"), PathBuf::from("shared")];
    assert_eq!(roots_or_cwd(roots.clone()), roots);
}

#[test]
fn build_parses_positional_roots_and_packages() {
    let matches = parse_build(&[
        "build",
        "web",
        "shared",
        "--out",
        "dist",
        "--mount",
        "/repo/web_modules",
        "--package",
        "lit@^3",
        "--package",
        "@lit/context@^1",
        "--minify",
    ]);
    let roots = roots_or_cwd(paths(&matches, "roots"));
    assert_eq!(roots, [PathBuf::from("web"), PathBuf::from("shared")]);
    assert_eq!(paths(&matches, "out"), [PathBuf::from("dist")]);
    assert_eq!(values(&matches, "mount"), ["/repo/web_modules"]);
    assert_eq!(values(&matches, "package"), ["lit@^3", "@lit/context@^1"]);
    assert!(config(&matches).resolve().minify, "--minify opts in");
}

#[test]
fn toggles_default_on_set_and_opt_in() {
    let d = resolve_build(&[]);
    assert!(d.typescript && d.scss && d.tera, "ts/scss/tera default on");
    assert!(!d.minify && !d.gzip, "minify/gzip default off");
    assert!(resolve_build(&["--minify"]).minify, "--minify opts in");
}

#[test]
fn toggles_no_scss_disables_regardless_of_order() {
    assert!(!resolve_build(&["--no-scss"]).scss);
    // `--no-<name>` wins over `--<name>`, in either order.
    assert!(!resolve_build(&["--no-scss", "--scss"]).scss);
    assert!(!resolve_build(&["--scss", "--no-scss"]).scss);
}

#[test]
fn no_default_features_disables_then_reenables() {
    let nd = resolve_build(&["--no-default-features"]);
    assert!(
        !nd.typescript && !nd.scss && !nd.tera,
        "--no-default-features turns the default-on set off"
    );
    let one = resolve_build(&["--no-default-features", "--scss"]);
    assert!(one.scss, "--scss re-enables after --no-default-features");
    assert!(!one.typescript && !one.tera, "the others stay off");
}

#[test]
fn no_default_features_leaves_the_opt_in_set_alone() {
    let d = resolve_build(&["--no-default-features", "--minify", "--gzip"]);
    assert!(d.minify && d.gzip);
    assert!(!resolve_build(&["--gzip", "--no-gzip"]).gzip);
}

#[test]
fn typescript_decorators_default_lit() {
    assert_eq!(resolve_build(&[]).ts_decorators, Decorators::Lit);
    assert_eq!(
        resolve_build(&["--typescript-decorators", "standard"]).ts_decorators,
        Decorators::Standard
    );
}

#[test]
fn gzip_that_is_not_built_in_is_off() {
    let mut flags = config(&parse_build(&["build", "--out", "out", "--gzip"]));
    assert!(flags.resolve().gzip);
    flags.gzip = None;
    assert!(!flags.resolve().gzip);
}

#[test]
fn toggle_truth_table() {
    let toggle = |on: bool, off: bool| Toggle { on, off };
    assert!(toggle(false, false).enabled(true, false));
    assert!(!toggle(false, false).enabled(true, true));
    assert!(!toggle(false, false).enabled(false, false));
    assert!(toggle(true, false).enabled(false, true));
    assert!(!toggle(true, true).enabled(true, false));
    assert!(!toggle(false, true).enabled(true, false));
}

#[test]
fn build_and_dev_share_the_profile() {
    let mut flags = config(&parse_build(&["build", "--out", "out", "--no-tera"]));
    flags.scss_load_paths = vec![PathBuf::from("styles"), PathBuf::from("vendor/scss")];
    let processors = flags.resolve().into_processors();
    let config = flags.resolve().into_dev_config();
    assert!(processors.typescript && processors.scss && !processors.tera);
    assert!(config.typescript && config.scss && !config.tera);
    assert_eq!(processors.ts_decorators, config.ts_decorators);
    assert_eq!(processors.extra_scss_load_paths, flags.scss_load_paths);
    assert_eq!(config.extra_scss_load_paths, flags.scss_load_paths);
}
