//! Which compiler processors run: the toggles of the command line, folded against the defaults.
//!
//! Each processor has a pair of flags, `--<name>` and `--no-<name>`. TypeScript, SCSS and Tera run
//! by default, minification and gzip do not; `--no-default-features` turns the default-on set off.
use std::path::PathBuf;

use vstd::prelude::*;

verus! {

/// The flags that were given for one processor.
#[derive(Clone, Copy, Debug, PartialEq, Eq, Structural)]
pub struct Toggle {
    /// `--<name>` was given.
    pub on: bool,
    /// `--no-<name>` was given.
    pub off: bool,
}

impl Toggle {
    /// Whether the processor runs: `--no-<name>` turns it off in any case, `--<name>` on, and
    /// without either it runs if it does by default and the defaults are not turned off.
    pub open spec fn runs(self, default: bool, no_default_features: bool) -> bool {
        !self.off && (self.on || (default && !no_default_features))
    }

    /// Whether the processor runs.
    pub fn enabled(&self, default: bool, no_default_features: bool) -> (enabled: bool)
        ensures
            enabled == self.runs(default, no_default_features),
    {
        if self.off {
            false
        } else if self.on {
            true
        } else {
            default && !no_default_features
        }
    }
}

/// The dialect of decorators that the TypeScript processor compiles.
#[derive(Clone, Copy, Debug, PartialEq, Eq, Structural)]
pub enum Decorators {
    /// As Lit uses them.
    Lit,
    /// As the language standard defines them.
    Standard,
}

impl Default for Decorators {
    fn default() -> (decorators: Self)
        ensures
            decorators == Decorators::Lit,
    {
        Decorators::Lit
    }
}

/// The compiler flags that `build` and `dev` share.
#[derive(Debug)]
pub struct CompilerConfig {
    /// `--no-default-features` was given.
    pub no_default_features: bool,
    pub typescript: Toggle,
    pub scss: Toggle,
    pub tera: Toggle,
    pub minify: Toggle,
    /// None, if gzip is not built in.
    pub gzip: Option<Toggle>,
    pub ts_decorators: Decorators,
    pub scss_load_paths: Vec<PathBuf>,
}

/// Which processors run, and how they are tuned.
#[derive(Debug)]
pub struct ResolvedCompiler {
    pub typescript: bool,
    pub scss: bool,
    pub tera: bool,
    pub minify: bool,
    pub gzip: bool,
    pub ts_decorators: Decorators,
    pub extra_scss_load_paths: Vec<PathBuf>,
}

/// What the build pipeline is told of the processors. Minification and gzip are no part of it:
/// they are options of its output.
#[derive(Debug)]
pub struct Processors {
    pub typescript: bool,
    pub scss: bool,
    pub tera: bool,
    pub ts_decorators: Decorators,
    pub extra_scss_load_paths: Vec<PathBuf>,
}

/// What the dev server is told of the processors. It neither minifies nor compresses.
#[derive(Debug)]
pub struct DevConfig {
    pub typescript: bool,
    pub scss: bool,
    pub tera: bool,
    pub ts_decorators: Decorators,
    pub extra_scss_load_paths: Vec<PathBuf>,
}

/// What `build` and `dev` have in common: which sources are compiled, and how.
pub struct Profile {
    pub typescript: bool,
    pub scss: bool,
    pub tera: bool,
    pub ts_decorators: Decorators,
    pub extra_scss_load_paths: Seq<PathBuf>,
}

impl Processors {
    /// The part that `build` shares with `dev`: all of it.
    pub open spec fn profile(&self) -> Profile {
        Profile {
            typescript: self.typescript,
            scss: self.scss,
            tera: self.tera,
            ts_decorators: self.ts_decorators,
            extra_scss_load_paths: self.extra_scss_load_paths@,
        }
    }
}

impl DevConfig {
    /// The part that `dev` shares with `build`: all of it.
    pub open spec fn profile(&self) -> Profile {
        Profile {
            typescript: self.typescript,
            scss: self.scss,
            tera: self.tera,
            ts_decorators: self.ts_decorators,
            extra_scss_load_paths: self.extra_scss_load_paths@,
        }
    }
}

impl CompilerConfig {
    /// Folds each processor's flags against its default and `--no-default-features`.
    pub fn resolve(&self) -> (resolved: ResolvedCompiler)
        ensures
            resolved.typescript == self.typescript.runs(true, self.no_default_features),
            resolved.scss == self.scss.runs(true, self.no_default_features),
            resolved.tera == self.tera.runs(true, self.no_default_features),
            resolved.minify == self.minify.runs(false, self.no_default_features),
            resolved.gzip == match self.gzip {
                Some(gzip) => gzip.runs(false, self.no_default_features),
                None => false,
            },
            resolved.ts_decorators == self.ts_decorators,
            resolved.extra_scss_load_paths@ == self.scss_load_paths@,
    {
        let nd: bool = self.no_default_features;
        ResolvedCompiler {
            typescript: self.typescript.enabled(true, nd),
            scss: self.scss.enabled(true, nd),
            tera: self.tera.enabled(true, nd),
            minify: self.minify.enabled(false, nd),
            gzip: match &self.gzip {
                Some(gzip) => gzip.enabled(false, nd),
                None => false,
            },
            ts_decorators: self.ts_decorators,
            extra_scss_load_paths: self.scss_load_paths.clone(),
        }
    }
}

impl ResolvedCompiler {
    /// The part that `build` and `dev` share: all but minification and gzip.
    pub open spec fn profile(&self) -> Profile {
        Profile {
            typescript: self.typescript,
            scss: self.scss,
            tera: self.tera,
            ts_decorators: self.ts_decorators,
            extra_scss_load_paths: self.extra_scss_load_paths@,
        }
    }

    /// The settings for the build pipeline.
    pub fn into_processors(self) -> (processors: Processors)
        ensures
            processors.profile() == self.profile(),
    {
        Processors {
            typescript: self.typescript,
            scss: self.scss,
            tera: self.tera,
            ts_decorators: self.ts_decorators,
            extra_scss_load_paths: self.extra_scss_load_paths,
        }
    }

    /// The settings for the dev server.
    pub fn into_dev_config(self) -> (config: DevConfig)
        ensures
            config.profile() == self.profile(),
    {
        DevConfig {
            typescript: self.typescript,
            scss: self.scss,
            tera: self.tera,
            ts_decorators: self.ts_decorators,
            extra_scss_load_paths: self.extra_scss_load_paths,
        }
    }
}

/// `--no-<name>` wins over `--<name>` and over every default.
pub proof fn law_off_wins(toggle: Toggle, default: bool, no_default_features: bool)
    requires
        toggle.off,
    ensures
        !toggle.runs(default, no_default_features),
{
}

/// `--no-default-features` turns every processor off that was not asked for, and `--<name>` turns
/// it on again.
pub proof fn law_no_default_features(toggle: Toggle, default: bool)
    ensures
        toggle.runs(default, true) == (toggle.on && !toggle.off),
{
}

/// `--no-default-features` makes no difference to a processor that is off by default.
pub proof fn law_opt_in_ignores_defaults(toggle: Toggle)
    ensures
        toggle.runs(false, true) == toggle.runs(false, false),
{
}

/// From the same flags, `build` and `dev` compile the same sources in the same way.
pub proof fn law_build_and_dev_share_the_profile(
    resolved: ResolvedCompiler,
    processors: Processors,
    config: DevConfig,
)
    requires
        processors.profile() == resolved.profile(),
        config.profile() == resolved.profile(),
    ensures
        processors.typescript == config.typescript,
        processors.scss == config.scss,
        processors.tera == config.tera,
        processors.ts_decorators == config.ts_decorators,
        processors.extra_scss_load_paths@ == config.extra_scss_load_paths@,
{
}

/// What each pair of flags does: `--no-<name>` turns the processor off, `--<name>` without it turns
/// the processor on, whatever the defaults are; without either the processor runs if it does by
/// default and the defaults are not turned off.
pub proof fn law_flags_decide(
    toggle: Toggle,
    default: bool,
    no_default_features: bool,
    enabled: bool,
)
    requires
        call_ensures(Toggle::enabled, (&toggle, default, no_default_features), enabled),
    ensures
        toggle.off ==> !enabled,
        toggle.on && !toggle.off ==> enabled,
        !toggle.on && !toggle.off ==> enabled == (default && !no_default_features),
{
}

/// What the flags of a command line come to, processor by processor: TypeScript, SCSS and Tera run
/// unless they or the defaults are turned off, minification and gzip only if they are asked for.
/// The decorators and the load paths are those given.
pub proof fn law_each_processor_is_resolved(config: CompilerConfig, resolved: ResolvedCompiler)
    requires
        call_ensures(CompilerConfig::resolve, (&config,), resolved),
    ensures
        config.typescript.off ==> !resolved.typescript,
        config.typescript.on && !config.typescript.off ==> resolved.typescript,
        !config.typescript.on && !config.typescript.off ==> resolved.typescript
            == !config.no_default_features,
        config.scss.off ==> !resolved.scss,
        config.scss.on && !config.scss.off ==> resolved.scss,
        !config.scss.on && !config.scss.off ==> resolved.scss == !config.no_default_features,
        config.tera.off ==> !resolved.tera,
        config.tera.on && !config.tera.off ==> resolved.tera,
        !config.tera.on && !config.tera.off ==> resolved.tera == !config.no_default_features,
        resolved.minify == (config.minify.on && !config.minify.off),
        config.gzip is None ==> !resolved.gzip,
        config.gzip matches Some(gzip) ==> resolved.gzip == (gzip.on && !gzip.off),
        resolved.ts_decorators == config.ts_decorators,
        resolved.extra_scss_load_paths@ == config.scss_load_paths@,
{
}

/// The build pipeline is told of each setting as it was resolved.
pub proof fn law_build_gets_each_setting(resolved: ResolvedCompiler, processors: Processors)
    requires
        call_ensures(ResolvedCompiler::into_processors, (resolved,), processors),
    ensures
        processors.typescript == resolved.typescript,
        processors.scss == resolved.scss,
        processors.tera == resolved.tera,
        processors.ts_decorators == resolved.ts_decorators,
        processors.extra_scss_load_paths@ == resolved.extra_scss_load_paths@,
{
}

/// The dev server is told of each setting as it was resolved.
pub proof fn law_dev_gets_each_setting(resolved: ResolvedCompiler, config: DevConfig)
    requires
        call_ensures(ResolvedCompiler::into_dev_config, (resolved,), config),
    ensures
        config.typescript == resolved.typescript,
        config.scss == resolved.scss,
        config.tera == resolved.tera,
        config.ts_decorators == resolved.ts_decorators,
        config.extra_scss_load_paths@ == resolved.extra_scss_load_paths@,
{
}

} // verus!
