//! Where the settings of the client come from.

use std::path::PathBuf;
use vstd::prelude::*;

verus! {

/// A path of the file system. Nothing is known of what it holds.
#[verifier::external_type_specification]
#[verifier::external_body]
pub struct ExPathBuf(PathBuf);

/// Which places to read settings from.
#[derive(Debug)]
pub struct TurronConfigOptions {
    global: bool,
    env: bool,
    pkg_root: Option<PathBuf>,
    global_config_file: Option<PathBuf>,
}

/// What a [`TurronConfigOptions`] stands for in specifications.
pub struct TurronConfigOptionsView {
    pub global: bool,
    pub env: bool,
    pub pkg_root: Option<PathBuf>,
    pub global_config_file: Option<PathBuf>,
}

impl View for TurronConfigOptions {
    type V = TurronConfigOptionsView;

    closed spec fn view(&self) -> TurronConfigOptionsView {
        TurronConfigOptionsView {
            global: self.global,
            env: self.env,
            pkg_root: self.pkg_root,
            global_config_file: self.global_config_file,
        }
    }
}

/// One place to read settings from.
#[derive(Debug)]
pub enum ConfigSource {
    /// The file of settings that holds for every package of a user.
    GlobalFile(PathBuf),
    /// The variables of the environment.
    Environment,
    /// The files of settings in the directory of a package.
    PackageRoot(PathBuf),
}

/// The places to read settings from, in the order in which they are
/// read, so that a later one overrides an earlier one: the global file,
/// where global settings are wanted and the file is known; the
/// environment, where it is wanted; the directory of the package, where
/// it is known.
pub open spec fn sources_of(options: TurronConfigOptionsView) -> Seq<ConfigSource> {
    (match options.global_config_file {
        Some(file) if options.global => seq![ConfigSource::GlobalFile(file)],
        _ => Seq::empty(),
    }) + (if options.env {
        seq![ConfigSource::Environment]
    } else {
        Seq::empty()
    }) + (match options.pkg_root {
        Some(root) => seq![ConfigSource::PackageRoot(root)],
        None => Seq::empty(),
    })
}

impl TurronConfigOptions {
    /// Options that read global settings and the environment, and know
    /// neither a global file nor the directory of a package.
    pub fn new() -> (options: TurronConfigOptions)
        ensures
            options@ == (TurronConfigOptionsView {
                global: true,
                env: true,
                pkg_root: None,
                global_config_file: None,
            }),
    {
        TurronConfigOptions { global: true, env: true, pkg_root: None, global_config_file: None }
    }

    /// Sets whether global settings are wanted.
    pub fn global(self, global: bool) -> (options: TurronConfigOptions)
        ensures
            options@ == (TurronConfigOptionsView { global, ..self@ }),
    {
        let mut options = self;
        options.global = global;
        options
    }

    /// Sets whether the environment is wanted.
    pub fn env(self, env: bool) -> (options: TurronConfigOptions)
        ensures
            options@ == (TurronConfigOptionsView { env, ..self@ }),
    {
        let mut options = self;
        options.env = env;
        options
    }

    /// Sets the directory of the package.
    pub fn pkg_root(self, root: Option<PathBuf>) -> (options: TurronConfigOptions)
        ensures
            options@ == (TurronConfigOptionsView { pkg_root: root, ..self@ }),
    {
        let mut options = self;
        options.pkg_root = root;
        options
    }

    /// Sets the file of global settings.
    pub fn global_config_file(self, file: Option<PathBuf>) -> (options: TurronConfigOptions)
        ensures
            options@ == (TurronConfigOptionsView { global_config_file: file, ..self@ }),
    {
        let mut options = self;
        options.global_config_file = file;
        options
    }

    /// The places to read settings from, in the order in which they are
    /// read.
    pub fn sources(self) -> (sources: Vec<ConfigSource>)
        ensures
            sources@ == sources_of(self@),
    {
        let mut sources: Vec<ConfigSource> = Vec::new();
        if self.global {
            match self.global_config_file {
                Some(file) => {
                    sources.push(ConfigSource::GlobalFile(file));
                },
                None => {},
            }
        }
        if self.env {
            sources.push(ConfigSource::Environment);
        }
        match self.pkg_root {
            Some(root) => {
                sources.push(ConfigSource::PackageRoot(root));
            },
            None => {},
        }
        assert(sources@ =~= sources_of(self@));
        sources
    }
}

impl Default for TurronConfigOptions {
    fn default() -> (options: TurronConfigOptions)
        ensures
            options@ == (TurronConfigOptionsView {
                global: true,
                env: true,
                pkg_root: None,
                global_config_file: None,
            }),
    {
        TurronConfigOptions::new()
    }
}

} // verus!
