//! The commands of the program, as plain values.

use crate::text::ensure_trailing_slash;
use crate::text::join;
use crate::text::join_path;
use crate::text::with_trailing_slash;
use vstd::prelude::*;

verus! {

/// The name of the configuration file that is looked for when none is given.
pub open spec fn default_config_name() -> Seq<char> {
    "nube-sync.config.toml"@
}

/// What the program was asked to do.
#[derive(Debug)]
pub struct NubeSyncCommand {
    pub cmd: SubCommand,
}

#[derive(Debug)]
pub enum SubCommand {
    /// Sync files from the host server to the local machine.
    Sync(SyncSubCommand),
    /// Clear the out directory if a `.sync` file exists inside.
    Clear(ClearSubCommand),
    /// Migrate the old version of the manifest to the new one.
    Migrate(SyncSubCommand),
}

/// The arguments of a sync.
#[derive(Debug)]
pub struct SyncSubCommand {
    remote_location: String,
    out: Option<String>,
    config: Option<String>,
}

impl SyncSubCommand {
    /// The remote location as it was given.
    pub closed spec fn given_location(&self) -> Seq<char> {
        self.remote_location@
    }

    /// The output directory that was given, if any.
    pub closed spec fn given_out(&self) -> Option<Seq<char>> {
        match self.out {
            Some(out) => Some(out@),
            None => None,
        }
    }

    /// The configuration file that was given, if any.
    pub closed spec fn given_config(&self) -> Option<Seq<char>> {
        match self.config {
            Some(config) => Some(config@),
            None => None,
        }
    }

    /// The arguments of a sync of `remote_location`, with the output
    /// directory `out` in place of the configured one and the
    /// configuration read from `config`, where they are given.
    pub fn new(remote_location: String, out: Option<String>, config: Option<String>) -> (r: Self)
        ensures
            r.given_location() == remote_location@,
            r.given_out() == match out {
                Some(out) => Some(out@),
                None => None,
            },
            r.given_config() == match config {
                Some(config) => Some(config@),
                None => None,
            },
    {
        SyncSubCommand { remote_location, out, config }
    }

    /// The remote location, made to end with a `/`.
    pub fn remote_location(&self) -> (r: String)
        ensures
            r@ == with_trailing_slash(self.given_location()),
    {
        ensure_trailing_slash(self.remote_location.as_str())
    }

    /// The output directory that was given, if any.
    pub fn out_dir(&self) -> (r: Option<&String>)
        ensures
            match r {
                Some(out) => self.given_out() == Some(out@),
                None => self.given_out() is None,
            },
    {
        self.out.as_ref()
    }

    /// The configuration file to read: the one that was given, or else the
    /// file of the default name in `default_dir`.
    pub fn config_location(&self, default_dir: &str) -> (r: String)
        ensures
            r@ == match self.given_config() {
                Some(config) => config,
                None => join_path(default_dir@, default_config_name()),
            },
    {
        match &self.config {
            Some(config) => config.clone(),
            None => join(default_dir, "nube-sync.config.toml"),
        }
    }
}

/// The arguments of a clear.
#[derive(Debug)]
pub struct ClearSubCommand {
    /// The directory to empty, if a `.sync` file is found inside.
    pub out: String,
}

} // verus!
