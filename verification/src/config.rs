//! The settings of a sync.

use crate::versions::string_views;
use vstd::prelude::*;

verus! {

/// Where to sync from, where to, and what to leave out.
#[derive(Debug)]
pub struct Config {
    /// The host's URL, as text.
    pub host: String,
    pub username: String,
    pub password: String,
    /// The local directory that mirrors the remote one.
    pub out_dir: String,
    /// Decoded path fragments: an href whose decoded form equals or
    /// contains one of them is skipped.
    pub black_list: Vec<String>,
}

/// The mathematical value of a [`Config`].
pub struct ConfigView {
    pub host: Seq<char>,
    pub username: Seq<char>,
    pub password: Seq<char>,
    pub out_dir: Seq<char>,
    pub black_list: Seq<Seq<char>>,
}

impl View for Config {
    type V = ConfigView;

    open spec fn view(&self) -> ConfigView {
        ConfigView {
            host: self.host@,
            username: self.username@,
            password: self.password@,
            out_dir: self.out_dir@,
            black_list: string_views(self.black_list@),
        }
    }
}

} // verus!
