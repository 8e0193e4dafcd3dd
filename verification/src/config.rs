//! The client configuration: who logs in, and where.
//!
//! These are the values as the configuration file gives them. Reading and
//! parsing the file is the application's part.

use vstd::prelude::*;

verus! {

/// The whole configuration.
#[derive(Debug)]
pub struct Config {
    pub user: ConfigUser,
    pub sim: ConfigSim,
}

/// The account that logs in.
#[derive(Debug)]
pub struct ConfigUser {
    pub first_name: String,
    pub last_name: String,
    pub password_plain: String,
}

/// The simulator to log in to.
#[derive(Debug)]
pub struct ConfigSim {
    pub loginuri: String,
}

} // verus!
