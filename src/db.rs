//! A database: a named directory of model schemas, and the command executor.
use vstd::prelude::*;
use std::collections::HashMap;
use crate::{Error, Result};
use crate::command::Command;
use crate::config::Config;
use crate::model::Model;
use vstd::string::StringExecFns;

verus! {

pub struct Database {
    pub name: String,
    pub config: Config,
    /// `<data dir>/<name>`, holding one `<model>.schema` file per model.
    pub data_dir: String,
    pub schemas: HashMap<String, Model>,
}

impl Database {
    /// A database named `name` under `config`'s data directory (the default
    /// configuration if none is given), with no schemas loaded yet.
    pub fn new(name: String, config: Option<Config>) -> (r: Database)
        ensures
            config matches Some(c) ==> r.config == c,
            config is None ==> r.config.data_dir@ == "/var/soupdb"@,
            r.data_dir@ == r.config.data_dir@ + "/"@ + name@,
            r.name == name,
    {
        let config = match config {
            Some(c) => c,
            None => Config::new(),
        };
        let mut data_dir = config.data_dir.clone();
        data_dir.append("/");
        data_dir.append(name.as_str());
        Database { name, config, data_dir, schemas: HashMap::new() }
    }

    /// Executes a command; no command is implemented yet.
    pub fn run_command(command: Command) -> (r: Result<()>)
        ensures
            r == Err::<(), Error>(Error::NotYetImplemented),
    {
        Err(Error::NotYetImplemented)
    }
}

} // verus!
