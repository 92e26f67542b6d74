//! The database configuration and the command line's shape.
use vstd::prelude::*;
use vstd::string::*;

verus! {

/// The id attribute used by resources that do not name their own.
pub struct ResourceDefaults {
    pub id_attr_name: String,
    pub id_attr_type: String,
}

/// One declared secondary index: a dotted attribute path.
pub struct IndexConf {
    pub attr_path: String,
    pub unique: Option<bool>,
}

/// The configuration of one resource.
pub struct ResourceConf {
    pub id_attr_name: Option<String>,
    pub id_attr_type: Option<String>,
    pub indices: Vec<IndexConf>,
}

/// The database configuration. `resources` maps each resource name to its
/// configuration, one entry per name.
pub struct DbConf {
    pub db_size: usize,
    pub no_sync: bool,
    pub allow_conf_resources_only: bool,
    pub resource_defaults: ResourceDefaults,
    pub resources: Vec<(String, ResourceConf)>,
}

impl DbConf {
    /// A configuration with one resource, no indices, and the id attribute
    /// `_rowid` of type `integer`.
    pub fn new(size: usize, no_sync: bool, resource_name: String) -> (r: DbConf)
        ensures
            r.db_size == size,
            r.no_sync == no_sync,
            !r.allow_conf_resources_only,
            r.resource_defaults.id_attr_name@ == "_rowid"@,
            r.resource_defaults.id_attr_type@ == "integer"@,
            r.resources@.len() == 1,
            r.resources@[0].0@ == resource_name@,
            r.resources@[0].1.id_attr_name is None,
            r.resources@[0].1.id_attr_type is None,
            r.resources@[0].1.indices@.len() == 0,
    {
        let res_defaults = ResourceDefaults {
            id_attr_name: String::from_str("_rowid"),
            id_attr_type: String::from_str("integer"),
        };
        let res_conf = ResourceConf { id_attr_name: None, id_attr_type: None, indices: Vec::new() };
        let mut resources: Vec<(String, ResourceConf)> = Vec::new();
        resources.push((resource_name, res_conf));
        DbConf {
            allow_conf_resources_only: false,
            db_size: size,
            no_sync,
            resource_defaults: res_defaults,
            resources,
        }
    }
}

/// The command line: a subcommand, the data directory and an optional
/// configuration file.
pub struct CmdLine {
    pub sub: SubCommand,
    pub db_path: String,
    pub conf_file: Option<String>,
}

pub enum SubCommand {
    Load(Load),
    Search(Search),
}

/// Bulk-load a resource from a file, or from standard input.
pub struct Load {
    pub resource_name: String,
    pub json_file: Option<String>,
}

/// Scan a resource with a JSONPath filter, to a file or standard output.
pub struct Search {
    pub query: String,
    pub resource_name: String,
    pub out_file: Option<String>,
}

} // verus!
