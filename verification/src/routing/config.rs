//! The server's configuration values.
use vstd::prelude::*;
use vstd::string::StringExecFns;
use crate::routing::error::Error;
use crate::routing::text::str_eq;

verus! {

/// The prefix graphs are stored under by default.
pub fn default_graphs_prefix() -> (r: String)
    ensures
        r@ == "graphs/"@,
{
    String::from_str("graphs/")
}

/// Where graphs are stored and how many are kept in memory.
#[derive(Clone, Debug, PartialEq, Eq)]
pub struct GraphsConfig {
    pub prefix: String,
    /// capacity for the internal LRU cache
    pub cache_size: Option<usize>,
}

/// The prefix outputs are stored under by default.
pub fn default_outputs_prefix() -> (r: String)
    ensures
        r@ == "outputs/"@,
{
    String::from_str("outputs/")
}

/// Where outputs are stored.
#[derive(Clone, Debug, PartialEq, Eq)]
pub struct OutputsConfig {
    pub prefix: String,
}

/// The number of graphs kept in memory when no size is configured.
pub const DEFAULT_GRAPH_CACHE_SIZE: usize = 10;

impl GraphsConfig {
    /// The number of graphs to keep in memory: the configured size, ten by default.
    pub fn cache_capacity(&self) -> (r: usize)
        ensures
            r == (match self.cache_size {
                Some(n) => n,
                None => DEFAULT_GRAPH_CACHE_SIZE,
            }),
    {
        match self.cache_size {
            Some(n) => n,
            None => DEFAULT_GRAPH_CACHE_SIZE,
        }
    }
}

impl OutputsConfig {
    /// The key an output is stored under: the prefix followed by the id.
    pub fn output_key(&self, output_id: &str) -> (r: String)
        ensures
            r@ == self.prefix@ + output_id@,
    {
        let mut key = self.prefix.clone();
        key.append(output_id);
        key
    }
}

/// The object store to use.
#[derive(Clone, Debug, PartialEq, Eq)]
pub enum ObjectStoreConfig {
    /// A directory of the local file system.
    Filesystem { root: String },
    /// S3, configured by environment variables.
    S3ByEnvironment {},
    /// S3, configured explicitly.
    S3 {
        endpoint: String,
        access_key: String,
        secret_access_key: String,
        region: String,
        bucket_name: String,
        allow_http: Option<bool>,
    },
}

impl ObjectStoreConfig {
    /// Whether plain HTTP may be used: only when an S3 configuration allows it.
    pub fn allows_http(&self) -> (r: bool)
        ensures
            r == (match self {
                ObjectStoreConfig::S3 { allow_http, .. } => *allow_http == Some(true),
                _ => false,
            }),
    {
        match self {
            ObjectStoreConfig::S3 { allow_http, .. } => match allow_http {
                Some(b) => *b,
                None => false,
            },
            _ => false,
        }
    }
}

/// The routing mode a request names, among the configured modes named
/// `names`: the default mode (`Ok(None)`) for an empty name, otherwise the
/// position of the first mode of that name (`Ok(Some(i))`); a name no mode
/// has is refused with `UnknownRoutingMode`.
pub fn routing_mode_index(names: &Vec<String>, routing_mode_name: &str) -> (r: Result<Option<usize>, Error>)
    ensures
        routing_mode_name@.len() == 0 ==> r == Ok::<Option<usize>, Error>(None),
        routing_mode_name@.len() > 0 ==> match r {
            Ok(Some(i)) => i < names@.len() && names@[i as int]@ == routing_mode_name@
                && forall|j: int| 0 <= j < i ==> (#[trigger] names@[j])@ != routing_mode_name@,
            Ok(None) => false,
            Err(e) => e == Error::UnknownRoutingMode
                && forall|j: int| 0 <= j < names@.len() ==> (#[trigger] names@[j])@ != routing_mode_name@,
        },
{
    if routing_mode_name.unicode_len() == 0 {
        return Ok(None);
    }
    let n = names.len();
    for i in 0..n
        invariant
            n == names@.len(),
            routing_mode_name@.len() > 0,
            forall|j: int| 0 <= j < i ==> (#[trigger] names@[j])@ != routing_mode_name@,
    {
        if str_eq(names[i].as_str(), routing_mode_name) {
            return Ok(Some(i));
        }
    }
    Err(Error::UnknownRoutingMode)
}

} // verus!
