//! Connection configuration for the two stores, with local-development
//! defaults.

use vstd::prelude::*;

verus! {

/// The connection string a local cache index store listens on.
pub fn default_redis_uri() -> (r: String)
    ensures
        r@ == "redis://localhost:6379"@,
{
    "redis://localhost:6379".to_owned()
}

/// The connection string a local graph store listens on.
pub fn default_neo4j_uri() -> (r: String)
    ensures
        r@ == "bolt://localhost:7687"@,
{
    "bolt://localhost:7687".to_owned()
}

/// The graph store's default account name.
pub fn default_neo4j_user() -> (r: String)
    ensures
        r@ == "neo4j"@,
{
    "neo4j".to_owned()
}

/// Configuration for connecting to the graph store.  All values should come
/// from configuration; the defaults exist for local development only, and
/// the default password must never reach production.
pub struct Neo4JConfig {
    pub uri: String,
    pub user: String,
    pub password: String,
}

impl Default for Neo4JConfig {
    fn default() -> (r: Self)
        ensures
            r.uri@ == "bolt://localhost:7687"@,
            r.user@ == "neo4j"@,
    {
        Neo4JConfig {
            uri: default_neo4j_uri(),
            user: default_neo4j_user(),
            password: "12345678".to_owned(),
        }
    }
}

/// Configuration for database connections.
pub struct DatabaseConfig {
    pub redis: String,
    pub neo4j: Neo4JConfig,
}

impl Default for DatabaseConfig {
    fn default() -> (r: Self)
        ensures
            r.redis@ == "redis://localhost:6379"@,
            r.neo4j.uri@ == "bolt://localhost:7687"@,
            r.neo4j.user@ == "neo4j"@,
    {
        DatabaseConfig { redis: default_redis_uri(), neo4j: Neo4JConfig::default() }
    }
}

} // verus!
