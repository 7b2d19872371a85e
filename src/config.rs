use vstd::prelude::*;

verus! {

/// Connection settings for the graph store: where it is, who connects, and
/// which database to use (the server's default when `None`).
#[derive(Debug, Clone)]
pub struct Neo4jConfig {
    pub uri: String,
    pub username: String,
    pub password: String,
    pub database: Option<String>,
}

} // verus!
