use vstd::prelude::*;

verus! {

/// Process configuration: the database address is required; the bus address
/// and the environment name carry defaults. Parsing the environment and the
/// command line happens outside the library, which only holds the values.
pub struct Config {
    pub database_url: String,
    pub env: String,
    pub nats_url: String,
}

impl Config {
    pub fn new(database_url: String, env: String, nats_url: String) -> (c: Config)
        ensures
            c.database_url == database_url,
            c.env == env,
            c.nats_url == nats_url,
    {
        Config { database_url, env, nats_url }
    }

    /// The defaults: an empty environment name and the local bus address.
    pub fn with_defaults(database_url: String) -> (c: Config)
        ensures
            c.database_url == database_url,
            c.env@ == Seq::<char>::empty(),
            c.nats_url@ == "nats://localhost:4222"@,
    {
        let nats_url = String::from_str("nats://localhost:4222");
        Config { database_url, env: String::new(), nats_url }
    }
}

} // verus!
