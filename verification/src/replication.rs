//! The replication role of a server and the counters that go with it.

use crate::config::{text_of, Config, ConfigView};
use vstd::prelude::*;

verus! {

/// The role of a server in replication.
#[derive(Clone, Copy, Debug, PartialEq, Eq, Structural)]
pub enum ReplRole {
    /// The primary: it takes writes and streams them to its replicas.
    Master,
    /// A replica: it applies the writes that its primary streams.
    Slave,
}

/// The name of a role as `INFO` reports it.
pub open spec fn role_name(role: ReplRole) -> Seq<char> {
    match role {
        ReplRole::Master => "master"@,
        ReplRole::Slave => "slave"@,
    }
}

impl ReplRole {
    /// The name of the role as `INFO` reports it.
    pub fn to_string(&self) -> (name: String)
        ensures
            name@ == role_name(*self),
    {
        match self {
            ReplRole::Master => "master".to_owned(),
            ReplRole::Slave => "slave".to_owned(),
        }
    }
}

/// The identifier that a primary announces to its replicas.
pub open spec fn replication_id() -> Seq<char> {
    "8371b4fb1155b71f4a04d3e1bc3e18c4a990aeeb"@
}

/// The replication state of a server.
pub struct ReplicationConfig {
    /// The role, fixed at startup.
    pub role: ReplRole,
    /// The identifier of the replication stream; present on a primary only.
    pub master_replid: Option<String>,
    /// The bytes of replicated stream sent out; present on a primary only.
    pub master_repl_offset: Option<usize>,
    /// The bytes of replicated commands taken in since the handshake;
    /// present on a replica only.
    pub slave_repl_offset: Option<usize>,
}

/// Mathematical model of the replication state.
pub struct ReplicationView {
    pub role: ReplRole,
    pub master_replid: Option<Seq<char>>,
    pub master_repl_offset: Option<nat>,
    pub slave_repl_offset: Option<nat>,
}

/// The counter as a natural number, where there is one.
pub open spec fn count_of(value: Option<usize>) -> Option<nat> {
    match value {
        Some(n) => Some(n as nat),
        None => None,
    }
}

impl View for ReplicationConfig {
    type V = ReplicationView;

    open spec fn view(&self) -> ReplicationView {
        ReplicationView {
            role: self.role,
            master_replid: text_of(self.master_replid),
            master_repl_offset: count_of(self.master_repl_offset),
            slave_repl_offset: count_of(self.slave_repl_offset),
        }
    }
}

impl ReplicationView {
    /// A primary has an identifier and an outgoing offset and nothing else;
    /// a replica has an incoming offset and nothing else.
    pub open spec fn well_formed(self) -> bool {
        match self.role {
            ReplRole::Master => self.master_replid is Some && self.master_repl_offset is Some
                && self.slave_repl_offset is None,
            ReplRole::Slave => self.master_replid is None && self.master_repl_offset is None
                && self.slave_repl_offset is Some,
        }
    }
}

/// The replication state that a server starts with: a replica where the
/// configuration names a primary to follow, a primary otherwise. Both start
/// with their offset at zero.
pub open spec fn initial(config: ConfigView) -> ReplicationView {
    if config.replicaof is Some {
        ReplicationView {
            role: ReplRole::Slave,
            master_replid: None,
            master_repl_offset: None,
            slave_repl_offset: Some(0nat),
        }
    } else {
        ReplicationView {
            role: ReplRole::Master,
            master_replid: Some(replication_id()),
            master_repl_offset: Some(0nat),
            slave_repl_offset: None,
        }
    }
}

impl ReplicationConfig {
    /// The replication state that a server with the given configuration
    /// starts with.
    pub fn from_config(config: &Config) -> (repl: ReplicationConfig)
        ensures
            repl@ == initial(config@),
            repl@.well_formed(),
    {
        match config.replicaof.is_some() {
            true => ReplicationConfig {
                role: ReplRole::Slave,
                master_replid: None,
                master_repl_offset: None,
                slave_repl_offset: Some(0),
            },
            false => ReplicationConfig {
                role: ReplRole::Master,
                master_replid: Some("8371b4fb1155b71f4a04d3e1bc3e18c4a990aeeb".to_owned()),
                master_repl_offset: Some(0),
                slave_repl_offset: None,
            },
        }
    }
}

} // verus!
