use vstd::prelude::*;

use crate::repl::ServerContext;
use crate::store::Store;

verus! {

/// Where the snapshot file lives: present only when both `--dir` and
/// `--dbfilename` were supplied at start-up. Both are byte strings as they
/// appeared on the command line.
pub struct RedisServerConfig {
    pub dir: Vec<u8>,
    pub dbfilename: Vec<u8>,
}

/// Start-up options, as plain values: the optional snapshot location, the
/// port, and the master to replicate from.
pub struct Args {
    pub dir: Option<Vec<u8>>,
    pub dbfilename: Option<Vec<u8>>,
    pub port: Option<u64>,
    pub replicaof: Option<Vec<u8>>,
}

/// Everything the command handlers share: the snapshot configuration, the
/// keyspace, and the server's replication identity.
pub struct RedisServer {
    pub config: Option<RedisServerConfig>,
    pub store: Store,
    pub server_context: ServerContext,
}

impl RedisServer {
    /// Assembles the server state from the start-up options and the raw bytes
    /// of the snapshot file, where one could be opened.
    ///
    /// The configuration is kept exactly when both `--dir` and `--dbfilename`
    /// were given. The keyspace comes from decoding the snapshot bytes; with
    /// no file (or no configuration) it starts empty.
    pub fn init(args: Args, rdb: Option<Vec<u8>>, now: u64, context: ServerContext) -> (r:
        RedisServer)
        ensures
            r.store.wf(),
            (args.dir is Some && args.dbfilename is Some) <==> r.config is Some,
            (r.config matches Option::Some(c) ==> ((args.dir matches Option::Some(d) && c.dir@
                == d@) && (args.dbfilename matches Option::Some(f) && c.dbfilename@ == f@))),
            (rdb matches Option::Some(snapshot) ==> (args.dir is Some && args.dbfilename is Some)
                ==> (match crate::rdb::spec_decode_rdb(snapshot@, now) {
                Option::Some(maps) => r.store.main_view() == maps.0 && r.store.expiry_view()
                    == maps.1,
                Option::None => r.store.main_view() == Map::<Seq<u8>, Seq<u8>>::empty()
                    && r.store.expiry_view() == Map::<Seq<u8>, u64>::empty(),
            })),
            ((!(args.dir is Some && args.dbfilename is Some) || rdb is None)
                ==> r.store.main_view() == Map::<Seq<u8>, Seq<u8>>::empty()
                && r.store.expiry_view() == Map::<Seq<u8>, u64>::empty()),
            r.server_context == context,
    {
        let (config, store): (Option<RedisServerConfig>, Store) = match (args.dir,
            args.dbfilename) {
            (Option::Some(dir), Option::Some(dbfilename)) => {
                let store = match &rdb {
                    Option::Some(bytes) => crate::rdb::decode_rdb(bytes, now),
                    Option::None => Store::new(),
                };
                (Option::Some(RedisServerConfig { dir, dbfilename }), store)
            },
            (_, _) => (Option::None, Store::new()),
        };
        RedisServer { config, store, server_context: context }
    }
}

} // verus!
