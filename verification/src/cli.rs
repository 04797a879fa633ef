//! What the command line asks for.

use vstd::prelude::*;
use std::path::PathBuf;

verus! {

/// Number of records to generate where none is given.
pub const DEFAULT_NUM_TXNS: u32 = 10_000;

/// Number of clients to generate records for where none is given.
pub const DEFAULT_NUM_CLIENTS: u16 = 100;

/// A path in the file system, as `std` holds it. It is carried, never read.
#[verifier::external_type_specification]
#[verifier::external_body]
pub struct ExPathBuf(PathBuf);

/// What to do: read the records of a file, or generate a list of records.
#[derive(Debug)]
pub struct Cli {
    /// The file that holds the records. Not needed to generate.
    pub path: Option<PathBuf>,
    /// Whether to generate a list of random records.
    pub generate: bool,
    /// Number of records to generate.
    pub num_txns: u32,
    /// Number of clients in the generated records.
    pub num_clients: u16,
}

impl Cli {
    /// There is something to do: a file to read, or records to generate.
    pub open spec fn wf(self) -> bool {
        self.path is Some || self.generate
    }
}

/// The request that the given arguments make. A path is required unless
/// records are to be generated; the two numbers have defaults.
pub fn args(
    path: Option<PathBuf>,
    generate: bool,
    num_txns: Option<u32>,
    num_clients: Option<u16>,
) -> (cli: Option<Cli>)
    ensures
        cli is Some <==> (path is Some || generate),
        cli is Some ==> {
            &&& cli.unwrap().wf()
            &&& cli.unwrap().path == path
            &&& cli.unwrap().generate == generate
            &&& cli.unwrap().num_txns == match num_txns {
                Some(n) => n,
                None => DEFAULT_NUM_TXNS,
            }
            &&& cli.unwrap().num_clients == match num_clients {
                Some(n) => n,
                None => DEFAULT_NUM_CLIENTS,
            }
        },
{
    if path.is_none() && !generate {
        return None;
    }
    let num_txns: u32 = match num_txns {
        Some(n) => n,
        None => DEFAULT_NUM_TXNS,
    };
    let num_clients: u16 = match num_clients {
        Some(n) => n,
        None => DEFAULT_NUM_CLIENTS,
    };
    Some(Cli { path, generate, num_txns, num_clients })
}

} // verus!
