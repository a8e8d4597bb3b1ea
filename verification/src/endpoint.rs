//! Names that a run derives from its arguments: the address of the node to
//! ask, the name of the network, and the files kept beside a snapshot.

use crate::text::{before_last, cut_at_last, lowercase, to_lowercase};
use vstd::prelude::*;

verus! {

/// The address that stands for an endpoint already in lower case: the two
/// networks that are known by name have their public node, anything else is
/// taken as the address itself.
pub open spec fn url_of_lowercase(lower: Seq<char>) -> Seq<char> {
    if lower == "kusama"@ {
        "wss://kusama-rpc.polkadot.io:443"@
    } else if lower == "polkadot"@ {
        "wss://rpc.polkadot.io:433"@
    } else {
        lower
    }
}

/// The address of the node that `rpc` names. Case plays no part: the
/// argument is put in lower case first, an address too.
pub open spec fn url_of(rpc: Seq<char>) -> Seq<char> {
    url_of_lowercase(lowercase(rpc))
}

/// The address that stands for an endpoint already in lower case.
pub fn url_for_lowercase(lower: String) -> (url: String)
    ensures
        url@ == url_of_lowercase(lower@),
{
    if lower == String::from_str("kusama") {
        String::from_str("wss://kusama-rpc.polkadot.io:443")
    } else if lower == String::from_str("polkadot") {
        String::from_str("wss://rpc.polkadot.io:433")
    } else {
        lower
    }
}

/// The address of the node that `rpc` names.
pub fn resolve_url(rpc: &str) -> (url: String)
    ensures
        url@ == url_of(rpc@),
{
    url_for_lowercase(to_lowercase(rpc))
}

/// The name of the network of a snapshot: the name of its file up to the
/// last dot, or the whole name where it holds no dot.
pub open spec fn network_of(file_name: Seq<char>) -> Seq<char> {
    before_last(file_name, '.')
}

/// The name of the network of a snapshot, given the name of its file
/// without the directories.
pub fn network_name(file_name: &str) -> (network: String)
    ensures
        network@ == network_of(file_name@),
{
    cut_at_last(file_name, '.')
}

/// Where the schema of a network is kept: the network's name and ".meta".
pub fn meta_path_of(network: &str) -> (path: String)
    ensures
        path@ == network@ + ".meta"@,
{
    String::from_str(network).concat(".meta")
}

/// Where the statistics of a network are written: the network's name and
/// "_storage.json".
pub fn storage_json_path(network: &str) -> (path: String)
    ensures
        path@ == network@ + "_storage.json"@,
{
    String::from_str(network).concat("_storage.json")
}

} // verus!
