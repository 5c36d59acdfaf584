//! What a running server records about itself.
use vstd::prelude::*;

use crate::text::{decimal, push_decimal, push_str, str_eq};

verus! {

/// Where clients reach a server that listens on `listen_host`: the wildcard
/// hosts `0.0.0.0` and `::` are reached on the loopback address.
pub open spec fn connect_host(listen_host: Seq<char>) -> Seq<char> {
    if listen_host == "0.0.0.0"@ || listen_host == "::"@ {
        "127.0.0.1"@
    } else {
        listen_host
    }
}

pub open spec fn connect_url(listen_host: Seq<char>, port: u16) -> Seq<char> {
    "http://"@ + connect_host(listen_host) + ":"@ + decimal(port as nat)
}

pub fn compute_connect_url(listen_host: &str, port: u16) -> (r: String)
    ensures
        r@ == connect_url(listen_host@, port),
{
    let mut r = String::new();
    push_str(&mut r, "http://");
    if str_eq(listen_host, "0.0.0.0") || str_eq(listen_host, "::") {
        push_str(&mut r, "127.0.0.1");
    } else {
        push_str(&mut r, listen_host);
    }
    push_str(&mut r, ":");
    push_decimal(&mut r, port as u64);
    r
}

/// What a running server records: its process, where it listens and the
/// address clients use.
#[derive(Clone, Debug)]
pub struct RuntimeMetadata {
    pub pid: u32,
    pub listen_host: String,
    pub port: u16,
    pub connect_url: String,
}

impl RuntimeMetadata {
    pub fn new(pid: u32, listen_host: String, port: u16) -> (r: RuntimeMetadata)
        ensures
            r.pid == pid,
            r.listen_host@ == listen_host@,
            r.port == port,
            r.connect_url@ == connect_url(listen_host@, port),
    {
        let connect_url = compute_connect_url(listen_host.as_str(), port);
        RuntimeMetadata { pid, listen_host, port, connect_url }
    }
}

} // verus!
