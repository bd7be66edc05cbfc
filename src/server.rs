use vstd::prelude::*;

verus! {

/// The settings a server is built with.
pub struct ServerSettings {
    pub host: Seq<char>,
    pub port: i32,
    pub tls: bool,
}

/// A server record: where it listens and whether it speaks TLS.
#[derive(Debug)]
pub struct Server {
    pub host: String,
    pub port: i32,
    pub tls: bool,
}

/// Collects a server's settings; TLS is off until asked for.
pub struct ServerBuilder {
    host: String,
    port: i32,
    tls: bool,
}

impl View for ServerBuilder {
    type V = ServerSettings;

    closed spec fn view(&self) -> ServerSettings {
        ServerSettings { host: self.host@, port: self.port, tls: self.tls }
    }
}

impl Server {
    /// Starts building a server that listens on `host` and `port`, without TLS.
    pub fn new(host: String, port: i32) -> (b: ServerBuilder)
        ensures
            b@ == (ServerSettings { host: host@, port, tls: false }),
    {
        ServerBuilder { host, port, tls: false }
    }
}

impl ServerBuilder {
    /// Turns TLS on or off, and hands the builder back for further calls.
    pub fn tls(&mut self, tls: bool) -> (r: &mut Self)
        ensures
            r@ == (ServerSettings { host: old(self)@.host, port: old(self)@.port, tls }),
            *final(self) == *final(r),
    {
        self.tls = tls;
        self
    }

    /// A server with the settings collected so far; the builder is left as it is.
    pub fn build(&self) -> (s: Server)
        ensures
            s.host@ == self@.host,
            s.port == self@.port,
            s.tls == self@.tls,
    {
        Server { host: self.host.clone(), port: self.port, tls: self.tls }
    }
}

} // verus!
