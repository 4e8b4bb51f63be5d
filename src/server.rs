use vstd::prelude::*;

use std::sync::Arc;

use crate::route::{MappingView, Router};
use crate::text::{decimal, decimal_string, parse_unsigned, split_once, split_once_char};

verus! {

/// Relies on nom's `ParseTo` for `&str`, which is `str::parse` with the error
/// dropped: for `u32`, an optional `+` and then decimal digits whose value fits.
#[verifier::external_body]
fn parse_port(s: &str) -> (r: Option<u32>)
    ensures
        match parse_unsigned(s@, u32::MAX as nat) {
            Some(v) => r == Some(v as u32),
            None => r is None,
        },
{
    nom::ParseTo::parse_to(&s)
}

/// The host and port of `address` (`host:port`), cut at its first `:`.
pub open spec fn address_parts(address: Seq<char>) -> Option<(Seq<char>, u32)> {
    match split_once(address, ':') {
        Some((host, port)) => match parse_unsigned(port, u32::MAX as nat) {
            Some(p) => Some((host, p as u32)),
            None => None,
        },
        None => None,
    }
}

/// Where the server listens and the router it shares with every connection.
pub struct Server<H, Pre, Post> {
    port: u32,
    host: String,
    router: Arc<Router<H, Pre, Post>>,
}

/// What a server holds, as plain values.
pub struct ServerView<H, Pre, Post> {
    pub port: u32,
    pub host: Seq<char>,
    pub routes: Seq<MappingView<H, Pre, Post>>,
}

impl<H, Pre, Post> View for Server<H, Pre, Post> {
    type V = ServerView<H, Pre, Post>;

    closed spec fn view(&self) -> ServerView<H, Pre, Post> {
        ServerView { port: self.port, host: self.host@, routes: (*self.router)@ }
    }
}

impl<H, Pre, Post> Server<H, Pre, Post> {
    /// A server for `host` and `port` with an empty router.
    pub fn new(port: u32, host: String) -> (r: Self)
        ensures
            r@ == (ServerView::<H, Pre, Post> { port, host: host@, routes: Seq::empty() }),
    {
        Server { port, host, router: Arc::new(Router::new()) }
    }

    /// A server for an address written `host:port`; `None` when there is no `:` or
    /// the port is not a number that fits in `u32`.
    pub fn from_address(address: &str) -> (r: Option<Self>)
        ensures
            match address_parts(address@) {
                Some((host, port)) => r matches Some(s) && s@ == (ServerView::<H, Pre, Post> {
                    port,
                    host,
                    routes: Seq::empty(),
                }),
                None => r is None,
            },
    {
        match split_once_char(address, ':') {
            Some((host, port)) => match parse_port(port.as_str()) {
                Some(p) => Some(Self::new(p, host)),
                None => None,
            },
            None => None,
        }
    }

    /// Replaces the router.
    pub fn use_router(&mut self, router: Router<H, Pre, Post>)
        ensures
            final(self)@ == (ServerView { routes: router@, ..old(self)@ }),
    {
        self.router = Arc::new(router);
    }

    /// The address to listen on: `host:port`.
    pub fn address(&self) -> (r: String)
        ensures
            r@ == self@.host + seq![':'] + decimal(self@.port as nat),
    {
        proof {
            reveal_strlit(":");
            assert(":"@ =~= seq![':']);
        }
        let mut s = self.host.clone();
        s.append(":");
        let p = decimal_string(self.port as usize);
        s.append(p.as_str());
        s
    }

    /// The router every connection shares.
    pub fn router(&self) -> (r: &Arc<Router<H, Pre, Post>>)
        ensures
            (**r)@ == self@.routes,
    {
        &self.router
    }
}

} // verus!
