//! A builder that configures any server implementing [`ServerCore`].
use vstd::prelude::*;

pub mod connection;
pub mod metadata;

use crate::request::Request;
use crate::response::response::Response;
use crate::router::Method;

verus! {

/// The interface every server offers to the builder. A server may say what
/// each step does to it; by default it says nothing.
pub trait ServerCore {
    /// Whether `after` may be this server once `handler` is registered for
    /// `method` on `path`.
    open spec fn routed<F>(&self, after: Self, method: Method, path: Seq<char>, handler: F) -> bool where Self: Sized {
        true
    }

    /// Whether `after` may be this server once static files are served from
    /// `path`.
    open spec fn serves_from(&self, after: Self, path: Seq<char>) -> bool where Self: Sized {
        true
    }

    /// Whether running this server may end with `r`.
    open spec fn runs(&self, r: Result<(), std::io::Error>) -> bool {
        true
    }

    /// Registers `handler` for `method` on `path`.
    fn route<F: Fn(&Request, &mut Response) + Send + Sync + 'static>(&mut self, method: Method, path: &str, handler: F) where Self: Sized
        requires
            forall|q: &Request, r: &mut Response| call_requires(handler, (q, r)),
        ensures
            old(self).routed(*final(self), method, path@, handler),
    ;

    /// Sets the directory static files are served from.
    fn assets_path(&mut self, path: &str) where Self: Sized
        ensures
            old(self).serves_from(*final(self), path@),
    ;

    /// Runs the server until it shuts down.
    fn run(&mut self) -> (r: Result<(), std::io::Error>)
        ensures
            old(self).runs(r),
    ;
}

/// Configures a server step by step, then runs it.
pub struct ServerBuilder<S: ServerCore> {
    server: S,
}

impl<S: ServerCore> ServerBuilder<S> {
    /// The server being configured.
    pub closed spec fn server(&self) -> S {
        self.server
    }

    /// Creates a builder from an existing server.
    pub fn new(server: S) -> (r: Self)
        ensures
            r.server() == server,
    {
        Self { server }
    }

    /// Registers a route on the server.
    pub fn route<F: Fn(&Request, &mut Response) + Send + Sync + 'static>(self, method: Method, path: &str, handler: F) -> (r: Self)
        requires
            forall|q: &Request, r: &mut Response| call_requires(handler, (q, r)),
        ensures
            self.server().routed(r.server(), method, path@, handler),
    {
        let mut server = self.server;
        server.route(method, path, handler);
        Self { server }
    }

    /// Configures the static assets directory.
    pub fn assets_path(self, path: &str) -> (r: Self)
        ensures
            self.server().serves_from(r.server(), path@),
    {
        let mut server = self.server;
        server.assets_path(path);
        Self { server }
    }

    /// Starts the server.
    pub fn run(self) -> (r: Result<(), std::io::Error>)
        ensures
            self.server().runs(r),
    {
        let mut server = self.server;
        server.run()
    }
}

} // verus!
