//! An HTTP/1.1 server core: request parsing, a path model, routes with pre- and
//! post-hooks, and response serialisation, with contracts proved by Verus. The
//! connection handling (sockets, the thread pool, the task runtime) stays outside.

mod text;
pub mod path;
pub mod request;
pub mod response;
pub mod route;
pub mod server;
