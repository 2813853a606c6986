//! Request routing and FastCGI framing for a local development reverse proxy.
//!
//! The crate decides; it opens no socket and reads no file. A request comes in as plain
//! values, and what comes back says what to answer, what to ask next, or which bytes to
//! put on the wire.
//!
//! - [`dispatch`] routes a request by its host to a site, a proxied host, or a reply.
//!   [`sites`] holds what it routes by, [`unbound`] the rules for loopback hosts.
//! - [`php`] decides a request for a PHP site, with [`try_files`] and [`script_file`] to
//!   find files and scripts, and [`login`] for the one-click login.
//! - [`cgi_params`], [`fcgi_codec`] and [`fcgi`] put a request on the wire, and
//!   [`exchange`] turns the records that come back into a response.
//! - [`replies`] and [`redirect`] make the proxy's own responses.
//! - [`laws`] states what all of this is for.

pub mod cgi_params;
pub mod dispatch;
pub mod error;
pub mod exchange;
pub mod fcgi;
pub mod fcgi_codec;
pub mod headers;
pub mod laws;
pub mod login;
pub mod peers;
pub mod php;
pub mod query;
pub mod redirect;
pub mod replies;
pub mod script_file;
pub mod sites;
pub mod text;
pub mod try_files;
pub mod unbound;
