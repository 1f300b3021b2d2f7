//! A newsletter service: subscription forms, a health probe, and the
//! publication of newsletter issues to confirmed subscribers behind HTTP
//! Basic authentication. The decisions of every request handler are
//! verified here; the HTTP server, the database and the mail delivery stand
//! around them and hand their results in as plain values.

pub mod codec;
pub mod laws;
pub mod password;
pub mod routes;
pub mod status;
