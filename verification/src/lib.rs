//! A minimal DNS client library: a verified wire-format codec for DNS
//! messages (RFC 1035 layout, including label-pointer compression on
//! decode) and a verified resolution engine that decides, step by step,
//! which server to query and how to read each reply.  All network I/O is
//! left to the caller, who performs the datagram exchange that each
//! engine step asks for and feeds the outcome back in.

pub mod buffer;
pub mod header;
pub mod name;
pub mod question;
pub mod record;
pub mod packet;
pub mod resolver;
