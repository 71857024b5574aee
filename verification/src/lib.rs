//! A verified library of the portable runtime's data structures and
//! algorithms: status codes and errors, memory pools, base64, MD5 and SHA-1
//! digests and password hashing, string matching, tables, hashes, queues,
//! UUIDs, random numbers, time and date parsing, URIs, paths, character
//! sets, command-line options, symmetric encryption and XML documents.

pub mod text;
pub mod status;
pub mod error;
pub mod base64;
pub mod entropy;
pub mod pool;
pub mod md5;
pub mod sha1;
pub mod strmatch;
pub mod tables;
pub mod hash;
pub mod queue;
pub mod uuid;

pub use error::{Error, ErrorContext, Result};
pub use pool::{Pool, PoolHandle, SharedPool};
pub use status::Status;
pub mod file;
pub mod getopt;
pub mod time;
pub mod date;
pub mod uri;
pub mod random;
pub mod xlate;
pub mod locks;
pub mod mmap;
pub mod network;
pub mod paths;
pub mod strings;
pub mod callbacks;
pub mod crypto;
pub mod xml;
pub mod versions;
