//! Request signing for an OSS-style object-storage REST API.
//!
//! The crate builds the canonical string that the service expects, signs it
//! with HMAC-SHA1 over the account secret, and assembles `Authorization`
//! header values, pre-signed URLs, and browser upload policies from the
//! signature.

pub mod auth;
pub mod codec;
pub mod error;
pub mod metadata;
pub mod object;
pub mod oss;
pub mod request;
pub mod strmap;
pub mod strutil;
pub mod url;
pub mod util;

pub use error::OssError;
pub use metadata::ObjectMetadata;
pub use object::PolicyBuilder;
pub use object::PolicyResp;
pub use oss::OSS;
pub use request::RequestBuilder;
pub use request::RequestType;
