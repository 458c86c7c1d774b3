//! A unified storage abstraction core.
//!
//! One operation set (stat, read, write, list, delete, copy, rename,
//! presign, batch) is presented over a backend accessor, guarded by a
//! capability model and wrapped in a composable layer stack (retry,
//! concurrency limiting, logging).  Metadata is reported with an explicit
//! tri-state per optional field, so that "not requested" is never confused
//! with "absent" or with a defined empty value.

pub mod backend;
pub mod buffer;
pub mod capability;
pub mod concurrency;
pub mod error;
pub mod layers;
pub mod metadata;
pub mod operator;
pub mod presign;
pub mod runtime;

pub use buffer::Buffer;
pub use capability::Capability;
pub use concurrency::Gate;
pub use error::ErrorKind;
pub use error::HostErrorClass;
pub use error::OpError;
pub use layers::Layer;
pub use layers::Stack;
pub use metadata::Entry;
pub use metadata::Metadata;
pub use metadata::Metakey;
pub use operator::Operator;
pub use operator::OperatorInfo;
pub use presign::PresignedRequest;
