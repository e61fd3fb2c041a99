//! Tools: requirements, versions, backends and the environment they make.

pub mod backend;
pub mod environment;
pub mod github;
pub mod installer;
pub mod registry;
pub mod requirement;
pub mod resolver;
pub mod scope;
pub mod version;

pub use backend::ToolBackend;
pub use registry::ToolRegistry;
pub use requirement::ToolRequirement;
pub use version::ToolVersion;
