//! Program-aware chat proxy that resumes paused programs as room comes free.

pub mod backend;
pub mod clock;
pub mod json;
pub mod metrics;
pub mod numbers;
pub mod one_backend;
pub mod order;
pub mod profile;
pub mod program;
pub mod proxy;
pub mod registry;
pub mod router;
pub mod scheduler;
pub mod stream;
pub mod text;
pub mod usage;
pub mod wake;
