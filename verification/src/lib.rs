pub mod policy;
pub mod text;
pub mod context_guard;
pub mod json;
pub mod tools;
pub mod tool_policy;
pub mod tool_validation;
pub mod session;
pub mod tool_execution;
pub mod model_recovery;
pub mod provider_error;
pub mod paths;
pub mod memory;
pub mod onboarding;
