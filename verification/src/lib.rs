//! Verified core of an environment-variable control panel: a scope-aware
//! variable store, a permission-gated mutation manager with an in-memory
//! cache, a change-notification broadcaster, and togglable profiles of
//! variable assignments.

pub mod assoc;
pub mod clock;
pub mod error;
pub mod laws;
pub mod manager;
pub mod profile;
pub mod refresh;
pub mod store;
pub mod text;
pub mod variable;

pub use error::EnvError;
pub use error::EnvResult;
pub use manager::EnvironmentManager;
pub use profile::EnvProfile;
pub use profile::EnvProfiles;
pub use refresh::EnvironmentRefresher;
pub use store::RegistryManager;
pub use variable::EnvScope;
pub use variable::EnvVariable;
pub use variable::EnvVariables;
