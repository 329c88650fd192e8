pub mod env_variables;
pub mod levelup;
pub mod metadata;
pub mod reports;
