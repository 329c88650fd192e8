//! The rank logic of a Discord bot that promotes members who pass Kotoba quizzes.
pub mod text;
pub mod json;
pub mod commands;
pub mod utils;
