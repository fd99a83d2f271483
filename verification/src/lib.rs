pub mod action;
pub mod action_bowl;
pub mod app_config;
pub mod configurable_event_to_action;
pub mod event_to_action;
pub mod events;
pub mod handler;
pub mod queue;
pub mod run_on_stream;
pub mod seqs;
pub mod text;
pub mod twitch;
