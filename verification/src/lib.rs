//! taskmr is a task manager built around an event-sourced core: every task is
//! an aggregate whose state is the replay of an append-only stream of domain
//! events, persisted in sqlite and addressed by a small sequential id.

pub mod add_task_usecase;
pub mod close_task_usecase;
pub mod codec;
pub mod component;
pub mod edit_task_usecase;
pub mod error;
pub mod es_add_task_usecase;
pub mod es_close_task_usecase;
pub mod es_edit_task_usecase;
pub mod es_list_task_usecase;
pub mod es_task;
pub mod es_task_repository;
pub mod event_codec;
pub mod list_task_usecase;
pub mod task;
pub mod task_repository;
