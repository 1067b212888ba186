//! A small task tracker: a task store with monotonic integer identifiers
//! behind the command line, and an in-memory task service with opaque
//! generated identifiers behind an HTTP front end.

pub mod service;
pub mod store;
pub mod task;

pub use store::sorted_by_status;
pub use store::TaskStore;
pub use task::status_label;
pub use task::truncate_at;
pub use task::TaskView;
pub use task::Todo;
pub use service::HttpTask;
pub use service::HttpTaskView;
pub use service::Pagination;
pub use service::TaskService;
