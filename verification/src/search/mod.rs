pub mod weights;
pub mod history;
pub mod search;
pub mod move_picker;
pub mod time;
pub mod thread;
pub mod deepening;
