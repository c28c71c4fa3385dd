//! Core logic of a clipboard-history manager: the history store and its
//! JSON document format, the preferences record with its load policy, the
//! clipboard poller's debounce step, and the render scheduler's state
//! machine with its frame-budget policy.

pub mod codec;
pub mod history;
pub mod monitor;
pub mod preferences;
pub mod scheduler;
pub mod text;

pub use codec::parse_config;
pub use codec::parse_history;
pub use history::ClipboardHistory;
pub use history::LoadOutcome;
pub use monitor::ClipboardMonitor;
pub use monitor::ClipboardReading;
pub use monitor::MonitorAction;
pub use monitor::POLL_BACKOFF_MS;
pub use monitor::POLL_INTERVAL_MS;
pub use preferences::Config;
pub use scheduler::ControlSignal;
pub use scheduler::RenderScheduler;
pub use scheduler::SchedulerPhase;
pub use scheduler::TrayMessage;
pub use scheduler::WindowEvent;
pub use text::display_text;
pub use text::trim_text;
