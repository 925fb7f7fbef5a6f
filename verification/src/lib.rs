//! A verified model of a minimal cooperative task executor.
//!
//! The library models the mechanics that let a program register many
//! suspended computations (tasks), resume them only when they can make
//! progress, and have timer resources notify the executor when a task
//! should be resumed.  Readiness decisions are pure functions of a
//! virtual clock, so every scheduling rule is stated in a contract and
//! proved; driver code supplies real threads, channels and wall-clock
//! time around these decision procedures.

pub mod bench;
pub mod delay;
pub mod executor;
pub mod race;
pub mod suspend;

pub use bench::fibonacci_1;
pub use bench::fibonacci_2;
pub use bench::functional_quicksort;
pub use bench::my_quicksort;
pub use delay::DelayCore;
pub use delay::NaiveDelayCore;
pub use executor::Completion;
pub use executor::Executor;
pub use executor::Job;
pub use executor::Task;
pub use executor::TimerEvent;
pub use race::RaceCore;
pub use race::RaceResult;
pub use race::RaceWinner;
pub use suspend::Resume;
pub use suspend::Suspended;
pub use suspend::TimerRequest;
