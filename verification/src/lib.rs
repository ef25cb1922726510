//! A bullet-journal persistence core: dated entries of typed bullets, a
//! canonical text encoding with a round-trip guarantee, pluggable storage
//! backends with schema migrations, a write-hook pipeline, and an in-memory
//! read-through/write-through cache.
//!
//! Calendar dates span the years 1 through 9999, so every date has a
//! fixed-width four-digit year wherever it is written out — in entry file
//! paths and in the `YYYY-MM-DD` form that keeps dates ordered as plain
//! text. Codec trimming and header matching work over ASCII whitespace and
//! ASCII letter case.

pub mod bullet;
pub mod codec;
pub mod codec_laws;
pub mod date;
pub mod entry;
pub mod error;
pub mod hooks;
pub mod journal;
pub mod memory;
pub mod migration;
pub mod rows;
pub mod storage;
pub mod text;

pub use bullet::{Bullet, BulletContent, BulletType, Event, Note, Task, TaskState};
pub use codec::MarkdownParser;
pub use date::{Date, DateRange, ViewScope};
pub use entry::Entry;
pub use error::JournalError;
pub use hooks::{HookRegistry, HookReport, SyncHook, WriteContext, WriteHook};
pub use journal::Journal;
pub use memory::MemoryStorage;
pub use migration::{MigrationSource, MigrationUnit};
pub use storage::{EntryRepository, JournalStorage};
