//! The write-hook pipeline: observers that react after a successful write.
//!
//! Hooks run in registration order, after the write physically succeeded. A
//! failing hook cannot abort the write, cannot stop the hooks after it, and
//! cannot reach the writer's caller: `execute_write_hooks` itself never
//! fails, and hands back one report per registered hook so that the caller
//! may log failures. The registry is built once at startup and then only
//! executed.

use vstd::prelude::*;

use crate::date::Date;
use crate::entry::Entry;
use crate::error::JournalError;
use crate::memory::MemoryStorage;
use crate::storage::JournalStorage;

verus! {

/// What a write hook is told about a write: the date, where the entry was
/// written, the journal's root directory, and the exact text written.
#[derive(Debug, Clone)]
pub struct WriteContext {
    pub date: Date,
    pub entry_path: String,
    pub journal_dir: String,
    pub content: String,
}

/// An observer of entry writes. Implementations may fail; the pipeline
/// isolates their failures.
pub trait WriteHook: Sized {
    /// Called after an entry has been successfully written.
    fn on_entry_written(&mut self, context: &WriteContext, entry: &Entry) -> (r: Result<
        (),
        JournalError,
    >)
    ;

    /// A human-readable name for this hook.
    fn name(&self) -> (r: String)
    ;

    /// Whether this hook should be enabled by default.
    fn enabled_by_default(&self) -> (r: bool)
    ;
}

/// The outcome of one hook run: the hook's name and its failure, if any.
#[derive(Debug)]
pub struct HookReport {
    pub name: String,
    pub error: Option<JournalError>,
}

/// An ordered registry of write hooks.
pub struct HookRegistry<H: WriteHook> {
    hooks: Vec<H>,
}

impl<H: WriteHook> HookRegistry<H> {
    /// The registered hooks, in registration order.
    pub closed spec fn hooks(&self) -> Seq<H> {
        self.hooks@
    }

    /// How many hooks are registered.
    pub open spec fn hook_count(&self) -> nat {
        self.hooks().len()
    }

    /// An empty registry.
    pub fn new() -> (r: HookRegistry<H>)
        ensures
            r.hooks() == Seq::<H>::empty(),
            r.hook_count() == 0,
    {
        HookRegistry { hooks: Vec::new() }
    }

    /// Registers a hook: appends exactly that hook at the end of the order,
    /// leaving every registered hook in place.
    pub fn register(&mut self, hook: H)
        ensures
            final(self).hooks() == old(self).hooks().push(hook),
            final(self).hook_count() == old(self).hook_count() + 1,
    {
        self.hooks.push(hook);
    }

    /// Runs every registered hook once, in registration order, and reports
    /// each outcome. A failing hook stops neither the pipeline nor the
    /// write: this function has no failure path of its own. (Hooks may carry
    /// state, so the hook values afterwards are whatever their callbacks
    /// left; which callback each report came from cannot be stated here,
    /// since the hook trait's methods carry no contracts.)
    pub fn execute_write_hooks(&mut self, context: &WriteContext, entry: &Entry) -> (r: Vec<
        HookReport,
    >)
        ensures
            final(self).hook_count() == old(self).hook_count(),
            r@.len() == old(self).hook_count(),
    {
        let mut reports: Vec<HookReport> = Vec::new();
        let mut i: usize = 0;
        while i < self.hooks.len()
            invariant
                0 <= i <= self.hooks@.len(),
                self.hooks@.len() == old(self).hooks@.len(),
                reports@.len() == i,
            decreases self.hooks@.len() - i,
        {
            let name = self.hooks[i].name();
            let outcome = hook_at(&mut self.hooks, i, context, entry);
            let error = match outcome {
                Ok(_) => None,
                Err(e) => Some(e),
            };
            reports.push(HookReport { name, error });
            i = i + 1;
        }
        reports
    }

    /// The names of all registered hooks, in order.
    pub fn list_hooks(&self) -> (r: Vec<String>)
        ensures
            r@.len() == self.hook_count(),
    {
        let mut names: Vec<String> = Vec::new();
        let mut i: usize = 0;
        while i < self.hooks.len()
            invariant
                0 <= i <= self.hooks@.len(),
                names@.len() == i,
            decreases self.hooks@.len() - i,
        {
            let name = self.hooks[i].name();
            names.push(name);
            i = i + 1;
        }
        names
    }
}

/// Runs the hook at one position.
fn hook_at<H: WriteHook>(
    hooks: &mut Vec<H>,
    i: usize,
    context: &WriteContext,
    entry: &Entry,
) -> (r: Result<(), JournalError>)
    requires
        i < old(hooks)@.len(),
    ensures
        final(hooks)@.len() == old(hooks)@.len(),
{
    let hook = &mut hooks[i];
    hook.on_entry_written(context, entry)
}

/// A hook that mirrors every written entry into a secondary storage backend
/// and refreshes that backend's metadata for the date.
pub struct SyncHook {
    pub storage: MemoryStorage,
}

impl WriteHook for SyncHook {
    /// Mirrors the written entry: afterwards the secondary store holds the
    /// upsert of the entry. An entry dated outside the calendar is refused
    /// and the store is left alone.
    fn on_entry_written(&mut self, context: &WriteContext, entry: &Entry) -> (r: Result<
        (),
        JournalError,
    >)
        ensures
            r is Ok <==> entry.date.valid(),
            r is Ok ==> final(self).storage.stored() == crate::storage::upsert(
                old(self).storage.stored(),
                entry@,
            ),
            r is Err ==> final(self).storage.stored() == old(self).storage.stored(),
    {
        match Date::from_ymd(entry.date.year, entry.date.month, entry.date.day) {
            Some(_) => {
                self.storage.save_entry(entry)?;
                self.storage.refresh_metadata(entry.date, entry)
            },
            None => Err(
                JournalError::Storage { message: String::from_str("entry date out of range") },
            ),
        }
    }

    fn name(&self) -> (r: String) {
        String::from_str("secondary storage sync")
    }

    fn enabled_by_default(&self) -> (r: bool) {
        true
    }
}

} // verus!
