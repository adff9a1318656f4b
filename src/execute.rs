//! The decisions of the executor: what to do with each entry of a validated
//! plan, and the lines it prints.
use vstd::prelude::*;
use crate::options::Options;
use crate::plan::RenamePlan;
use crate::report::{contended, duplicate_msg, duplicates_report, existing_report, map_to_source_msg, overlap_report, pair_line};
use crate::text::{append, append_string, display_bytes, lossy_text};
use crate::validate::{validate, validation, Conflict};

verus! {

/// What to do with one entry of the plan.
#[derive(Clone, Copy, Debug, PartialEq, Eq, Structural)]
pub struct Step {
    /// Print `rename 'source' ⇒ 'destination'` first.
    pub announce: bool,
    /// Rename the source to the destination.
    pub rename: bool,
    /// Count the entry as renamed (or, in preview, as one that would be).
    pub counted: bool,
    /// Report that the destination exists and is left alone.
    pub refused: bool,
}

/// The step for an entry, given whether its destination exists at the time
/// of execution (not consulted in preview).
pub open spec fn step_for(preview: bool, verbose: bool, force: bool, destination_exists: bool) -> Step {
    if preview {
        Step { announce: true, rename: false, counted: true, refused: false }
    } else if force || !destination_exists {
        Step { announce: verbose, rename: true, counted: true, refused: false }
    } else {
        Step { announce: verbose, rename: false, counted: false, refused: true }
    }
}

/// Decide what to do with one entry: preview only counts it; otherwise the
/// entry is renamed unless its destination exists and `force` is unset, in
/// which case it is skipped with a notice.
pub fn execution_step(options: &Options, destination_exists: bool) -> (r: Step)
    ensures
        r == step_for(options.preview, options.verbose, options.force, destination_exists),
        options.preview ==> !r.rename,
        !options.preview && !options.force && destination_exists ==> !r.rename,
        !options.preview && options.force ==> r.rename,
{
    if options.preview {
        Step { announce: true, rename: false, counted: true, refused: false }
    } else if options.force || !destination_exists {
        Step { announce: options.verbose, rename: true, counted: true, refused: false }
    } else {
        Step { announce: options.verbose, rename: false, counted: false, refused: true }
    }
}

/// The line printed before an entry is renamed.
pub fn rename_line(source: &Vec<u8>, destination: &Vec<u8>) -> (r: String)
    ensures
        r@ == "rename "@ + pair_line(source@, destination@),
{
    let mut msg = String::new();
    append(&mut msg, "rename '");
    append_string(&mut msg, &display_bytes(source));
    append(&mut msg, "' ⇒ '");
    append_string(&mut msg, &display_bytes(destination));
    append(&mut msg, "'\n");
    assert(msg@ =~= "rename "@ + pair_line(source@, destination@)) by {
        reveal_strlit("rename '");
        reveal_strlit("rename ");
        reveal_strlit("'");
    }
    msg
}

/// The notice for an entry whose destination exists and is left alone.
pub fn not_overwritten_line(destination: &Vec<u8>) -> (r: String)
    ensures
        r@ == "'"@ + lossy_text(destination@) + "' already exists, will not overwrite.\n"@,
{
    let mut msg = String::new();
    append(&mut msg, "'");
    append_string(&mut msg, &display_bytes(destination));
    append(&mut msg, "' already exists, will not overwrite.\n");
    assert(msg@ =~= "'"@ + lossy_text(destination@) + "' already exists, will not overwrite.\n"@);
    msg
}

/// Validate the plan and, on a conflict, give its full report.
pub fn check_plan(plan: &RenamePlan, destination_exists: &Vec<bool>, force: bool) -> (r: Result<(), String>)
    requires
        plan.wf(),
        destination_exists@.len() == plan.entries@.len(),
    ensures
        r is Ok <==> validation(plan, destination_exists@, force) is Ok,
        validation(plan, destination_exists@, force) == Err::<(), Conflict>(Conflict::DuplicateDestinations)
            ==> r is Err && r->Err_0@ == duplicates_report(plan.entries@, contended(plan)),
        validation(plan, destination_exists@, force) == Err::<(), Conflict>(Conflict::SourceDestinationOverlap)
            ==> r is Err && r->Err_0@ == overlap_report(plan),
        validation(plan, destination_exists@, force) == Err::<(), Conflict>(Conflict::DestinationExists)
            ==> r is Err && r->Err_0@ == existing_report(plan, destination_exists@),
{
    match validate(plan, destination_exists, force) {
        Ok(()) => Ok(()),
        Err(Conflict::DuplicateDestinations) => Err(duplicate_msg(plan)),
        Err(Conflict::SourceDestinationOverlap) => Err(map_to_source_msg(plan)),
        Err(Conflict::DestinationExists) => Err(crate::report::destination_exists_msg(plan, destination_exists)),
    }
}

/// Among the steps for the given destination-exists flags, how many count.
pub open spec fn counted_steps(preview: bool, verbose: bool, force: bool, flags: Seq<bool>) -> nat
    decreases flags.len(),
{
    if flags.len() == 0 {
        0
    } else {
        counted_steps(preview, verbose, force, flags.drop_last())
            + if step_for(preview, verbose, force, flags.last()).counted { 1nat } else { 0nat }
    }
}

/// Among the steps for the given destination-exists flags, how many rename.
pub open spec fn renaming_steps(preview: bool, verbose: bool, force: bool, flags: Seq<bool>) -> nat
    decreases flags.len(),
{
    if flags.len() == 0 {
        0
    } else {
        renaming_steps(preview, verbose, force, flags.drop_last())
            + if step_for(preview, verbose, force, flags.last()).rename { 1nat } else { 0nat }
    }
}

/// The notice for a plan with no entry, if it has none.
pub fn nothing_matched(plan: &RenamePlan) -> (r: Option<String>)
    ensures
        r is Some <==> plan.entries@.len() == 0,
        r matches Some(msg) ==> msg@ == "No files or folders match the source pattern.\n"@,
{
    if plan.is_empty() {
        Some("No files or folders match the source pattern.\n".to_string())
    } else {
        None
    }
}

/// The progress of executing a validated plan: the next entry, how many
/// entries were counted so far, and whether each destination was found to
/// exist when its entry came up.
pub struct Execution {
    pub next: usize,
    pub renamed: usize,
    pub seen: Ghost<Seq<bool>>,
}

impl Execution {
    /// The counters agree with the steps taken so far on this plan.
    pub open spec fn wf(&self, plan: &RenamePlan, options: &Options) -> bool {
        &&& self.next == self.seen@.len()
        &&& self.next <= plan.entries@.len()
        &&& self.renamed <= self.next
        &&& self.renamed == counted_steps(options.preview, options.verbose, options.force, self.seen@)
    }

    /// Every entry has had its step.
    pub open spec fn finished(&self, plan: &RenamePlan) -> bool {
        self.next == plan.entries@.len()
    }

    /// Start at the first entry, with nothing counted.
    pub fn start(plan: &RenamePlan, options: &Options) -> (r: Execution)
        ensures
            r.wf(plan, options),
            r.next == 0,
            r.renamed == 0,
    {
        Execution { next: 0, renamed: 0, seen: Ghost(Seq::empty()) }
    }

    /// Whether every entry has had its step.
    pub fn is_finished(&self, plan: &RenamePlan) -> (r: bool)
        ensures
            r == self.finished(plan),
    {
        self.next == plan.entries.len()
    }

    /// Decide the step for the next entry, given whether its destination
    /// exists now (not consulted in preview), and count it.
    pub fn step(&mut self, plan: &RenamePlan, options: &Options, destination_exists: bool) -> (r: Step)
        requires
            old(self).wf(plan, options),
            !old(self).finished(plan),
        ensures
            r == step_for(options.preview, options.verbose, options.force, destination_exists),
            final(self).wf(plan, options),
            final(self).next == old(self).next + 1,
            final(self).seen@ == old(self).seen@.push(destination_exists),
            final(self).renamed == old(self).renamed + if r.counted { 1int } else { 0int },
    {
        // Both counters stay below the plan's length, which fits in usize.
        let len = plan.entries.len();
        assert(self.renamed <= self.next < len);
        let r = execution_step(options, destination_exists);
        let ghost seen = self.seen@.push(destination_exists);
        assert(seen.drop_last() =~= self.seen@);
        if r.counted {
            self.renamed = self.renamed + 1;
        }
        self.next = self.next + 1;
        self.seen = Ghost(seen);
        r
    }
}

} // verus!
