//! Properties that relate the plan builder, the validator and the executor.
use vstd::prelude::*;
use crate::execute::{counted_steps, renaming_steps, step_for, Execution};
use crate::options::Options;
use crate::plan::{built_from, renamed, scanned, RenamePlan, ScanEntry};
use crate::validate::{any_exists, has_duplicate_destinations, has_overlap, validation, Conflict};

verus! {

/// An empty plan passes validation, so the run succeeds; its execution is
/// finished from the start, so no step renames anything and the count is zero.
pub proof fn lemma_empty_plan_succeeds(plan: &RenamePlan, destination_exists: Seq<bool>, options: &Options, run: &Execution)
    requires
        plan.wf(),
        plan.entries@.len() == 0,
        destination_exists.len() == 0,
        run.wf(plan, options),
    ensures
        validation(plan, destination_exists, options.force) == Ok::<(), Conflict>(()),
        run.finished(plan),
        run.renamed == 0,
        renaming_steps(options.preview, options.verbose, options.force, run.seen@) == 0,
{
    assert(plan.destinations() =~= Seq::<Seq<u8>>::empty());
    assert(run.seen@ =~= Seq::<bool>::empty());
}

/// With every destination absent when its entry comes up, a run outside
/// preview renames and counts every entry.
pub proof fn lemma_absent_destinations_all_renamed(verbose: bool, force: bool, flags: Seq<bool>)
    requires
        forall|i: int| 0 <= i < flags.len() ==> !#[trigger] flags[i],
    ensures
        counted_steps(false, verbose, force, flags) == flags.len(),
        renaming_steps(false, verbose, force, flags) == flags.len(),
    decreases flags.len(),
{
    if flags.len() > 0 {
        let rest = flags.drop_last();
        assert forall|i: int| 0 <= i < rest.len() implies !#[trigger] rest[i] by {
            assert(rest[i] == flags[i]);
        }
        lemma_absent_destinations_all_renamed(verbose, force, rest);
    }
}

/// A preview run counts every entry and renames none.
pub proof fn lemma_preview_counts_without_renaming(verbose: bool, force: bool, flags: Seq<bool>)
    ensures
        counted_steps(true, verbose, force, flags) == flags.len(),
        renaming_steps(true, verbose, force, flags) == 0,
    decreases flags.len(),
{
    if flags.len() > 0 {
        lemma_preview_counts_without_renaming(verbose, force, flags.drop_last());
    }
}

/// Without `force`, a plan with a destination that exists already never
/// passes validation; and at execution time such an entry is skipped, not
/// renamed.
pub proof fn lemma_existing_destination_protected(plan: &RenamePlan, destination_exists: Seq<bool>, i: int, verbose: bool)
    requires
        plan.wf(),
        destination_exists.len() == plan.entries@.len(),
        0 <= i < destination_exists.len(),
        destination_exists[i],
    ensures
        validation(plan, destination_exists, false) is Err,
        !step_for(false, verbose, false, true).rename,
        step_for(false, verbose, true, true).rename,
{
    assert(any_exists(destination_exists));
}

/// A plan with no conflict and no existing destination passes validation
/// and, outside preview, every entry is renamed and counted: a finished run
/// that found no destination counts the whole plan.
pub proof fn lemma_clean_plan_renames_every_entry(plan: &RenamePlan, destination_exists: Seq<bool>, verbose: bool, force: bool)
    requires
        plan.wf(),
        destination_exists.len() == plan.entries@.len(),
        !has_duplicate_destinations(plan),
        !has_overlap(plan),
        forall|i: int| 0 <= i < destination_exists.len() ==> !#[trigger] destination_exists[i],
    ensures
        validation(plan, destination_exists, force) == Ok::<(), Conflict>(()),
        forall|i: int| 0 <= i < destination_exists.len() ==> {
            let st = step_for(false, verbose, force, #[trigger] destination_exists[i]);
            st.rename && st.counted
        },
        counted_steps(false, verbose, force, destination_exists) == plan.entries@.len(),
        renaming_steps(false, verbose, force, destination_exists) == plan.entries@.len(),
{
    lemma_absent_destinations_all_renamed(verbose, force, destination_exists);
}

/// Preview never renames: every step of a preview run only counts.
pub proof fn lemma_preview_never_renames(verbose: bool, force: bool, destination_exists: bool)
    ensures
        !step_for(true, verbose, force, destination_exists).rename,
        step_for(true, verbose, force, destination_exists).counted,
{
}

/// Running twice: after the first plan has been carried out, the second scan
/// sees the paths of the first scan that were not sources, and the
/// destinations. Where no destination is renamed again by the same pattern
/// pair, the second plan is empty.
pub proof fn lemma_second_run_is_empty(
    text: Seq<char>,
    template: Seq<char>,
    first_scan: Seq<ScanEntry>,
    second_scan: Seq<ScanEntry>,
    first: &RenamePlan,
    second: &RenamePlan,
)
    requires
        built_from(first, text, template, first_scan),
        built_from(second, text, template, second_scan),
        forall|p: Seq<u8>| #[trigger] scanned(second_scan, p) ==>
            (scanned(first_scan, p) && !first.has_source(p)) || exists|s: Seq<u8>| first.maps(s, p),
        forall|s: Seq<u8>, d: Seq<u8>| first.maps(s, d) ==> !renamed(text, template, d),
    ensures
        second.entries@.len() == 0,
{
    if second.entries@.len() > 0 {
        let p = second.entries@[0].source@;
        assert(second.has_source(p));
        assert(scanned(second_scan, p));
    }
}

} // verus!
