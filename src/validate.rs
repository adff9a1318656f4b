//! The conflict checks run on a plan before anything is renamed, and the
//! reports that name the offending paths.
use vstd::prelude::*;
use itertools::Itertools;
use crate::paths::{copy_bytes, lemma_bytes_lt_irreflexive};
use crate::plan::RenamePlan;
use crate::text::{append, append_string, display_bytes, lossy_text};

verus! {

/// The views of a list of paths.
pub open spec fn byte_views(items: Seq<Vec<u8>>) -> Seq<Seq<u8>> {
    items.map_values(|v: Vec<u8>| v@)
}

/// Among the first `n` items, each one that is equal to exactly one item
/// before it: every repeated value once, at its second occurrence.
pub open spec fn second_occurrences(items: Seq<Seq<u8>>, n: int) -> Seq<Seq<u8>>
    decreases n,
{
    if n <= 0 {
        seq![]
    } else if items.take(n - 1).filter(|x: Seq<u8>| x == items[n - 1]).len() == 1 {
        second_occurrences(items, n - 1).push(items[n - 1])
    } else {
        second_occurrences(items, n - 1)
    }
}

/// Relies on itertools::Itertools::all_unique: true exactly when no two items are equal.
#[verifier::external_body]
fn all_unique(items: &Vec<Vec<u8>>) -> (r: bool)
    ensures
        r == byte_views(items@).no_duplicates(),
{
    items.iter().all_unique()
}

/// Relies on itertools::Itertools::duplicates: each item that occurs more
/// than once, reported once, at its second occurrence and in that order.
#[verifier::external_body]
pub(crate) fn duplicates(items: &Vec<Vec<u8>>) -> (r: Vec<Vec<u8>>)
    ensures
        byte_views(r@) == second_occurrences(byte_views(items@), items@.len() as int),
{
    items.iter().duplicates().cloned().collect()
}

/// Relies on itertools::Itertools::contains: whether an item equals the query.
#[verifier::external_body]
pub(crate) fn contains(items: &Vec<Vec<u8>>, query: &Vec<u8>) -> (r: bool)
    ensures
        r == byte_views(items@).contains(query@),
{
    items.iter().contains(query)
}

/// The destinations of a plan, in plan order.
pub fn destination_list(plan: &RenamePlan) -> (r: Vec<Vec<u8>>)
    ensures
        byte_views(r@) == plan.destinations(),
{
    let mut r: Vec<Vec<u8>> = Vec::new();
    let mut i: usize = 0;
    while i < plan.entries.len()
        invariant
            i <= plan.entries@.len(),
            r@.len() == i,
            forall|k: int| 0 <= k < i ==> #[trigger] r@[k]@ == plan.entries@[k].destination@,
        decreases plan.entries@.len() - i,
    {
        r.push(copy_bytes(&plan.entries[i].destination));
        i = i + 1;
    }
    assert(byte_views(r@) =~= plan.destinations());
    r
}

/// The sources of a plan, in plan order.
pub fn source_list(plan: &RenamePlan) -> (r: Vec<Vec<u8>>)
    ensures
        byte_views(r@) == plan.sources(),
{
    let mut r: Vec<Vec<u8>> = Vec::new();
    let mut i: usize = 0;
    while i < plan.entries.len()
        invariant
            i <= plan.entries@.len(),
            r@.len() == i,
            forall|k: int| 0 <= k < i ==> #[trigger] r@[k]@ == plan.entries@[k].source@,
        decreases plan.entries@.len() - i,
    {
        r.push(copy_bytes(&plan.entries[i].source));
        i = i + 1;
    }
    assert(byte_views(r@) =~= plan.sources());
    r
}

/// The three classes of conflict that stop a plan, in the order they are checked.
#[derive(Clone, Copy, Debug, PartialEq, Eq, Structural)]
pub enum Conflict {
    /// Two or more sources map to one destination.
    DuplicateDestinations,
    /// The destination of a mapping is the source of a mapping.
    SourceDestinationOverlap,
    /// A destination exists already and overwriting is not allowed.
    DestinationExists,
}

/// Two sources of the plan share a destination.
pub open spec fn has_duplicate_destinations(plan: &RenamePlan) -> bool {
    !plan.destinations().no_duplicates()
}

/// Some destination of the plan is also a source of the plan.
pub open spec fn has_overlap(plan: &RenamePlan) -> bool {
    exists|i: int, j: int|
        0 <= i < plan.entries@.len() && 0 <= j < plan.entries@.len()
            && #[trigger] plan.entries@[i].destination@ == #[trigger] plan.entries@[j].source@
}

/// Some destination exists already on disk.
pub open spec fn any_exists(destination_exists: Seq<bool>) -> bool {
    exists|i: int| 0 <= i < destination_exists.len() && #[trigger] destination_exists[i]
}

/// The outcome of validation: the first class of conflict found, if any.
pub open spec fn validation(plan: &RenamePlan, destination_exists: Seq<bool>, force: bool) -> Result<(), Conflict> {
    if has_duplicate_destinations(plan) {
        Err(Conflict::DuplicateDestinations)
    } else if has_overlap(plan) {
        Err(Conflict::SourceDestinationOverlap)
    } else if !force && any_exists(destination_exists) {
        Err(Conflict::DestinationExists)
    } else {
        Ok(())
    }
}

proof fn lemma_sources_distinct(plan: &RenamePlan)
    requires
        plan.wf(),
    ensures
        plan.sources().no_duplicates(),
{
    assert forall|i: int, j: int| 0 <= i < plan.sources().len() && 0 <= j < plan.sources().len() && i != j
        implies plan.sources()[i] != plan.sources()[j] by {
        if i < j {
            lemma_bytes_lt_irreflexive(plan.entries@[i].source@, plan.entries@[j].source@);
        } else {
            lemma_bytes_lt_irreflexive(plan.entries@[j].source@, plan.entries@[i].source@);
        }
    }
}

/// Whether any destination is also a source, for a plan whose destinations
/// are distinct.
fn overlaps(plan: &RenamePlan) -> (r: bool)
    requires
        plan.wf(),
        !has_duplicate_destinations(plan),
    ensures
        r == has_overlap(plan),
{
    let mut both = destination_list(plan);
    let mut sources = source_list(plan);
    let ghost d = byte_views(both@);
    let ghost s = byte_views(sources@);
    both.append(&mut sources);
    let unique = all_unique(&both);
    proof {
        lemma_sources_distinct(plan);
        let all = byte_views(both@);
        assert(all =~= d + s);
        let n = d.len();
        if has_overlap(plan) {
            let (i, j) = choose|i: int, j: int|
                0 <= i < plan.entries@.len() && 0 <= j < plan.entries@.len()
                    && #[trigger] plan.entries@[i].destination@ == #[trigger] plan.entries@[j].source@;
            assert(all[i] == all[n + j]);
        } else {
            assert forall|a: int, b: int| 0 <= a < all.len() && 0 <= b < all.len() && a != b implies all[a] != all[b] by {
                if a < n && b >= n {
                    assert(all[a] == plan.entries@[a].destination@);
                    assert(all[b] == plan.entries@[b - n].source@);
                } else if a >= n && b < n {
                    assert(all[b] == plan.entries@[b].destination@);
                    assert(all[a] == plan.entries@[a - n].source@);
                } else if a < n {
                    assert(all[a] == d[a] && all[b] == d[b]);
                } else {
                    assert(all[a] == s[a - n] && all[b] == s[b - n]);
                }
            }
        }
    }
    !unique
}

/// Whether any entry is true.
fn any_true(flags: &Vec<bool>) -> (r: bool)
    ensures
        r == any_exists(flags@),
{
    let mut i: usize = 0;
    while i < flags.len()
        invariant
            i <= flags@.len(),
            forall|k: int| 0 <= k < i ==> !#[trigger] flags@[k],
        decreases flags@.len() - i,
    {
        if flags[i] {
            return true;
        }
        i = i + 1;
    }
    false
}

/// Check a plan before any rename: first for destinations shared by several
/// sources, then for destinations that are sources too, then, unless `force`
/// is set, for destinations that exist already (`destination_exists[i]` tells
/// whether the destination of entry `i` is on disk).
pub fn validate(plan: &RenamePlan, destination_exists: &Vec<bool>, force: bool) -> (r: Result<(), Conflict>)
    requires
        plan.wf(),
        destination_exists@.len() == plan.entries@.len(),
    ensures
        r == validation(plan, destination_exists@, force),
{
    let destinations = destination_list(plan);
    if !all_unique(&destinations) {
        return Err(Conflict::DuplicateDestinations);
    }
    if overlaps(plan) {
        return Err(Conflict::SourceDestinationOverlap);
    }
    if !force && any_true(destination_exists) {
        return Err(Conflict::DestinationExists);
    }
    Ok(())
}

} // verus!
