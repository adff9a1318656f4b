//! The text of each conflict report: a header, then the offending paths.
use vstd::prelude::*;
use crate::paths::bytes_equal;
use crate::plan::{Rename, RenamePlan};
use crate::text::{append, append_string, display_bytes, lossy_text};
use crate::validate::{byte_views, contains, duplicates, second_occurrences, source_list};

verus! {

/// `'path'` on a line of its own.
pub open spec fn quoted_line(p: Seq<u8>) -> Seq<char> {
    "'"@ + lossy_text(p) + "'\n"@
}

/// `'source' ⇒ 'destination'` on a line of its own.
pub open spec fn pair_line(s: Seq<u8>, d: Seq<u8>) -> Seq<char> {
    "'"@ + lossy_text(s) + "' ⇒ '"@ + lossy_text(d) + "'\n"@
}

/// The sources among the first `n` entries that map to `d`, one per line.
pub open spec fn sources_text(entries: Seq<Rename>, d: Seq<u8>, n: int) -> Seq<char>
    decreases n,
{
    if n <= 0 {
        seq![]
    } else if entries[n - 1].destination@ == d {
        sources_text(entries, d, n - 1) + quoted_line(entries[n - 1].source@)
    } else {
        sources_text(entries, d, n - 1)
    }
}

/// The group of sources that all map to `d`.
pub open spec fn group_text(entries: Seq<Rename>, d: Seq<u8>) -> Seq<char> {
    "The following sources all map to '"@ + lossy_text(d) + "':\n"@ + sources_text(entries, d, entries.len() as int)
}

/// The groups of the first `n` contended destinations.
pub open spec fn groups_text(entries: Seq<Rename>, dups: Seq<Seq<u8>>, n: int) -> Seq<char>
    decreases n,
{
    if n <= 0 {
        seq![]
    } else {
        groups_text(entries, dups, n - 1) + group_text(entries, dups[n - 1])
    }
}

/// The report on destinations shared by several sources, grouped by the
/// destinations `dups`, in that order.
pub open spec fn duplicates_report(entries: Seq<Rename>, dups: Seq<Seq<u8>>) -> Seq<char> {
    "Multiple sources map to the same destination.\n"@ + groups_text(entries, dups, dups.len() as int)
}

/// The first `n` entries whose destination is one of `keys`, one per line.
pub open spec fn overlap_text(entries: Seq<Rename>, keys: Seq<Seq<u8>>, n: int) -> Seq<char>
    decreases n,
{
    if n <= 0 {
        seq![]
    } else if keys.contains(entries[n - 1].destination@) {
        overlap_text(entries, keys, n - 1) + pair_line(entries[n - 1].source@, entries[n - 1].destination@)
    } else {
        overlap_text(entries, keys, n - 1)
    }
}

/// The report on destinations that are sources too.
pub open spec fn overlap_report(plan: &RenamePlan) -> Seq<char> {
    "Some sources map to another sources.\nThe following files or folders are conflicting:\n"@
        + overlap_text(plan.entries@, plan.sources(), plan.entries@.len() as int)
}

/// The first `n` entries whose destination exists, one per line.
pub open spec fn existing_text(entries: Seq<Rename>, flags: Seq<bool>, n: int) -> Seq<char>
    decreases n,
{
    if n <= 0 {
        seq![]
    } else if flags[n - 1] {
        existing_text(entries, flags, n - 1) + pair_line(entries[n - 1].source@, entries[n - 1].destination@)
    } else {
        existing_text(entries, flags, n - 1)
    }
}

/// The report on destinations that exist already.
pub open spec fn existing_report(plan: &RenamePlan, flags: Seq<bool>) -> Seq<char> {
    "The following destinations already exist:\n"@ + existing_text(plan.entries@, flags, plan.entries@.len() as int)
}

/// Appends `'path'` and a line break.
fn append_quoted(msg: &mut String, p: &Vec<u8>)
    ensures
        final(msg)@ == old(msg)@ + quoted_line(p@),
{
    append(msg, "'");
    append_string(msg, &display_bytes(p));
    append(msg, "'\n");
    assert(final(msg)@ =~= old(msg)@ + quoted_line(p@));
}

/// Appends `'source' ⇒ 'destination'` and a line break.
fn append_pair(msg: &mut String, s: &Vec<u8>, d: &Vec<u8>)
    ensures
        final(msg)@ == old(msg)@ + pair_line(s@, d@),
{
    append(msg, "'");
    append_string(msg, &display_bytes(s));
    append(msg, "' ⇒ '");
    append_string(msg, &display_bytes(d));
    append(msg, "'\n");
    assert(final(msg)@ =~= old(msg)@ + pair_line(s@, d@));
}

/// Appends the group of sources that map to `d`.
fn append_group(msg: &mut String, plan: &RenamePlan, d: &Vec<u8>)
    ensures
        final(msg)@ == old(msg)@ + group_text(plan.entries@, d@),
{
    append(msg, "The following sources all map to '");
    append_string(msg, &display_bytes(d));
    append(msg, "':\n");
    let ghost head = msg@;
    let mut i: usize = 0;
    while i < plan.entries.len()
        invariant
            i <= plan.entries@.len(),
            msg@ == head + sources_text(plan.entries@, d@, i as int),
        decreases plan.entries@.len() - i,
    {
        let e = &plan.entries[i];
        if bytes_equal(&e.destination, d) {
            append_quoted(msg, &e.source);
            assert(msg@ =~= head + sources_text(plan.entries@, d@, i + 1));
        }
        i = i + 1;
    }
    assert(msg@ =~= old(msg)@ + group_text(plan.entries@, d@));
}

/// The report on shared destinations, grouped by the given contended
/// destinations in their order.
pub fn render_duplicates(plan: &RenamePlan, dups: &Vec<Vec<u8>>) -> (r: String)
    ensures
        r@ == duplicates_report(plan.entries@, byte_views(dups@)),
{
    let mut msg = String::new();
    append(&mut msg, "Multiple sources map to the same destination.\n");
    let ghost head = msg@;
    let mut i: usize = 0;
    while i < dups.len()
        invariant
            i <= dups@.len(),
            msg@ == head + groups_text(plan.entries@, byte_views(dups@), i as int),
        decreases dups@.len() - i,
    {
        append_group(&mut msg, plan, &dups[i]);
        proof {
            assert(byte_views(dups@)[i as int] == dups@[i as int]@);
        }
        i = i + 1;
    }
    assert(msg@ =~= duplicates_report(plan.entries@, byte_views(dups@)));
    msg
}

/// The destinations that several sources map to, each once, in the order in
/// which their second source comes in the plan.
pub open spec fn contended(plan: &RenamePlan) -> Seq<Seq<u8>> {
    second_occurrences(plan.destinations(), plan.entries@.len() as int)
}

/// Find the conflicting mappings in the plan: every destination that several
/// sources map to, each with all of its sources.
pub fn duplicate_msg(plan: &RenamePlan) -> (r: String)
    ensures
        r@ == duplicates_report(plan.entries@, contended(plan)),
{
    let destinations = crate::validate::destination_list(plan);
    let dups = duplicates(&destinations);
    render_duplicates(plan, &dups)
}

/// Find the sources mapping to other sources.
pub fn map_to_source_msg(plan: &RenamePlan) -> (r: String)
    ensures
        r@ == overlap_report(plan),
{
    let sources = source_list(plan);
    let mut msg = String::new();
    append(&mut msg, "Some sources map to another sources.\nThe following files or folders are conflicting:\n");
    let ghost head = msg@;
    let mut i: usize = 0;
    while i < plan.entries.len()
        invariant
            i <= plan.entries@.len(),
            byte_views(sources@) == plan.sources(),
            msg@ == head + overlap_text(plan.entries@, plan.sources(), i as int),
        decreases plan.entries@.len() - i,
    {
        let e = &plan.entries[i];
        if contains(&sources, &e.destination) {
            append_pair(&mut msg, &e.source, &e.destination);
        }
        i = i + 1;
    }
    assert(msg@ =~= overlap_report(plan));
    msg
}

/// Find the existing destination files or folders: `destination_exists[i]`
/// tells whether the destination of entry `i` is on disk.
pub fn destination_exists_msg(plan: &RenamePlan, destination_exists: &Vec<bool>) -> (r: String)
    requires
        destination_exists@.len() == plan.entries@.len(),
    ensures
        r@ == existing_report(plan, destination_exists@),
{
    let mut msg = String::new();
    append(&mut msg, "The following destinations already exist:\n");
    let ghost head = msg@;
    let mut i: usize = 0;
    while i < plan.entries.len()
        invariant
            i <= plan.entries@.len(),
            destination_exists@.len() == plan.entries@.len(),
            msg@ == head + existing_text(plan.entries@, destination_exists@, i as int),
        decreases plan.entries@.len() - i,
    {
        if destination_exists[i] {
            append_pair(&mut msg, &plan.entries[i].source, &plan.entries[i].destination);
        }
        i = i + 1;
    }
    assert(msg@ =~= existing_report(plan, destination_exists@));
    msg
}

} // verus!
