//! The rename plan: a mapping from source paths to destination paths, kept
//! sorted by source, and the builder that derives it from scanned entries.
use vstd::prelude::*;
use crate::paths::{bytes_equal, bytes_less, bytes_lt, lemma_bytes_lt_irreflexive, lemma_bytes_lt_total, lemma_bytes_lt_transitive, strip_current_dir, stripped};
use crate::pattern::{build_regex, is_match, pattern_accepted, anchored, regex_matches, regex_replaced, substitute, Matcher};

verus! {

/// One planned rename.
pub struct Rename {
    pub source: Vec<u8>,
    pub destination: Vec<u8>,
}

/// An entry found by the directory walk: its path and its depth below the root.
pub struct ScanEntry {
    pub path: Vec<u8>,
    pub depth: usize,
}

/// Sources mapped to destinations, in increasing byte order of the source.
pub struct RenamePlan {
    pub entries: Vec<Rename>,
}

impl RenamePlan {
    /// The plan as a sequence of (source, destination) pairs.
    pub open spec fn pairs(&self) -> Seq<(Seq<u8>, Seq<u8>)> {
        self.entries@.map_values(|e: Rename| (e.source@, e.destination@))
    }

    pub open spec fn sources(&self) -> Seq<Seq<u8>> {
        self.entries@.map_values(|e: Rename| e.source@)
    }

    pub open spec fn destinations(&self) -> Seq<Seq<u8>> {
        self.entries@.map_values(|e: Rename| e.destination@)
    }

    /// The plan renames `s` to `d`.
    pub open spec fn maps(&self, s: Seq<u8>, d: Seq<u8>) -> bool {
        exists|i: int| 0 <= i < self.entries@.len() && self.entries@[i].source@ == s && #[trigger] self.entries@[i].destination@ == d
    }

    /// The plan has an entry for source `s`.
    pub open spec fn has_source(&self, s: Seq<u8>) -> bool {
        exists|i: int| 0 <= i < self.entries@.len() && #[trigger] self.entries@[i].source@ == s
    }

    /// Sources strictly increase, and no entry renames a path to itself.
    pub open spec fn wf(&self) -> bool {
        &&& forall|i: int, j: int|
            0 <= i < j < self.entries@.len() ==> bytes_lt(#[trigger] self.entries@[i].source@, #[trigger] self.entries@[j].source@)
        &&& forall|i: int| 0 <= i < self.entries@.len() ==> #[trigger] self.entries@[i].source@ != self.entries@[i].destination@
    }

    /// An empty plan.
    pub fn new() -> (r: RenamePlan)
        ensures
            r.wf(),
            r.entries@.len() == 0,
    {
        RenamePlan { entries: Vec::new() }
    }

    pub fn len(&self) -> (r: usize)
        ensures
            r == self.entries@.len(),
    {
        self.entries.len()
    }

    pub fn is_empty(&self) -> (r: bool)
        ensures
            r == (self.entries@.len() == 0),
    {
        self.entries.len() == 0
    }

    /// Map `source` to `destination`, replacing an earlier destination of the
    /// same source.
    pub fn insert(&mut self, source: Vec<u8>, destination: Vec<u8>)
        requires
            old(self).wf(),
            source@ != destination@,
        ensures
            final(self).wf(),
            forall|s: Seq<u8>, d: Seq<u8>|
                final(self).maps(s, d) <==> ((s == source@ && d == destination@) || (s != source@ && old(self).maps(s, d))),
            forall|s: Seq<u8>| final(self).has_source(s) <==> (s == source@ || old(self).has_source(s)),
    {
        let ghost before = self.entries@;
        let n = self.entries.len();
        let mut i: usize = 0;
        while i < n && bytes_less(&self.entries[i].source, &source)
            invariant
                n == self.entries@.len(),
                self.entries@ == before,
                i <= n,
                forall|k: int| 0 <= k < i ==> bytes_lt(#[trigger] before[k].source@, source@),
            decreases n - i,
        {
            i = i + 1;
        }
        let same = i < n && !bytes_less(&source, &self.entries[i].source);
        proof {
            if same && source@ != before[i as int].source@ {
                lemma_bytes_lt_total(source@, before[i as int].source@);
            }
        }
        let r = Rename { source, destination };
        if same {
            self.entries.remove(i);
            self.entries.insert(i, r);
            proof {
                let after = self.entries@;
                assert(after =~= before.update(i as int, r));
                assert forall|k: int| 0 <= k < after.len() implies #[trigger] after[k].source@ == before[k].source@ by {}
                assert forall|a: int, b: int| 0 <= a < b < after.len() implies bytes_lt(#[trigger] after[a].source@, #[trigger] after[b].source@) by {
                    assert(after[a].source@ == before[a].source@);
                    assert(after[b].source@ == before[b].source@);
                }
                assert forall|k: int| 0 <= k < after.len() implies #[trigger] after[k].source@ != after[k].destination@ by {
                    if k != i {
                        assert(after[k] == before[k]);
                    }
                }
                assert forall|k: int| 0 <= k < before.len() && k != i implies before[k].source@ != r.source@ by {
                    if k < i {
                        lemma_bytes_lt_irreflexive(before[k].source@, before[i as int].source@);
                    } else {
                        lemma_bytes_lt_irreflexive(before[i as int].source@, before[k].source@);
                    }
                }
                assert forall|s: Seq<u8>, d: Seq<u8>|
                    self.maps(s, d) <==> ((s == r.source@ && d == r.destination@) || (s != r.source@ && old(self).maps(s, d))) by {
                    if self.maps(s, d) {
                        let k = choose|k: int| 0 <= k < after.len() && after[k].source@ == s && #[trigger] after[k].destination@ == d;
                        if k != i {
                            assert(before[k].destination@ == d);
                        }
                    }
                    if s == r.source@ && d == r.destination@ {
                        assert(after[i as int].destination@ == d);
                    }
                    if s != r.source@ && old(self).maps(s, d) {
                        let k = choose|k: int| 0 <= k < before.len() && before[k].source@ == s && #[trigger] before[k].destination@ == d;
                        assert(after[k].destination@ == d);
                    }
                }
                assert forall|s: Seq<u8>| self.has_source(s) <==> (s == r.source@ || old(self).has_source(s)) by {
                    if self.has_source(s) {
                        let k = choose|k: int| 0 <= k < after.len() && #[trigger] after[k].source@ == s;
                        assert(before[k].source@ == s);
                    }
                    if s == r.source@ {
                        assert(after[i as int].source@ == s);
                    }
                    if old(self).has_source(s) {
                        let k = choose|k: int| 0 <= k < before.len() && #[trigger] before[k].source@ == s;
                        assert(after[k].source@ == s);
                    }
                }
            }
        } else {
            self.entries.insert(i, r);
            proof {
                let after = self.entries@;
                assert(after =~= before.insert(i as int, r));
                assert forall|k: int| 0 <= k < after.len() implies #[trigger] after[k].source@ != after[k].destination@ by {
                    if k < i {
                        assert(after[k] == before[k]);
                        assert(after[k].source@ != after[k].destination@);
                    } else if k > i {
                        let j = k - 1;
                        assert(after[k] == before[j]);
                        assert(before[j].source@ != before[j].destination@);
                        assert(after[k].source@ != after[k].destination@);
                    } else {
                        assert(after[k] == r);
                        assert(after[k].source@ != after[k].destination@);
                    }
                }
                assert forall|k: int| i <= k < before.len() implies bytes_lt(r.source@, #[trigger] before[k].source@) by {
                    if k > i {
                        lemma_bytes_lt_transitive(r.source@, before[i as int].source@, before[k].source@);
                    }
                }
                assert forall|k: int| 0 <= k < before.len() implies #[trigger] before[k].source@ != r.source@ by {
                    if k < i {
                        lemma_bytes_lt_irreflexive(before[k].source@, r.source@);
                    } else {
                        lemma_bytes_lt_irreflexive(r.source@, before[k].source@);
                    }
                }
                assert forall|a: int, b: int| 0 <= a < b < after.len() implies bytes_lt(#[trigger] after[a].source@, #[trigger] after[b].source@) by {
                    let sa = if a < i { before[a].source@ } else if a == i { r.source@ } else { before[a - 1].source@ };
                    let sb = if b < i { before[b].source@ } else if b == i { r.source@ } else { before[b - 1].source@ };
                    assert(after[a].source@ == sa);
                    assert(after[b].source@ == sb);
                    if b == i {
                        assert(bytes_lt(sa, sb));
                    } else if a == i {
                        assert(bytes_lt(sa, sb));
                    } else if a < i && b > i {
                        lemma_bytes_lt_transitive(before[a].source@, r.source@, before[b - 1].source@);
                        assert(bytes_lt(sa, sb));
                    } else if b < i {
                        assert(bytes_lt(sa, sb));
                    } else {
                        assert(bytes_lt(sa, sb));
                    }
                }
                assert forall|s: Seq<u8>, d: Seq<u8>|
                    self.maps(s, d) <==> ((s == r.source@ && d == r.destination@) || (s != r.source@ && old(self).maps(s, d))) by {
                    if self.maps(s, d) {
                        let k = choose|k: int| 0 <= k < after.len() && after[k].source@ == s && #[trigger] after[k].destination@ == d;
                        if k < i {
                            assert(after[k] == before[k]);
                            assert(before[k].source@ == s && before[k].destination@ == d);
                            assert(old(self).maps(s, d));
                        } else if k > i {
                            assert(after[k] == before[k - 1]);
                            assert(before[k - 1].source@ == s && before[k - 1].destination@ == d);
                            assert(old(self).maps(s, d));
                        } else {
                            assert(after[k] == r);
                        }
                    }
                    if s == r.source@ && d == r.destination@ {
                        assert(after[i as int] == r);
                        assert(after[i as int].source@ == s && after[i as int].destination@ == d);
                    }
                    if s != r.source@ && old(self).maps(s, d) {
                        let k = choose|k: int| 0 <= k < before.len() && before[k].source@ == s && #[trigger] before[k].destination@ == d;
                        if k < i {
                            assert(after[k] == before[k]);
                            assert(after[k].source@ == s && after[k].destination@ == d);
                        } else {
                            assert(after[k + 1] == before[k]);
                            assert(after[k + 1].source@ == s && after[k + 1].destination@ == d);
                        }
                    }
                }
                assert forall|s: Seq<u8>| self.has_source(s) <==> (s == r.source@ || old(self).has_source(s)) by {
                    if self.has_source(s) {
                        let k = choose|k: int| 0 <= k < after.len() && #[trigger] after[k].source@ == s;
                        if k < i {
                            assert(after[k] == before[k]);
                            assert(before[k].source@ == s);
                        } else if k > i {
                            assert(after[k] == before[k - 1]);
                            assert(before[k - 1].source@ == s);
                        } else {
                            assert(after[k] == r);
                        }
                    }
                    if s == r.source@ {
                        assert(after[i as int] == r);
                        assert(after[i as int].source@ == s);
                    }
                    if old(self).has_source(s) {
                        let k = choose|k: int| 0 <= k < before.len() && #[trigger] before[k].source@ == s;
                        if k < i {
                            assert(after[k] == before[k]);
                            assert(after[k].source@ == s);
                        } else {
                            assert(after[k + 1] == before[k]);
                            assert(after[k + 1].source@ == s);
                        }
                    }
                }
            }
        }
    }
}

/// A scanned entry below the root whose path, relative to the current
/// directory, is `s`.
pub open spec fn scanned(scan: Seq<ScanEntry>, s: Seq<u8>) -> bool {
    exists|i: int| 0 <= i < scan.len() && #[trigger] scan[i].depth > 0 && stripped(scan[i].path@) == s
}

/// The destination that the template gives for a path matched by the
/// pattern text.
pub open spec fn destination_of(text: Seq<char>, template: Seq<char>, s: Seq<u8>) -> Seq<u8> {
    regex_replaced(text, s, template)
}

/// The pattern text matches `s` and renames it to another path.
pub open spec fn renamed(text: Seq<char>, template: Seq<char>, s: Seq<u8>) -> bool {
    regex_matches(text, s) && destination_of(text, template, s) != s
}

/// The plan holds exactly the scanned paths that the pattern text renames,
/// each mapped to its destination.
pub open spec fn built_from(plan: &RenamePlan, text: Seq<char>, template: Seq<char>, scan: Seq<ScanEntry>) -> bool {
    &&& forall|s: Seq<u8>, d: Seq<u8>|
        plan.maps(s, d) <==> (scanned(scan, s) && renamed(text, template, s) && d == destination_of(text, template, s))
    &&& forall|s: Seq<u8>| plan.has_source(s) <==> (scanned(scan, s) && renamed(text, template, s))
}

/// Build the plan from the scanned entries: every entry below the root whose
/// relative path matches is mapped to its substituted destination, unless
/// that destination is the path itself.
pub fn plan_from_scan(matcher: &Matcher, template: &String, scan: &Vec<ScanEntry>) -> (r: RenamePlan)
    ensures
        r.wf(),
        built_from(&r, matcher.text(), template@, scan@),
{
    let mut plan = RenamePlan::new();
    let mut i: usize = 0;
    while i < scan.len()
        invariant
            i <= scan@.len(),
            plan.wf(),
            forall|s: Seq<u8>, d: Seq<u8>|
                plan.maps(s, d) <==> (scanned(scan@.take(i as int), s) && renamed(matcher.text(), template@, s)
                    && d == destination_of(matcher.text(), template@, s)),
            forall|s: Seq<u8>| plan.has_source(s) <==> (scanned(scan@.take(i as int), s) && renamed(matcher.text(), template@, s)),
        decreases scan@.len() - i,
    {
        let ghost prefix = scan@.take(i as int);
        let ghost next = scan@.take(i + 1);
        assert(next =~= prefix.push(scan@[i as int]));
        assert forall|s: Seq<u8>| #[trigger] scanned(prefix, s) implies scanned(next, s) by {
            {
                let k = choose|k: int| 0 <= k < prefix.len() && #[trigger] prefix[k].depth > 0 && stripped(prefix[k].path@) == s;
                assert(next[k] == prefix[k]);
            }
        }
        assert forall|s: Seq<u8>| #[trigger] scanned(next, s) implies (scanned(prefix, s)
            || (scan@[i as int].depth > 0 && stripped(scan@[i as int].path@) == s)) by {
            {
                let k = choose|k: int| 0 <= k < next.len() && #[trigger] next[k].depth > 0 && stripped(next[k].path@) == s;
                if k < i {
                    assert(prefix[k] == next[k]);
                }
            }
        }
        let entry = &scan[i];
        if entry.depth > 0 {
            let source = strip_current_dir(entry.path.as_slice());
            assert(scanned(next, source@)) by {
                assert(next[i as int] == scan@[i as int]);
            }
            if is_match(matcher, &source) {
                let destination = substitute(matcher, &source, template);
                if !bytes_equal(&source, &destination) {
                    plan.insert(source, destination);
                }
            }
        }
        i = i + 1;
    }
    assert(scan@.take(scan@.len() as int) =~= scan@);
    plan
}

/// Get the map of sources to destinations: compile the source pattern, then
/// build the plan from the scanned entries.
pub fn get_name_map(source_pattern: &String, destination_pattern: &String, scan: &Vec<ScanEntry>) -> (r: Result<RenamePlan, regex::Error>)
    ensures
        r is Ok <==> pattern_accepted(source_pattern@) && pattern_accepted(anchored(source_pattern@)),
        r matches Ok(plan) ==> plan.wf() && built_from(&plan, anchored(source_pattern@), destination_pattern@, scan@),
{
    match build_regex(source_pattern) {
        Ok(matcher) => Ok(plan_from_scan(&matcher, destination_pattern, scan)),
        Err(e) => Err(e),
    }
}

} // verus!
