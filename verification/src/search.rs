//! File search results: which names match a pattern, how many are kept,
//! and the order of a directory listing.

use vstd::prelude::*;
use crate::listing::key_of;
use crate::listing::keys_view;
use crate::listing::make_key;
use crate::listing::sort_order;
use crate::listing::sorted_order;
use crate::listing::SortKey;
use crate::text::chars_of;
use crate::text::contains_chars;
use crate::text::contains_seq;
use crate::text::lowercase_of;
use crate::text::to_lowercase;

verus! {

/// The greatest depth to which a search descends.
pub const MAX_SEARCH_DEPTH: usize = 10;

/// A file or directory that a search or a listing found.
#[derive(Clone, Debug)]
pub struct SearchResult {
    pub path: String,
    pub name: String,
    pub is_dir: bool,
    pub size: u64,
}

/// Whether a name matches a pattern: the name holds the pattern, without
/// regard to case.
pub open spec fn name_matches(name: Seq<char>, pattern: Seq<char>) -> bool {
    contains_seq(lowercase_of(name), lowercase_of(pattern))
}

/// Gathers the results of a search: the entries offered whose names match
/// the pattern, in the order offered, up to a maximum number.
pub struct SearchCollector {
    /// The pattern in lower case.
    pub pattern_lower: Vec<char>,
    pub max_results: usize,
    pub results: Vec<SearchResult>,
}

impl SearchCollector {
    /// A collector for the pattern, with nothing gathered yet.
    pub fn new(pattern: &str, max_results: usize) -> (collector: Self)
        ensures
            collector.pattern_lower@ == lowercase_of(pattern@),
            collector.max_results == max_results,
            collector.results@ == Seq::<SearchResult>::empty(),
    {
        let lower = to_lowercase(pattern);
        SearchCollector {
            pattern_lower: chars_of(lower.as_str()),
            max_results,
            results: Vec::new(),
        }
    }

    /// Whether the maximum number of results is reached, so that the search
    /// can stop.
    pub fn is_full(&self) -> (full: bool)
        ensures
            full == (self.results@.len() >= self.max_results),
    {
        self.results.len() >= self.max_results
    }

    /// Whether an entry with this name would be kept if it were offered
    /// now.
    pub fn accepts(&self, name: &str) -> (kept: bool)
        ensures
            kept == (self.results@.len() < self.max_results && contains_seq(
                lowercase_of(name@),
                self.pattern_lower@,
            )),
    {
        if self.results.len() >= self.max_results {
            return false;
        }
        let lower = to_lowercase(name);
        let chars = chars_of(lower.as_str());
        contains_chars(&chars, &self.pattern_lower)
    }

    /// Offers an entry: it is kept where there is room left and its name
    /// matches. Returns whether it was kept.
    pub fn offer(&mut self, entry: SearchResult) -> (kept: bool)
        ensures
            final(self).pattern_lower == old(self).pattern_lower,
            final(self).max_results == old(self).max_results,
            kept == (old(self).results@.len() < old(self).max_results && contains_seq(
                lowercase_of(entry.name@),
                old(self).pattern_lower@,
            )),
            final(self).results@ == (if kept {
                old(self).results@.push(entry)
            } else {
                old(self).results@
            }),
            final(self).results@.len() <= old(self).max_results || final(self).results@.len()
                == old(self).results@.len(),
    {
        if self.accepts(entry.name.as_str()) {
            self.results.push(entry);
            true
        } else {
            false
        }
    }
}

/// The keys by which the entries are ordered.
pub open spec fn result_keys(entries: Seq<SearchResult>) -> Seq<SortKey> {
    Seq::new(entries.len(), |i: int| key_of(entries[i].is_dir, entries[i].name@))
}

/// The entries in the order of a listing: directories first, then by
/// name without regard to case; entries alike in both keep their order.
pub open spec fn listing_order(entries: Seq<SearchResult>) -> Seq<SearchResult> {
    let order = sorted_order(result_keys(entries), entries.len() as int);
    Seq::new(entries.len(), |k: int| entries[order[k] as int])
}

fn copy_result(entry: &SearchResult) -> (copy: SearchResult)
    ensures
        copy == *entry,
{
    SearchResult {
        path: entry.path.clone(),
        name: entry.name.clone(),
        is_dir: entry.is_dir,
        size: entry.size,
    }
}

/// Puts the entries of a directory in the order of a listing.
pub fn sort_entries(entries: &Vec<SearchResult>) -> (sorted: Vec<SearchResult>)
    ensures
        sorted@ == listing_order(entries@),
{
    let mut keys: Vec<(bool, Vec<char>)> = Vec::new();
    let mut i: usize = 0;
    while i < entries.len()
        invariant
            i <= entries@.len(),
            keys@.len() == i,
            forall|j: int|
                0 <= j < i ==> ((#[trigger] keys@[j]).0, keys@[j].1@) == key_of(
                    entries@[j].is_dir,
                    entries@[j].name@,
                ),
        decreases entries@.len() - i,
    {
        keys.push(make_key(entries[i].is_dir, entries[i].name.as_str()));
        i += 1;
    }
    assert(keys_view(keys@) =~= result_keys(entries@));
    let order = sort_order(&keys);
    let mut sorted: Vec<SearchResult> = Vec::new();
    let mut k: usize = 0;
    while k < order.len()
        invariant
            k <= order@.len(),
            order@.len() == entries@.len(),
            order@ == sorted_order(result_keys(entries@), entries@.len() as int),
            forall|j: int| 0 <= j < order@.len() ==> (#[trigger] order@[j]) < entries@.len(),
            sorted@.len() == k,
            forall|j: int| 0 <= j < k ==> #[trigger] sorted@[j] == entries@[order@[j] as int],
        decreases order@.len() - k,
    {
        sorted.push(copy_result(&entries[order[k]]));
        k += 1;
    }
    assert(sorted@ =~= listing_order(entries@));
    sorted
}

} // verus!
