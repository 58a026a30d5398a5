//! What a commit log is made of: which commits a filter lets through, the
//! window of a page, the decoration of a commit with the refs that point at
//! it, and the choice of the default branch.
//!
//! Reading a repository is the caller's business. It hands over what it
//! read as plain values and gets the decisions back.

use vstd::prelude::*;
use crate::git_graph::CommitEntry;
use crate::git_graph::GraphFilter;
use crate::listing::keys_view;
use crate::listing::sort_order;
use crate::listing::sorted_order;
use crate::listing::SortKey;
use crate::text::chars_of;
use crate::text::contains_chars;
use crate::text::contains_seq;
use crate::text::lowercase_of;
use crate::text::occurs_at;
use crate::text::occurs_at_chars;
use crate::text::starts_with_seq;
use crate::text::string_of;
use crate::text::strings_view;
use crate::text::to_lowercase;

verus! {

/// What is read of a commit.
#[derive(Clone, Debug)]
pub struct CommitInfo {
    pub hash: String,
    /// Hashes of the parents, in the commit's own order.
    pub parents: Vec<String>,
    /// Name of the author, empty where it cannot be read.
    pub author: String,
    /// Time of the commit in seconds since the epoch.
    pub time: i64,
    /// The whole message.
    pub message: String,
    /// The first line of the message.
    pub summary: String,
}

/// Whether `hay` holds `needle` without regard to case.
pub open spec fn holds_folded(hay: Seq<char>, needle: Seq<char>) -> bool {
    contains_seq(lowercase_of(hay), lowercase_of(needle))
}

/// Whether a filter lets a commit through, paths aside: merges are left
/// out where asked; the author's name must hold the author asked for; the
/// commit must not be older than asked; and the message must hold the text
/// searched for, or the hash begin with it, all without regard to case.
pub open spec fn passes(filter: GraphFilter, commit: CommitInfo) -> bool {
    &&& !(filter.no_merges && commit.parents@.len() > 1)
    &&& (filter.author matches Some(author) ==> holds_folded(commit.author@, author@))
    &&& !(filter.after_timestamp > 0 && commit.time < filter.after_timestamp)
    &&& (filter.search_text matches Some(text) ==> holds_folded(commit.message@, text@)
        || starts_with_seq(lowercase_of(commit.hash@), lowercase_of(text@)))
}

fn holds_folded_exec(hay: &str, needle: &str) -> (found: bool)
    ensures
        found == holds_folded(hay@, needle@),
{
    let h = to_lowercase(hay);
    let n = to_lowercase(needle);
    let hc = chars_of(h.as_str());
    let nc = chars_of(n.as_str());
    contains_chars(&hc, &nc)
}

fn starts_folded_exec(hay: &str, needle: &str) -> (found: bool)
    ensures
        found == starts_with_seq(lowercase_of(hay@), lowercase_of(needle@)),
{
    let h = to_lowercase(hay);
    let n = to_lowercase(needle);
    let hc = chars_of(h.as_str());
    let nc = chars_of(n.as_str());
    occurs_at_chars(&hc, &nc, 0)
}

/// Tells whether a filter lets a commit through, paths aside.
pub fn commit_passes(filter: &GraphFilter, commit: &CommitInfo) -> (ok: bool)
    ensures
        ok == passes(*filter, *commit),
{
    if filter.no_merges && commit.parents.len() > 1 {
        return false;
    }
    match &filter.author {
        Some(author) => {
            if !holds_folded_exec(commit.author.as_str(), author.as_str()) {
                return false;
            }
        },
        None => {},
    }
    if filter.after_timestamp > 0 && commit.time < filter.after_timestamp {
        return false;
    }
    match &filter.search_text {
        Some(text) => {
            if !holds_folded_exec(commit.message.as_str(), text.as_str()) && !starts_folded_exec(
                commit.hash.as_str(),
                text.as_str(),
            ) {
                return false;
            }
        },
        None => {},
    }
    true
}

/// Whether one of the changes touches one of the paths: the old or the
/// new path of a change begins with a path asked for.
pub open spec fn touches(deltas: Seq<(String, String)>, paths: Seq<String>) -> bool {
    exists|d: int, p: int|
        0 <= d < deltas.len() && 0 <= p < paths.len() && #[trigger] touches_at(deltas, paths, d, p)
}

/// Whether change `d` touches path `p`.
pub open spec fn touches_at(deltas: Seq<(String, String)>, paths: Seq<String>, d: int, p: int) -> bool {
    starts_with_seq(deltas[d].0@, paths[p]@) || starts_with_seq(deltas[d].1@, paths[p]@)
}

/// Tells whether a commit touches one of the paths asked for, given the
/// old and the new path of each of its changes.
pub fn commit_touches_paths(deltas: &Vec<(String, String)>, paths: &Vec<String>) -> (found: bool)
    ensures
        found == touches(deltas@, paths@),
{
    let mut d: usize = 0;
    while d < deltas.len()
        invariant
            d <= deltas@.len(),
            forall|i: int, p: int|
                0 <= i < d && 0 <= p < paths@.len() ==> !#[trigger] touches_at(
                    deltas@,
                    paths@,
                    i,
                    p,
                ),
        decreases deltas@.len() - d,
    {
        let old_path = chars_of(deltas[d].0.as_str());
        let new_path = chars_of(deltas[d].1.as_str());
        let mut p: usize = 0;
        while p < paths.len()
            invariant
                p <= paths@.len(),
                d < deltas@.len(),
                old_path@ == deltas@[d as int].0@,
                new_path@ == deltas@[d as int].1@,
                forall|i: int, q: int|
                    0 <= i < d && 0 <= q < paths@.len() ==> !#[trigger] touches_at(
                        deltas@,
                        paths@,
                        i,
                        q,
                    ),
                forall|q: int| 0 <= q < p ==> !#[trigger] touches_at(deltas@, paths@, d as int, q),
            decreases paths@.len() - p,
        {
            let wanted = chars_of(paths[p].as_str());
            if occurs_at_chars(&old_path, &wanted, 0) || occurs_at_chars(&new_path, &wanted, 0) {
                assert(touches_at(deltas@, paths@, d as int, p as int));
                return true;
            }
            p += 1;
        }
        d += 1;
    }
    false
}

/// The parts with `sep` between them.
pub open spec fn joined(parts: Seq<Seq<char>>, sep: Seq<char>) -> Seq<char>
    decreases parts.len(),
{
    if parts.len() == 0 {
        Seq::empty()
    } else if parts.len() == 1 {
        parts[0]
    } else {
        joined(parts.drop_last(), sep) + sep + parts.last()
    }
}

/// Joins strings with a separator between them.
pub fn join(parts: &Vec<String>, sep: &str) -> (out: String)
    ensures
        out@ == joined(strings_view(parts@), sep@),
{
    let ghost all = strings_view(parts@);
    let mut out = String::new();
    let mut i: usize = 0;
    assert(all.take(0) =~= Seq::empty());
    while i < parts.len()
        invariant
            i <= parts@.len(),
            all == strings_view(parts@),
            out@ == joined(all.take(i as int), sep@),
        decreases parts@.len() - i,
    {
        proof {
            let next = all.take(i + 1);
            assert(next.drop_last() =~= all.take(i as int));
            assert(next.last() == parts@[i as int]@);
            if i == 0 {
                assert(next[0] == parts@[0]@);
            }
        }
        if i > 0 {
            out.append(sep);
        }
        out.append(parts[i].as_str());
        proof {
            if i == 0 {
                assert(out@ =~= parts@[0]@);
            }
        }
        i += 1;
    }
    assert(all.take(parts@.len() as int) =~= all);
    out
}

/// The first seven characters of a hash, or all of a shorter one.
pub open spec fn short_of(hash: Seq<char>) -> Seq<char> {
    if hash.len() <= 7 {
        hash
    } else {
        hash.take(7)
    }
}

/// Whether an entry of the log is the one made from a commit and its
/// decoration.
pub open spec fn entry_of(entry: CommitEntry, commit: CommitInfo, refs: Seq<char>) -> bool {
    &&& entry.hash@ == commit.hash@
    &&& entry.parents@ == joined(strings_view(commit.parents@), " "@)
    &&& entry.short_hash@ == short_of(commit.hash@)
    &&& entry.refs@ == refs
    &&& entry.message@ == commit.summary@
    &&& entry.author@ == commit.author@
    &&& entry.date_timestamp == commit.time
}

/// Makes the entry of the log for a commit: the parents joined by single
/// spaces, the short hash, and the first line of the message.
pub fn make_entry(commit: &CommitInfo, refs: String) -> (entry: CommitEntry)
    ensures
        entry_of(entry, *commit, refs@),
{
    let hash_chars = chars_of(commit.hash.as_str());
    let short_len: usize = if hash_chars.len() <= 7 {
        hash_chars.len()
    } else {
        7
    };
    let short_hash = string_of(&hash_chars, 0, short_len);
    assert(short_hash@ =~= short_of(commit.hash@));
    CommitEntry {
        hash: commit.hash.clone(),
        parents: join(&commit.parents, " "),
        short_hash,
        refs,
        message: commit.summary.clone(),
        author: commit.author.clone(),
        date_timestamp: commit.time,
    }
}

/// The window of a page of the log: so many commits are passed over, then
/// commits are taken until the page holds the number asked for.
pub struct LogWindow {
    pub skip: usize,
    pub limit: usize,
    /// How many commits were passed over so far.
    pub skipped: usize,
    pub results: Vec<CommitEntry>,
}

impl LogWindow {
    /// A window that has seen nothing yet.
    pub fn new(skip: usize, limit: usize) -> (window: Self)
        ensures
            window.skip == skip,
            window.limit == limit,
            window.skipped == 0,
            window.results@ == Seq::<CommitEntry>::empty(),
    {
        LogWindow { skip, limit, skipped: 0, results: Vec::new() }
    }

    /// Whether the next commit will be passed over.
    pub fn is_skipping(&self) -> (skipping: bool)
        ensures
            skipping == (self.skipped < self.skip),
    {
        self.skipped < self.skip
    }

    /// Passes over a commit that the filter let through.
    pub fn pass_over(&mut self)
        requires
            old(self).skipped < old(self).skip,
        ensures
            final(self).skipped == old(self).skipped + 1,
            final(self).skip == old(self).skip,
            final(self).limit == old(self).limit,
            final(self).results == old(self).results,
    {
        self.skipped += 1;
    }

    /// Takes an entry into the page and tells whether the page is full, so
    /// that the walk can stop.
    pub fn take(&mut self, entry: CommitEntry) -> (full: bool)
        ensures
            final(self).results@ == old(self).results@.push(entry),
            final(self).skip == old(self).skip,
            final(self).limit == old(self).limit,
            final(self).skipped == old(self).skipped,
            full == (final(self).results@.len() >= old(self).limit),
    {
        self.results.push(entry);
        self.results.len() >= self.limit
    }
}

/// The HEAD of a repository, where it points at the commit in question.
#[derive(Clone, Debug)]
pub struct HeadRef {
    /// Whether HEAD stands on a branch.
    pub is_branch: bool,
    /// The short name of what HEAD stands on.
    pub shorthand: Option<String>,
}

/// How HEAD is named in a decoration.
pub open spec fn head_label(head: HeadRef) -> Seq<char> {
    match head.shorthand {
        Some(name) => if head.is_branch {
            "HEAD -> "@ + name@
        } else {
            "HEAD"@
        },
        None => "HEAD"@,
    }
}

/// Whether one of the labels holds the name.
pub open spec fn any_holds(labels: Seq<Seq<char>>, name: Seq<char>) -> bool {
    exists|i: int| 0 <= i < labels.len() && contains_seq(#[trigger] labels[i], name)
}

/// The labels with those of the first `upto` branches added: a branch is
/// added unless a label already there holds its name.
pub open spec fn with_branches(labels: Seq<Seq<char>>, branches: Seq<Seq<char>>, upto: int) -> Seq<
    Seq<char>,
>
    decreases upto,
{
    if upto <= 0 {
        labels
    } else {
        let before = with_branches(labels, branches, upto - 1);
        if any_holds(before, branches[upto - 1]) {
            before
        } else {
            before.push(branches[upto - 1])
        }
    }
}

/// The labels with those of the first `upto` tags added.
pub open spec fn with_tags(labels: Seq<Seq<char>>, tags: Seq<Seq<char>>, upto: int) -> Seq<Seq<char>>
    decreases upto,
{
    if upto <= 0 {
        labels
    } else {
        with_tags(labels, tags, upto - 1).push("tag: "@ + tags[upto - 1])
    }
}

/// The labels of a commit: HEAD where it points at the commit, then the
/// branches, then the tags.
pub open spec fn ref_labels(head: Option<HeadRef>, branches: Seq<Seq<char>>, tags: Seq<Seq<char>>) -> Seq<
    Seq<char>,
> {
    let first = match head {
        Some(h) => seq![head_label(h)],
        None => Seq::empty(),
    };
    with_tags(with_branches(first, branches, branches.len() as int), tags, tags.len() as int)
}

/// The decoration of a commit: nothing where no ref points at it, else
/// its labels in brackets after a space, with a comma and a space between
/// them.
pub open spec fn decoration(labels: Seq<Seq<char>>) -> Seq<char> {
    if labels.len() == 0 {
        Seq::empty()
    } else {
        " ("@ + joined(labels, ", "@) + ")"@
    }
}

fn any_label_holds(labels: &Vec<String>, name: &Vec<char>) -> (found: bool)
    ensures
        found == any_holds(strings_view(labels@), name@),
{
    let mut i: usize = 0;
    while i < labels.len()
        invariant
            i <= labels@.len(),
            forall|j: int| 0 <= j < i ==> !contains_seq(#[trigger] strings_view(labels@)[j], name@),
        decreases labels@.len() - i,
    {
        let label = chars_of(labels[i].as_str());
        assert(strings_view(labels@)[i as int] == label@);
        if contains_chars(&label, name) {
            return true;
        }
        i += 1;
    }
    false
}

/// Builds the decoration of a commit from the refs that point at it.
///
/// `head` is HEAD where it points at the commit; `branches` and `tags`
/// are the names of the branches and tags that do. A branch that a label
/// already names (as `HEAD -> name` does) is not named again.
pub fn build_ref_decoration(head: Option<&HeadRef>, branches: &Vec<String>, tags: &Vec<String>) -> (text:
    String)
    ensures
        text@ == decoration(
            ref_labels(
                match head {
                    Some(h) => Some(*h),
                    None => None,
                },
                strings_view(branches@),
                strings_view(tags@),
            ),
        ),
{
    let ghost head_value: Option<HeadRef> = match head {
        Some(h) => Some(*h),
        None => None,
    };
    let ghost first: Seq<Seq<char>> = match head_value {
        Some(h) => seq![head_label(h)],
        None => Seq::empty(),
    };
    let mut labels: Vec<String> = Vec::new();
    match head {
        Some(h) => {
            let label = match &h.shorthand {
                Some(name) => if h.is_branch {
                    let mut label = String::from_str("HEAD -> ");
                    label.append(name.as_str());
                    label
                } else {
                    String::from_str("HEAD")
                },
                None => String::from_str("HEAD"),
            };
            labels.push(label);
        },
        None => {},
    }
    assert(strings_view(labels@) =~= first);
    let ghost branch_names = strings_view(branches@);
    let mut b: usize = 0;
    while b < branches.len()
        invariant
            b <= branches@.len(),
            branch_names == strings_view(branches@),
            strings_view(labels@) == with_branches(first, branch_names, b as int),
        decreases branches@.len() - b,
    {
        let name = chars_of(branches[b].as_str());
        assert(branch_names[b as int] == name@);
        if !any_label_holds(&labels, &name) {
            let ghost before = strings_view(labels@);
            labels.push(branches[b].clone());
            assert(strings_view(labels@) =~= before.push(name@));
        }
        b += 1;
    }
    let ghost with_b = strings_view(labels@);
    let ghost tag_names = strings_view(tags@);
    let mut t: usize = 0;
    while t < tags.len()
        invariant
            t <= tags@.len(),
            tag_names == strings_view(tags@),
            strings_view(labels@) == with_tags(with_b, tag_names, t as int),
        decreases tags@.len() - t,
    {
        let ghost before = strings_view(labels@);
        let mut label = String::from_str("tag: ");
        label.append(tags[t].as_str());
        assert(tag_names[t as int] == tags@[t as int]@);
        labels.push(label);
        assert(strings_view(labels@) =~= before.push("tag: "@ + tag_names[t as int]));
        t += 1;
    }
    if labels.len() == 0 {
        String::new()
    } else {
        let mut text = String::from_str(" (");
        let inner = join(&labels, ", ");
        text.append(inner.as_str());
        text.append(")");
        text
    }
}

/// `s` without every `prefix` that it begins with, one after the other.
pub open spec fn strip_leading(s: Seq<char>, prefix: Seq<char>, from: int) -> int
    decreases s.len() - from,
{
    if prefix.len() > 0 && 0 <= from && occurs_at(s, prefix, from) {
        strip_leading(s, prefix, from + prefix.len())
    } else {
        from
    }
}

/// What is known of the refs of a repository when its default branch is
/// looked for.
#[derive(Clone, Debug)]
pub struct BranchFacts {
    /// Whether `refs/remotes/origin/HEAD` exists.
    pub origin_head_found: bool,
    /// The short name of what it resolves to.
    pub origin_head_shorthand: Option<String>,
    /// The ref that it names, where it is symbolic.
    pub origin_head_target: Option<String>,
    pub has_origin_master: bool,
    pub has_origin_main: bool,
    pub has_master: bool,
    pub has_main: bool,
}

/// The default branch: what the remote's HEAD resolves to; failing that
/// the ref it names, without `refs/remotes/` in front; failing that the
/// first that exists of `origin/master`, `origin/main`, `master` and
/// `main`; and `HEAD` where none does.
pub open spec fn default_branch(facts: BranchFacts) -> Seq<char> {
    if facts.origin_head_found && facts.origin_head_shorthand is Some {
        facts.origin_head_shorthand->0@
    } else if facts.origin_head_found && facts.origin_head_target is Some && starts_with_seq(
        facts.origin_head_target->0@,
        "refs/remotes/"@,
    ) {
        let target = facts.origin_head_target->0@;
        target.skip(strip_leading(target, "refs/remotes/"@, 0))
    } else if facts.has_origin_master {
        "origin/master"@
    } else if facts.has_origin_main {
        "origin/main"@
    } else if facts.has_master {
        "master"@
    } else if facts.has_main {
        "main"@
    } else {
        "HEAD"@
    }
}

/// Chooses the default branch of a repository.
pub fn detect_default_branch(facts: &BranchFacts) -> (name: String)
    ensures
        name@ == default_branch(*facts),
{
    if facts.origin_head_found {
        match &facts.origin_head_shorthand {
            Some(name) => {
                return name.clone();
            },
            None => {},
        }
        match &facts.origin_head_target {
            Some(target) => {
                let chars = chars_of(target.as_str());
                let prefix = chars_of("refs/remotes/");
                if occurs_at_chars(&chars, &prefix, 0) {
                    proof {
                        reveal_strlit("refs/remotes/");
                    }
                    let total: usize = chars.len();
                    let mut from: usize = 0;
                    while occurs_at_chars(&chars, &prefix, from)
                        invariant
                            from <= chars@.len(),
                            total == chars@.len(),
                            prefix@.len() == 13,
                            strip_leading(chars@, prefix@, 0) == strip_leading(
                                chars@,
                                prefix@,
                                from as int,
                            ),
                        decreases chars@.len() - from,
                    {
                        from += prefix.len();
                    }
                    assert(chars@.skip(from as int) =~= chars@.subrange(
                        from as int,
                        chars@.len() as int,
                    ));
                    return string_of(&chars, from, chars.len());
                }
            },
            None => {},
        }
    }
    if facts.has_origin_master {
        String::from_str("origin/master")
    } else if facts.has_origin_main {
        String::from_str("origin/main")
    } else if facts.has_master {
        String::from_str("master")
    } else if facts.has_main {
        String::from_str("main")
    } else {
        String::from_str("HEAD")
    }
}

/// The keys by which names are ordered: the names themselves.
pub open spec fn name_keys(names: Seq<Seq<char>>) -> Seq<SortKey> {
    Seq::new(names.len(), |i: int| (false, names[i]))
}

/// The names in ascending order.
pub open spec fn names_in_order(names: Seq<Seq<char>>) -> Seq<Seq<char>> {
    let order = sorted_order(name_keys(names), names.len() as int);
    Seq::new(names.len(), |k: int| names[order[k] as int])
}

/// Puts names in ascending order, as a list of branches is shown.
pub fn sort_names(names: &Vec<String>) -> (sorted: Vec<String>)
    ensures
        strings_view(sorted@) == names_in_order(strings_view(names@)),
{
    let ghost all = strings_view(names@);
    let mut keys: Vec<(bool, Vec<char>)> = Vec::new();
    let mut i: usize = 0;
    while i < names.len()
        invariant
            i <= names@.len(),
            all == strings_view(names@),
            keys@.len() == i,
            forall|j: int| 0 <= j < i ==> ((#[trigger] keys@[j]).0, keys@[j].1@) == (false, all[j]),
        decreases names@.len() - i,
    {
        assert(all[i as int] == names@[i as int]@);
        keys.push((false, chars_of(names[i].as_str())));
        i += 1;
    }
    assert(keys_view(keys@) =~= name_keys(all));
    let order = sort_order(&keys);
    let mut sorted: Vec<String> = Vec::new();
    let mut k: usize = 0;
    while k < order.len()
        invariant
            k <= order@.len(),
            all == strings_view(names@),
            order@.len() == names@.len(),
            order@ == sorted_order(name_keys(all), all.len() as int),
            forall|j: int| 0 <= j < order@.len() ==> (#[trigger] order@[j]) < names@.len(),
            sorted@.len() == k,
            forall|j: int| 0 <= j < k ==> (#[trigger] sorted@[j])@ == all[order@[j] as int],
        decreases order@.len() - k,
    {
        let at: usize = order[k];
        assert(all[at as int] == names@[at as int]@);
        sorted.push(names[at].clone());
        k += 1;
    }
    assert(strings_view(sorted@) =~= names_in_order(all));
    sorted
}

/// The names without those that repeat the name before them.
pub open spec fn without_repeats(names: Seq<Seq<char>>) -> Seq<Seq<char>>
    decreases names.len(),
{
    if names.len() == 0 {
        Seq::empty()
    } else {
        let before = without_repeats(names.drop_last());
        if names.len() >= 2 && names[names.len() - 2] == names.last() {
            before
        } else {
            before.push(names.last())
        }
    }
}

/// Lists every author once, in ascending order.
pub fn unique_sorted(names: &Vec<String>) -> (authors: Vec<String>)
    ensures
        strings_view(authors@) == without_repeats(names_in_order(strings_view(names@))),
{
    let sorted = sort_names(names);
    let ghost all = strings_view(sorted@);
    let mut authors: Vec<String> = Vec::new();
    let mut i: usize = 0;
    assert(all.take(0) =~= Seq::empty());
    while i < sorted.len()
        invariant
            i <= sorted@.len(),
            all == strings_view(sorted@),
            strings_view(authors@) == without_repeats(all.take(i as int)),
        decreases sorted@.len() - i,
    {
        let ghost done = strings_view(authors@);
        proof {
            let next = all.take(i + 1);
            assert(next.drop_last() =~= all.take(i as int));
            assert(next.last() == sorted@[i as int]@);
            if i > 0 {
                assert(next[next.len() - 2] == sorted@[i - 1]@);
            }
        }
        if i == 0 || sorted[i - 1] != sorted[i] {
            authors.push(sorted[i].clone());
            assert(strings_view(authors@) =~= done.push(sorted@[i as int]@));
        }
        i += 1;
    }
    assert(all.take(sorted@.len() as int) =~= all);
    authors
}

/// Whether every part is a word: not empty, and without a space.
pub open spec fn all_words(parts: Seq<Seq<char>>) -> bool {
    forall|i: int| 0 <= i < parts.len() ==> (#[trigger] parts[i]).len() > 0 && !parts[i].contains(' ')
}

/// The parents field of an entry of the log names the parents of the
/// commit again: where no hash is empty or holds a space, splitting the
/// hashes joined by single spaces gives the hashes back.
pub proof fn lemma_parents_round_trip(parents: Seq<Seq<char>>)
    requires
        all_words(parents),
    ensures
        crate::git_graph::parent_hashes(joined(parents, " "@)) == parents,
{
    reveal_strlit(" ");
    assert(" "@ =~= seq![' ']);
    if parents.len() == 0 {
    } else {
        lemma_joined_split(parents);
        assert(parents[0].len() > 0);
        lemma_joined_len(parents);
    }
}

proof fn lemma_joined_len(parts: Seq<Seq<char>>)
    requires
        parts.len() >= 1,
        all_words(parts),
    ensures
        joined(parts, seq![' ']).len() > 0,
    decreases parts.len(),
{
    if parts.len() == 1 {
        assert(parts[0].len() > 0);
    } else {
        assert(parts.last() == parts[parts.len() - 1]);
    }
}

proof fn lemma_joined_split(parts: Seq<Seq<char>>)
    requires
        parts.len() >= 1,
        all_words(parts),
    ensures
        crate::text::split_on(joined(parts, seq![' ']), ' ') == parts,
    decreases parts.len(),
{
    let sep = seq![' '];
    if parts.len() == 1 {
        let word = parts[0];
        crate::text::lemma_split_append_plain(Seq::empty(), word, ' ');
        assert(Seq::<char>::empty() + word =~= word);
        assert(crate::text::split_on(Seq::empty(), ' ') =~= seq![Seq::<char>::empty()]);
        assert(Seq::<char>::empty() + word =~= word);
        assert(seq![Seq::<char>::empty()].update(0, Seq::<char>::empty() + word) =~= seq![word]);
        assert(joined(parts, sep) == word);
        assert(seq![word] =~= parts);
    } else {
        let init = parts.drop_last();
        let last = parts.last();
        assert(last == parts[parts.len() - 1]);
        assert(all_words(init)) by {
            assert forall|i: int| 0 <= i < init.len() implies (#[trigger] init[i]).len() > 0
                && !init[i].contains(' ') by {
                assert(init[i] == parts[i]);
            }
        }
        lemma_joined_split(init);
        let head = joined(init, sep);
        assert(head + sep =~= head.push(' '));
        crate::text::lemma_split_append_sep(head, ' ');
        crate::text::lemma_split_append_plain(head.push(' '), last, ' ');
        let mid = crate::text::split_on(head.push(' '), ' ');
        assert(mid == init.push(Seq::<char>::empty()));
        assert(mid.last() + last =~= last);
        assert(mid.update(mid.len() - 1, last) =~= parts);
        assert(joined(parts, sep) =~= head.push(' ') + last);
    }
}

} // verus!
