use vstd::prelude::*;
use vstd::string::*;
use vstd::utf8::encode_utf8;
use std::collections::HashMap;
use crate::site_blocker::{contains_string, views};
use crate::text::{contains_text, ends_with_text, has_infix, has_prefix, has_suffix, lowered, lowercase, starts_with_text};

verus! {

broadcast use vstd::std_specs::hash::group_hash_axioms;

/// Seconds between two scans of the process table.
pub const POLL_INTERVAL_SECS: u64 = 3;
/// Kill attempts per process before it is left alone.
pub const MAX_KILL_ATTEMPTS: u32 = 3;

/// Number of protected name prefixes.
pub const PROTECTED_COUNT: usize = 9;

/// The protected name prefixes: system processes and this application itself.
pub open spec fn protected_prefix(k: int) -> Seq<char> {
    if k == 0 {
        "com.apple."@
    } else if k == 1 {
        "kernel"@
    } else if k == 2 {
        "launchd"@
    } else if k == 3 {
        "systemd"@
    } else if k == 4 {
        "pomodoro-focus"@
    } else if k == 5 {
        "pomodoro_focus"@
    } else if k == 6 {
        "finder"@
    } else if k == 7 {
        "windowserver"@
    } else {
        "activitymonitor"@
    }
}

fn protected_prefix_at(k: usize) -> (r: &'static str)
    requires
        k < PROTECTED_COUNT,
    ensures
        r@ == protected_prefix(k as int),
{
    if k == 0 {
        "com.apple."
    } else if k == 1 {
        "kernel"
    } else if k == 2 {
        "launchd"
    } else if k == 3 {
        "systemd"
    } else if k == 4 {
        "pomodoro-focus"
    } else if k == 5 {
        "pomodoro_focus"
    } else if k == 6 {
        "finder"
    } else if k == 7 {
        "windowserver"
    } else {
        "activitymonitor"
    }
}

/// Number of helper-process words.
pub const HELPER_SUFFIX_COUNT: usize = 5;

/// Words that end the names of helper, renderer, GPU, utility and plugin child
/// processes, whether or not a space, underscore or hyphen comes before them.
pub open spec fn helper_suffix(k: int) -> Seq<char> {
    if k == 0 {
        "helper"@
    } else if k == 1 {
        "renderer"@
    } else if k == 2 {
        "gpu"@
    } else if k == 3 {
        "utility"@
    } else {
        "plugin"@
    }
}

fn helper_suffix_at(k: usize) -> (r: &'static str)
    requires
        k < HELPER_SUFFIX_COUNT,
    ensures
        r@ == helper_suffix(k as int),
{
    if k == 0 {
        "helper"
    } else if k == 1 {
        "renderer"
    } else if k == 2 {
        "gpu"
    } else if k == 3 {
        "utility"
    } else {
        "plugin"
    }
}

/// A process name is protected when, lowered, it begins with a protected prefix.
pub open spec fn is_protected_name(name: Seq<char>) -> bool {
    exists|k: int| 0 <= k < PROTECTED_COUNT && has_prefix(lowered(name), #[trigger] protected_prefix(k))
}

/// `name` ends with a helper-process word, separated or not (`qqmusichelper`,
/// `qq helper` and `qq-helper` all count).
pub open spec fn is_helper_name(name: Seq<char>) -> bool {
    exists|k: int| 0 <= k < HELPER_SUFFIX_COUNT && has_suffix(name, #[trigger] helper_suffix(k))
}

/// A (lowercase) process name matches an entry's candidate names when it is not a
/// helper process and it equals a candidate or contains one of at least three bytes
/// (the length that `str::len` reports).
pub open spec fn matches_candidates(name: Seq<char>, cands: Seq<Seq<char>>) -> bool {
    &&& !is_helper_name(name)
    &&& (cands.contains(name) || exists|k: int|
        0 <= k < cands.len() && encode_utf8(#[trigger] cands[k]).len() as usize >= 3 && has_infix(name, cands[k]))
}

/// The blocklist entries (by index below `k`) that process `i` is acted on for: none if
/// it is protected, else those whose candidate names it matches, in order.
pub open spec fn entry_hits(names: Seq<Seq<char>>, entries: Seq<Seq<Seq<char>>>, i: int, k: int) -> Seq<(usize, usize)>
    decreases k,
{
    if k <= 0 {
        Seq::empty()
    } else {
        let prev = entry_hits(names, entries, i, k - 1);
        if !is_protected_name(names[i]) && matches_candidates(names[i], entries[k - 1]) {
            prev.push((i as usize, (k - 1) as usize))
        } else {
            prev
        }
    }
}

/// The (process, entry) pairs acted on for the processes below `i`, in scan order.
pub open spec fn scan_hits(names: Seq<Seq<char>>, entries: Seq<Seq<Seq<char>>>, i: int) -> Seq<(usize, usize)>
    decreases i,
{
    if i <= 0 {
        Seq::empty()
    } else {
        scan_hits(names, entries, i - 1) + entry_hits(names, entries, i - 1, entries.len() as int)
    }
}

/// A process named `name` belongs to an application with these candidate names when
/// it contains one of them.
pub open spec fn runs_as(name: Seq<char>, cands: Seq<Seq<char>>) -> bool {
    exists|k: int| 0 <= k < cands.len() && has_infix(name, #[trigger] cands[k])
}

/// Manages the blocked-application list and the matching rules.
pub struct AppBlocker {
    blocked_apps: Vec<String>,
}

impl AppBlocker {
    /// The entries as configured.
    pub closed spec fn apps(&self) -> Seq<String> {
        self.blocked_apps@
    }

    pub fn new(blocked_apps: Vec<String>) -> (r: Self)
        ensures
            r.apps() == blocked_apps@,
    {
        AppBlocker { blocked_apps }
    }

    pub fn update_blocked_apps(&mut self, apps: Vec<String>)
        ensures
            final(self).apps() == apps@,
    {
        self.blocked_apps = apps;
    }

    pub fn get_blocked_apps(&self) -> (r: &Vec<String>)
        ensures
            r@ == self.apps(),
    {
        &self.blocked_apps
    }

    /// Whether a process is one that is never terminated, whatever the blocklist.
    pub fn is_system_protected(process_name: &str) -> (r: bool)
        ensures
            r == is_protected_name(process_name@),
    {
        let lower = lowercase(process_name);
        let mut k: usize = 0;
        while k < PROTECTED_COUNT
            invariant
                lower@ == lowered(process_name@),
                k <= PROTECTED_COUNT,
                forall|j: int| 0 <= j < k ==> !has_prefix(lowered(process_name@), #[trigger] protected_prefix(j)),
            decreases PROTECTED_COUNT - k,
        {
            if starts_with_text(lower.as_str(), protected_prefix_at(k)) {
                return true;
            }
            k = k + 1;
        }
        false
    }

    /// Whether a lowercase process name matches one entry's candidate names (see
    /// `matches_candidates`).
    pub fn is_blocked_process(process_name: &str, candidate_names: &Vec<String>) -> (r: bool)
        ensures
            r == matches_candidates(process_name@, views(candidate_names@)),
    {
        let mut k: usize = 0;
        while k < HELPER_SUFFIX_COUNT
            invariant
                k <= HELPER_SUFFIX_COUNT,
                forall|j: int| 0 <= j < k ==> !has_suffix(process_name@, #[trigger] helper_suffix(j)),
            decreases HELPER_SUFFIX_COUNT - k,
        {
            let suffix = helper_suffix_at(k);
            if ends_with_text(process_name, suffix) {
                assert(has_suffix(process_name@, helper_suffix(k as int)));
                return false;
            }
            k = k + 1;
        }
        let name = String::from_str(process_name);
        if contains_string(candidate_names, &name) {
            return true;
        }
        let mut i: usize = 0;
        while i < candidate_names.len()
            invariant
                i <= candidate_names.len(),
                forall|j: int| 0 <= j < HELPER_SUFFIX_COUNT ==> !has_suffix(process_name@, #[trigger] helper_suffix(j)),
                forall|j: int| 0 <= j < i ==> !(encode_utf8(#[trigger] views(candidate_names@)[j]).len() as usize >= 3
                    && has_infix(process_name@, views(candidate_names@)[j])),
            decreases candidate_names.len() - i,
        {
            let c = candidate_names[i].as_str();
            assert(views(candidate_names@)[i as int] == c@);
            if c.len() >= 3 && contains_text(process_name, c) {
                assert(encode_utf8(views(candidate_names@)[i as int]).len() as usize >= 3
                    && has_infix(process_name@, views(candidate_names@)[i as int]));
                return true;
            }
            i = i + 1;
        }
        false
    }

    /// The lowercase names under which an entry's processes run: the display name, and
    /// the bundle's executable name when it is known and differs.
    pub fn candidate_names(display_name: &str, executable: Option<String>) -> (r: Vec<String>)
        ensures
            views(r@) == match executable {
                Some(x) => if lowered(x@) == lowered(display_name@) {
                    seq![lowered(display_name@)]
                } else {
                    seq![lowered(display_name@), lowered(x@)]
                },
                None => seq![lowered(display_name@)],
            },
    {
        let ghost d = lowered(display_name@);
        let mut names: Vec<String> = Vec::new();
        let first = lowercase(display_name);
        names.push(first);
        assert(views(names@) =~= seq![d]);
        match executable {
            Some(x) => {
                let lx = lowercase(x.as_str());
                let ghost lxv = lx@;
                assert(views(names@)[0] == d);
                if !contains_string(&names, &lx) {
                    assert(lxv != d);
                    names.push(lx);
                    assert(views(names@) =~= seq![d, lowered(x@)]);
                } else {
                    assert(lxv == d);
                }
            },
            None => {},
        }
        names
    }
}

impl AppBlocker {
    /// The (process, entry) pairs that a scan acts on: each process that is not
    /// protected, with each entry whose candidate names it matches, in scan order.
    pub fn matching_pairs(process_names: &Vec<String>, entries: &Vec<Vec<String>>) -> (r: Vec<(usize, usize)>)
        ensures
            r@ == scan_hits(views(process_names@), entries@.map_values(|e: Vec<String>| views(e@)), process_names@.len() as int),
    {
        let ghost names = views(process_names@);
        let ghost ents = entries@.map_values(|e: Vec<String>| views(e@));
        let mut out: Vec<(usize, usize)> = Vec::new();
        let mut i: usize = 0;
        while i < process_names.len()
            invariant
                i <= process_names.len(),
                names == views(process_names@),
                ents == entries@.map_values(|e: Vec<String>| views(e@)),
                out@ == scan_hits(names, ents, i as int),
            decreases process_names.len() - i,
        {
            let name = process_names[i].as_str();
            assert(names[i as int] == name@);
            let protected = Self::is_system_protected(name);
            let ghost before = out@;
            let mut k: usize = 0;
            while k < entries.len()
                invariant
                    i < process_names.len(),
                    k <= entries.len(),
                    names == views(process_names@),
                    ents == entries@.map_values(|e: Vec<String>| views(e@)),
                    names[i as int] == name@,
                    protected == is_protected_name(name@),
                    out@ == before + entry_hits(names, ents, i as int, k as int),
                decreases entries.len() - k,
            {
                assert(ents[k as int] == views(entries@[k as int]@));
                if !protected && Self::is_blocked_process(name, &entries[k]) {
                    out.push((i, k));
                }
                assert(out@ =~= before + entry_hits(names, ents, i as int, k + 1));
                k = k + 1;
            }
            assert(out@ =~= scan_hits(names, ents, i + 1));
            i = i + 1;
        }
        out
    }

    /// Whether a process named `process_name` runs one of `candidate_names`.
    pub fn is_running_name(process_name: &str, candidate_names: &Vec<String>) -> (r: bool)
        ensures
            r == runs_as(process_name@, views(candidate_names@)),
    {
        let mut k: usize = 0;
        while k < candidate_names.len()
            invariant
                k <= candidate_names.len(),
                forall|j: int| 0 <= j < k ==> !has_infix(process_name@, #[trigger] views(candidate_names@)[j]),
            decreases candidate_names.len() - k,
        {
            assert(views(candidate_names@)[k as int] == candidate_names@[k as int]@);
            if contains_text(process_name, candidate_names[k].as_str()) {
                return true;
            }
            k = k + 1;
        }
        false
    }
}

/// Consecutive failed kill attempts per process identifier.
pub struct KillTracker {
    failures: HashMap<u32, u32>,
}

/// What a poll does with a process that matches the blocklist.
#[derive(Clone, Copy, Debug, PartialEq, Eq, Structural)]
pub enum KillVerdict {
    /// The attempt cap is reached: leave the process alone.
    GiveUp,
    /// Try to terminate it; `first_sighting` when no attempt failed yet, which is when
    /// the overlay is requested.
    Kill { first_sighting: bool },
}

impl KillTracker {
    pub closed spec fn view(&self) -> Map<u32, u32> {
        self.failures@
    }

    /// Failed attempts recorded for `pid`.
    pub open spec fn failed(&self, pid: u32) -> u32 {
        if self.view().contains_key(pid) { self.view()[pid] } else { 0 }
    }

    pub fn new() -> (r: Self)
        ensures
            r.view() == Map::<u32, u32>::empty(),
    {
        KillTracker { failures: HashMap::new() }
    }

    /// Failed attempts recorded for `pid`.
    pub fn attempts(&self, pid: u32) -> (r: u32)
        ensures
            r == self.failed(pid),
    {
        match self.failures.get(&pid) {
            Some(c) => *c,
            None => 0,
        }
    }

    /// Whether a matching process is tried again, and whether this is its first sighting.
    pub fn verdict(&self, pid: u32) -> (r: KillVerdict)
        ensures
            self.failed(pid) >= MAX_KILL_ATTEMPTS ==> r == KillVerdict::GiveUp,
            self.failed(pid) < MAX_KILL_ATTEMPTS ==> r == (KillVerdict::Kill { first_sighting: self.failed(pid) == 0 }),
    {
        let a = self.attempts(pid);
        if a >= MAX_KILL_ATTEMPTS {
            KillVerdict::GiveUp
        } else {
            KillVerdict::Kill { first_sighting: a == 0 }
        }
    }

    /// Records the result of a kill attempt: a success forgets the process, a failure
    /// counts one more. Returns whether the cap has now been reached.
    pub fn record_attempt(&mut self, pid: u32, killed: bool) -> (r: bool)
        ensures
            killed ==> final(self).view() == old(self).view().remove(pid) && !r,
            !killed ==> final(self).view() == old(self).view().insert(pid, if old(self).failed(pid) == u32::MAX {
                u32::MAX
            } else {
                (old(self).failed(pid) + 1) as u32
            }),
            !killed ==> r == (final(self).failed(pid) >= MAX_KILL_ATTEMPTS),
    {
        if killed {
            self.failures.remove(&pid);
            return false;
        }
        let a = self.attempts(pid);
        let n: u32 = if a == u32::MAX { u32::MAX } else { a + 1 };
        self.failures.insert(pid, n);
        n >= MAX_KILL_ATTEMPTS
    }

    /// Forgets every process that is not among `seen`, the identifiers present in the
    /// latest scan, so that a recycled identifier starts afresh.
    pub fn retain_seen(&mut self, seen: &Vec<u32>)
        ensures
            final(self).view() == old(self).view().restrict(seen@.to_set()),
    {
        let mut kept: HashMap<u32, u32> = HashMap::new();
        let mut i: usize = 0;
        while i < seen.len()
            invariant
                i <= seen.len(),
                kept@ == self.failures@.restrict(seen@.subrange(0, i as int).to_set()),
            decreases seen.len() - i,
        {
            let pid = seen[i];
            assert(seen@.subrange(0, i + 1).to_set() =~= seen@.subrange(0, i as int).to_set().insert(pid)) by {
                assert(seen@.subrange(0, i + 1) =~= seen@.subrange(0, i as int).push(pid));
                seen@.subrange(0, i as int).lemma_push_to_set_commute(pid);
            }
            match self.failures.get(&pid) {
                Some(c) => {
                    kept.insert(pid, *c);
                },
                None => {},
            }
            assert(kept@ =~= self.failures@.restrict(seen@.subrange(0, i + 1).to_set()));
            i = i + 1;
        }
        assert(seen@.subrange(0, seen@.len() as int) =~= seen@);
        self.failures = kept;
    }
}

/// Whether a first sighting raises the overlay: not while the overlay is suppressed.
pub fn should_show_overlay(verdict: KillVerdict, suppressed: bool) -> (r: bool)
    ensures
        r == (verdict == (KillVerdict::Kill { first_sighting: true }) && !suppressed),
{
    match verdict {
        KillVerdict::Kill { first_sighting } => first_sighting && !suppressed,
        KillVerdict::GiveUp => false,
    }
}

impl Default for AppBlocker {
    fn default() -> (r: Self)
        ensures
            r.apps().len() == 0,
    {
        Self::new(Vec::new())
    }
}

proof fn lemma_entry_hits_unprotected(names: Seq<Seq<char>>, entries: Seq<Seq<Seq<char>>>, i: int, k: int)
    requires
        0 <= i <= usize::MAX,
    ensures
        forall|j: int| 0 <= j < entry_hits(names, entries, i, k).len() ==> {
            &&& (#[trigger] entry_hits(names, entries, i, k)[j]).0 == i
            &&& !is_protected_name(names[i])
        },
    decreases k,
{
    if k > 0 {
        lemma_entry_hits_unprotected(names, entries, i, k - 1);
        let prev = entry_hits(names, entries, i, k - 1);
        if !is_protected_name(names[i]) && matches_candidates(names[i], entries[k - 1]) {
            assert forall|j: int| 0 <= j < prev.push((i as usize, (k - 1) as usize)).len() implies
                (#[trigger] prev.push((i as usize, (k - 1) as usize))[j]).0 == i by {
                if j < prev.len() {
                    assert(prev.push((i as usize, (k - 1) as usize))[j] == prev[j]);
                }
            }
        }
    }
}

/// A protected process is never acted on, whatever the blocklist: no pair of a scan
/// names it.
pub proof fn lemma_protected_never_hit(names: Seq<Seq<char>>, entries: Seq<Seq<Seq<char>>>, n: int)
    requires
        0 <= n <= names.len(),
        names.len() <= usize::MAX,
    ensures
        forall|j: int| 0 <= j < scan_hits(names, entries, n).len() ==>
            !is_protected_name(names[(#[trigger] scan_hits(names, entries, n)[j]).0 as int]),
    decreases n,
{
    if n > 0 {
        lemma_protected_never_hit(names, entries, n - 1);
        lemma_entry_hits_unprotected(names, entries, n - 1, entries.len() as int);
        let a = scan_hits(names, entries, n - 1);
        let b = entry_hits(names, entries, n - 1, entries.len() as int);
        assert forall|j: int| 0 <= j < (a + b).len() implies !is_protected_name(names[(#[trigger] (a + b)[j]).0 as int]) by {
            if j < a.len() {
                assert((a + b)[j] == a[j]);
            } else {
                assert((a + b)[j] == b[j - a.len()]);
            }
        }
    }
}

/// The Finder's process name is protected.
pub proof fn lemma_finder_is_protected()
    ensures
        is_protected_name("com.apple.Finder"@),
{
    reveal_strlit("com.apple.Finder");
    reveal_strlit("com.apple.");
    let s = "com.apple.Finder"@;
    assert(crate::text::all_ascii(s));
    let l = crate::text::ascii_lower(s);
    assert(l.subrange(0, 10) =~= "com.apple."@);
    assert(has_prefix(crate::text::lowered(s), protected_prefix(0)));
}

} // verus!
