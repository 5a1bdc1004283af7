use vstd::prelude::*;
use vstd::string::*;
use crate::errors::AppError;
use crate::text::{
    all_ascii, ascii_char, ascii_lower, back_white, skip_white, white_space, char_len, contains_text, find_from, has_infix, has_prefix, lowered, lowercase, next_index,
    slice_text, starts_with_text, trim_text, trimmed,
};

verus! {

/// The system hostname-override file.
pub const HOSTS_PATH: &'static str = "/etc/hosts";
/// First line of the managed block section.
pub const BLOCK_MARKER_START: &'static str = "# === POMODORO FOCUS BLOCK START ===";
/// Last line of the managed block section.
pub const BLOCK_MARKER_END: &'static str = "# === POMODORO FOCUS BLOCK END ===";
/// Packet-filter anchor holding the block rules.
pub const PF_ANCHOR_NAME: &'static str = "pomodoro-focus";
/// Staging file of the packet-filter rules.
pub const PF_RULES_PATH: &'static str = "/tmp/pomodoro_pf_rules.conf";
/// Staging file of the new hosts file while blocking.
pub const HOSTS_STAGING_PATH: &'static str = "/tmp/pomodoro_hosts_temp";
/// Staging file of the cleaned hosts file while unblocking.
pub const HOSTS_CLEAN_PATH: &'static str = "/tmp/pomodoro_hosts_clean";
/// The privileged batch run once per block: install the hosts file and the rules,
/// enable the filter, flush the name cache, and relax the hosts file's permissions so
/// that unblocking needs no privilege.
pub const BLOCK_SHELL_COMMAND: &'static str = "cp /tmp/pomodoro_hosts_temp /etc/hosts && pfctl -a pomodoro-focus -f /tmp/pomodoro_pf_rules.conf 2>/dev/null || true && pfctl -e 2>/dev/null || true && dscacheutil -flushcache && killall -HUP mDNSResponder && chmod 646 /etc/hosts";
/// The same batch as an AppleScript that asks for administrator rights once.
pub const BLOCK_APPLESCRIPT: &'static str = "do shell script \"cp /tmp/pomodoro_hosts_temp /etc/hosts && pfctl -a pomodoro-focus -f /tmp/pomodoro_pf_rules.conf 2>/dev/null || true && pfctl -e 2>/dev/null || true && dscacheutil -flushcache && killall -HUP mDNSResponder && chmod 646 /etc/hosts\" with administrator privileges";

/// The views of a list of strings.
pub open spec fn views(v: Seq<String>) -> Seq<Seq<char>> {
    v.map_values(|x: String| x@)
}

/// `s` without a leading `https://` or `http://`.
pub open spec fn without_scheme(s: Seq<char>) -> Seq<char> {
    if has_prefix(s, "https://"@) {
        s.subrange("https://"@.len() as int, s.len() as int)
    } else if has_prefix(s, "http://"@) {
        s.subrange("http://"@.len() as int, s.len() as int)
    } else {
        s
    }
}

/// The part of `s` before its first `/`.
pub open spec fn host_part(s: Seq<char>) -> Seq<char> {
    s.subrange(0, next_index(s, 0, '/'))
}

/// The bare lowercase domain of a user entry: trimmed, scheme and path removed, and the
/// remaining host trimmed again.
pub open spec fn clean_domain_of(site: Seq<char>) -> Seq<char> {
    lowered(trimmed(host_part(without_scheme(trimmed(site)))))
}

/// The `www.` counterpart of a domain: the prefix removed if present, added otherwise.
pub open spec fn www_sibling(d: Seq<char>) -> Seq<char> {
    if has_prefix(d, "www."@) {
        d.subrange("www."@.len() as int, d.len() as int)
    } else {
        "www."@ + d
    }
}

/// The domains blocked for a list of entries: each non-empty cleaned entry and its
/// `www.` counterpart, each domain listed once, in order of first mention.
pub open spec fn expanded_domains(sites: Seq<Seq<char>>) -> Seq<Seq<char>>
    decreases sites.len(),
{
    if sites.len() == 0 {
        Seq::empty()
    } else {
        let prev = expanded_domains(sites.drop_last());
        let c = clean_domain_of(sites.last());
        let with_c = if prev.contains(c) { prev } else { prev.push(c) };
        if c.len() == 0 {
            prev
        } else if with_c.contains(www_sibling(c)) {
            with_c
        } else {
            with_c.push(www_sibling(c))
        }
    }
}

/// The cleaned non-empty entries, in order: the names whose addresses are looked up.
pub open spec fn lookup_domains(sites: Seq<Seq<char>>) -> Seq<Seq<char>>
    decreases sites.len(),
{
    if sites.len() == 0 {
        Seq::empty()
    } else {
        let prev = lookup_domains(sites.drop_last());
        let c = clean_domain_of(sites.last());
        if c.len() == 0 { prev } else { prev.push(c) }
    }
}

/// The hosts lines that block one domain.
pub open spec fn domain_lines(d: Seq<char>) -> Seq<char> {
    "0.0.0.0 "@ + d + "\n"@ + "127.0.0.1 "@ + d + "\n"@
}

/// The hosts lines that block every domain of `ds`, in order.
pub open spec fn all_domain_lines(ds: Seq<Seq<char>>) -> Seq<char>
    decreases ds.len(),
{
    if ds.len() == 0 {
        Seq::empty()
    } else {
        all_domain_lines(ds.drop_last()) + domain_lines(ds.last())
    }
}

/// A managed section with the lines `body`, appended to `base` after a line break.
pub open spec fn with_section(base: Seq<char>, body: Seq<char>) -> Seq<char> {
    base + "\n"@ + BLOCK_MARKER_START@ + "\n"@ + body + BLOCK_MARKER_END@ + "\n"@
}

/// A managed block section for `ds`, appended to `base` after a line break.
pub open spec fn with_block_section(base: Seq<char>, ds: Seq<Seq<char>>) -> Seq<char> {
    with_section(base, all_domain_lines(ds))
}

/// One packet-filter rule.
pub open spec fn pf_rule(ip: Seq<char>) -> Seq<char> {
    "block drop out proto tcp from any to "@ + ip + " port {80, 443}\n"@
}

pub open spec fn pf_rules_of(ips: Seq<Seq<char>>) -> Seq<char>
    decreases ips.len(),
{
    if ips.len() == 0 {
        "# Pomodoro Focus - Site Blocking Rules\n"@
    } else {
        pf_rules_of(ips.drop_last()) + pf_rule(ips.last())
    }
}

/// Whether `v` holds a string equal to `s`.
pub fn contains_string(v: &Vec<String>, s: &String) -> (r: bool)
    ensures
        r == views(v@).contains(s@),
{
    let mut i: usize = 0;
    while i < v.len()
        invariant
            i <= v.len(),
            forall|k: int| 0 <= k < i ==> v@[k]@ != s@,
        decreases v.len() - i,
    {
        if v[i] == *s {
            assert(views(v@)[i as int] == s@);
            return true;
        }
        i = i + 1;
    }
    assert(!views(v@).contains(s@)) by {
        if views(v@).contains(s@) {
            let k = choose|k: int| 0 <= k < views(v@).len() && views(v@)[k] == s@;
            assert(v@[k]@ == s@);
        }
    }
    false
}

/// Index of the line feed that ends the line starting at `i` (`s.len()` for the last line).
pub open spec fn line_end(s: Seq<char>, i: int) -> int {
    next_index(s, i, '\n')
}

/// The line of `s` that starts at `i`, without its line feed and final carriage return.
pub open spec fn line_at(s: Seq<char>, i: int) -> Seq<char> {
    let l = s.subrange(i, line_end(s, i));
    if l.len() > 0 && l.last() == '\r' { l.drop_last() } else { l }
}

/// What removing the managed section keeps of `s` from the line starting at `i` on:
/// lines holding a marker and the lines between a start and an end marker are dropped,
/// the others are joined by line feeds. `in_block` tells whether a section is open,
/// `started` whether a line was kept already.
pub open spec fn kept_from(s: Seq<char>, i: int, in_block: bool, started: bool) -> Seq<char>
    decreases s.len() - i,
{
    if i < 0 || i >= s.len() {
        Seq::empty()
    } else {
        let l = line_at(s, i);
        let e = next_index(s, i, '\n');
        let n = if i <= e < s.len() { e + 1 } else { s.len() as int };
        if has_infix(l, BLOCK_MARKER_START@) {
            kept_from(s, n, true, started)
        } else if has_infix(l, BLOCK_MARKER_END@) {
            kept_from(s, n, false, started)
        } else if in_block {
            kept_from(s, n, true, started)
        } else {
            (if started { "\n"@ + l } else { l }) + kept_from(s, n, false, true)
        }
    }
}

/// `s` with its managed block section removed.
pub open spec fn without_block_section(s: Seq<char>) -> Seq<char> {
    kept_from(s, 0, false, false)
}

proof fn lemma_push_no_dup<A>(s: Seq<A>, a: A)
    requires
        s.no_duplicates(),
        !s.contains(a),
    ensures
        s.push(a).no_duplicates(),
{
    assert forall|i: int, j: int| 0 <= i < j < s.push(a).len() implies s.push(a)[i] != s.push(a)[j] by {
        if j == s.len() {
            assert(s.push(a)[i] == s[i]);
        } else {
            assert(s.push(a)[i] == s[i] && s.push(a)[j] == s[j]);
        }
    }
}

proof fn lemma_push_contains<A>(s: Seq<A>, a: A)
    ensures
        forall|x: A| #[trigger] s.push(a).contains(x) <==> (s.contains(x) || x == a),
{
    assert forall|x: A| #[trigger] s.push(a).contains(x) <==> (s.contains(x) || x == a) by {
        if s.contains(x) {
            let k = choose|k: int| 0 <= k < s.len() && s[k] == x;
            assert(s.push(a)[k] == x);
        }
        if x == a {
            assert(s.push(a)[s.len() as int] == x);
        }
        if s.push(a).contains(x) && x != a {
            let k = choose|k: int| 0 <= k < s.push(a).len() && s.push(a)[k] == x;
            assert(s[k] == x);
        }
    }
}

/// Manages the blocked-site list and computes what blocking writes.
pub struct SiteBlocker {
    blocked_sites: Vec<String>,
}

impl SiteBlocker {
    /// The entries as configured.
    pub closed spec fn sites(&self) -> Seq<String> {
        self.blocked_sites@
    }

    pub fn new(blocked_sites: Vec<String>) -> (r: Self)
        ensures
            r.sites() == blocked_sites@,
    {
        SiteBlocker { blocked_sites }
    }

    pub fn update_blocked_sites(&mut self, sites: Vec<String>)
        ensures
            final(self).sites() == sites@,
    {
        self.blocked_sites = sites;
    }

    pub fn get_blocked_sites(&self) -> (r: &Vec<String>)
        ensures
            r@ == self.sites(),
    {
        &self.blocked_sites
    }

    /// The bare lowercase domain of an entry: surrounding white space, a leading
    /// `https://` or `http://`, and everything from the first `/` on are removed.
    pub fn clean_domain(site: &str) -> (r: String)
        ensures
            r@ == clean_domain_of(site@),
    {
        let t = trim_text(site);
        let n = char_len(t.as_str());
        let no_scheme = if starts_with_text(t.as_str(), "https://") {
            slice_text(t.as_str(), char_len("https://"), n)
        } else if starts_with_text(t.as_str(), "http://") {
            slice_text(t.as_str(), char_len("http://"), n)
        } else {
            t
        };
        proof {
            crate::text::lemma_next_index(no_scheme@, 0, '/');
        }
        let cut = find_from(no_scheme.as_str(), 0, '/');
        let host = slice_text(no_scheme.as_str(), 0, cut);
        let bare = trim_text(host.as_str());
        lowercase(bare.as_str())
    }

    /// The `www.` counterpart of a domain.
    pub fn www_variant(d: &str) -> (r: String)
        ensures
            r@ == www_sibling(d@),
    {
        if starts_with_text(d, "www.") {
            slice_text(d, char_len("www."), char_len(d))
        } else {
            String::from_str("www.").concat(d)
        }
    }

    /// The domains to block for `sites` (see `expanded_domains`), and the cleaned entries
    /// whose addresses are to be looked up.
    pub fn target_domains(sites: &Vec<String>) -> (r: (Vec<String>, Vec<String>))
        ensures
            views(r.0@) == expanded_domains(views(sites@)),
            views(r.0@).no_duplicates(),
            views(r.1@) == lookup_domains(views(sites@)),
    {
        let mut domains: Vec<String> = Vec::new();
        let mut lookups: Vec<String> = Vec::new();
        let mut i: usize = 0;
        while i < sites.len()
            invariant
                i <= sites.len(),
                views(domains@) == expanded_domains(views(sites@.subrange(0, i as int))),
                views(domains@).no_duplicates(),
                views(lookups@) == lookup_domains(views(sites@.subrange(0, i as int))),
            decreases sites.len() - i,
        {
            let ghost pre = views(sites@.subrange(0, i as int));
            let ghost next = views(sites@.subrange(0, i + 1));
            assert(next.drop_last() =~= pre);
            assert(next.last() == sites@[i as int]@);
            let c = Self::clean_domain(sites[i].as_str());
            if char_len(c.as_str()) > 0 {
                let sib = Self::www_variant(c.as_str());
                let ghost dv = views(domains@);
                if !contains_string(&domains, &c) {
                    domains.push(c.clone());
                    proof {
                        lemma_push_no_dup(dv, c@);
                    }
                    assert(views(domains@) =~= dv.push(c@));
                }
                lookups.push(c);
                assert(views(lookups@) =~= lookup_domains(pre).push(clean_domain_of(next.last())));
                if !contains_string(&domains, &sib) {
                    let ghost dv2 = views(domains@);
                    domains.push(sib);
                    proof {
                        lemma_push_no_dup(dv2, www_sibling(c@));
                    }
                    assert(views(domains@) =~= dv2.push(www_sibling(c@)));
                }
            }
            i = i + 1;
        }
        assert(sites@.subrange(0, sites@.len() as int) =~= sites@);
        (domains, lookups)
    }
}


impl SiteBlocker {
    /// The hosts text with a managed section for `domains` appended after a line break:
    /// each domain is mapped to both 0.0.0.0 and 127.0.0.1.
    pub fn hosts_with_block(base: &str, domains: &Vec<String>) -> (r: String)
        ensures
            r@ == with_block_section(base@, views(domains@)),
    {
        let mut out = String::from_str(base);
        out.append("\n");
        out.append(BLOCK_MARKER_START);
        out.append("\n");
        let ghost head = out@;
        let mut i: usize = 0;
        while i < domains.len()
            invariant
                i <= domains.len(),
                head == base@ + "\n"@ + BLOCK_MARKER_START@ + "\n"@,
                out@ == head + all_domain_lines(views(domains@.subrange(0, i as int))),
            decreases domains.len() - i,
        {
            let ghost pre = views(domains@.subrange(0, i as int));
            let ghost next = views(domains@.subrange(0, i + 1));
            assert(next.drop_last() =~= pre);
            assert(next.last() == domains@[i as int]@);
            out.append("0.0.0.0 ");
            out.append(domains[i].as_str());
            out.append("\n");
            out.append("127.0.0.1 ");
            out.append(domains[i].as_str());
            out.append("\n");
            assert(out@ =~= head + all_domain_lines(next));
            i = i + 1;
        }
        assert(domains@.subrange(0, domains@.len() as int) =~= domains@);
        out.append(BLOCK_MARKER_END);
        out.append("\n");
        out
    }

    /// The packet-filter rule file: a comment line, then one rule per address that
    /// drops outgoing TCP to ports 80 and 443.
    pub fn generate_pf_rules(ips: &Vec<String>) -> (r: String)
        ensures
            r@ == pf_rules_of(views(ips@)),
    {
        let mut out = String::from_str("# Pomodoro Focus - Site Blocking Rules\n");
        let mut i: usize = 0;
        while i < ips.len()
            invariant
                i <= ips.len(),
                out@ == pf_rules_of(views(ips@.subrange(0, i as int))),
            decreases ips.len() - i,
        {
            let ghost pre = views(ips@.subrange(0, i as int));
            let ghost next = views(ips@.subrange(0, i + 1));
            assert(next.drop_last() =~= pre);
            assert(next.last() == ips@[i as int]@);
            out.append("block drop out proto tcp from any to ");
            out.append(ips[i].as_str());
            out.append(" port {80, 443}\n");
            assert(out@ =~= pf_rules_of(next));
            i = i + 1;
        }
        assert(ips@.subrange(0, ips@.len() as int) =~= ips@);
        out
    }

    /// Adds to `ips` those of `found` that it lacks, in order.
    pub fn merge_addresses(ips: &mut Vec<String>, found: &Vec<String>)
        ensures
            forall|x: Seq<char>| views(final(ips)@).contains(x) <==> (views(old(ips)@).contains(x) || views(found@).contains(x)),
            views(old(ips)@).no_duplicates() ==> views(final(ips)@).no_duplicates(),
    {
        let mut i: usize = 0;
        while i < found.len()
            invariant
                i <= found.len(),
                forall|x: Seq<char>| views(ips@).contains(x) <==> (views(old(ips)@).contains(x)
                    || views(found@.subrange(0, i as int)).contains(x)),
                views(old(ips)@).no_duplicates() ==> views(ips@).no_duplicates(),
            decreases found.len() - i,
        {
            let ghost before = views(ips@);
            let ghost f = found@[i as int]@;
            let ghost pre = views(found@.subrange(0, i as int));
            let ghost next = views(found@.subrange(0, i + 1));
            assert(next =~= pre.push(f));
            proof {
                lemma_push_contains(pre, f);
            }
            if !contains_string(ips, &found[i]) {
                let item = found[i].clone();
                ips.push(item);
                assert(views(ips@) =~= before.push(f));
                proof {
                    lemma_push_contains(before, f);
                }
            } else {
                assert(views(ips@) =~= before);
            }
            i = i + 1;
        }
        assert(found@.subrange(0, found@.len() as int) =~= found@);
    }

    /// How the privileged batch went: a refusal of the authorization prompt (the
    /// error output names a user cancellation or code -128) is a permission error;
    /// any other outcome counts as done, as the batch tolerates partial failures.
    pub fn block_outcome(success: bool, stderr: &str) -> (r: Result<(), AppError>)
        ensures
            r is Err <==> !success && (has_infix(stderr@, "User cancelled"@) || has_infix(stderr@, "(-128)"@)),
            r matches Err(e) ==> e matches AppError::PermissionDenied(_),
    {
        if !success && (contains_text(stderr, "User cancelled") || contains_text(stderr, "(-128)")) {
            return Err(AppError::PermissionDenied(String::from_str("authorization was cancelled")));
        }
        Ok(())
    }

    /// Whether the hosts text holds the managed section's start marker.
    pub fn has_block_markers(hosts: &str) -> (r: bool)
        ensures
            r == has_infix(hosts@, BLOCK_MARKER_START@),
    {
        contains_text(hosts, BLOCK_MARKER_START)
    }

    /// Removes the managed block section from hosts text (see `without_block_section`).
    pub fn remove_block_section(content: &str) -> (r: String)
        ensures
            r@ == without_block_section(content@),
    {
        let n = char_len(content);
        let mut out = String::new();
        let mut i: usize = 0;
        let mut in_block = false;
        let mut started = false;
        while i < n
            invariant
                n == content@.len(),
                i <= n,
                out@ + kept_from(content@, i as int, in_block, started) == without_block_section(content@),
            decreases n - i,
        {
            proof {
                crate::text::lemma_next_index(content@, i as int, '\n');
            }
            let e = find_from(content, i, '\n');
            let raw = slice_text(content, i, e);
            let rl = char_len(raw.as_str());
            let line = if rl > 0 && raw.as_str().get_char(rl - 1) == '\r' {
                slice_text(raw.as_str(), 0, rl - 1)
            } else {
                raw
            };
            assert(line@ == line_at(content@, i as int));
            let ghost rest = kept_from(content@, i as int, in_block, started);
            let ghost was_in = in_block;
            let ghost was_started = started;
            assert(line_end(content@, i as int) == e);
            if contains_text(line.as_str(), BLOCK_MARKER_START) {
                in_block = true;
            } else if contains_text(line.as_str(), BLOCK_MARKER_END) {
                in_block = false;
            } else if !in_block {
                let ghost before = out@;
                if started {
                    out.append("\n");
                }
                out.append(line.as_str());
                started = true;
                let ghost ni: int = if e < n { e + 1 } else { n as int };
                assert(rest == (if was_started { "\n"@ + line@ } else { line@ }) + kept_from(content@, ni, false, true));
                assert(out@ + kept_from(content@, ni, false, true) =~= before + rest);
            }
            if e >= n {
                i = n;
            } else {
                i = e + 1;
            }
        }
        assert(out@ =~= out@ + kept_from(content@, i as int, in_block, started));
        out
    }

    /// The cleaned hosts text to write back when unblocking, or `None` when no managed
    /// section is present and the file can stay as it is.
    pub fn unblock_content(hosts: &str) -> (r: Option<String>)
        ensures
            r is Some <==> has_infix(hosts@, BLOCK_MARKER_START@),
            r matches Some(c) ==> c@ == without_block_section(hosts@),
    {
        if Self::has_block_markers(hosts) {
            Some(Self::remove_block_section(hosts))
        } else {
            None
        }
    }
}

impl Default for SiteBlocker {
    fn default() -> (r: Self)
        ensures
            r.sites().len() == 0,
    {
        Self::new(Vec::new())
    }
}

proof fn lemma_no_char_next_index(s: Seq<char>, i: int, c: char)
    requires
        0 <= i <= s.len(),
        forall|k: int| 0 <= k < s.len() ==> s[k] != c,
    ensures
        next_index(s, i, c) == s.len(),
    decreases s.len() - i,
{
    if i < s.len() {
        lemma_no_char_next_index(s, i + 1, c);
    }
}

proof fn lemma_host_part_has_no_slash(u: Seq<char>)
    ensures
        forall|k: int| 0 <= k < host_part(u).len() ==> host_part(u)[k] != '/',
        host_part(u).len() <= u.len(),
        forall|k: int| 0 <= k < host_part(u).len() ==> host_part(u)[k] == u[k],
{
    crate::text::lemma_next_index(u, 0, '/');
}

proof fn lemma_ascii_lower_idempotent(h: Seq<char>)
    requires
        all_ascii(h),
    ensures
        all_ascii(ascii_lower(h)),
        ascii_lower(ascii_lower(h)) == ascii_lower(h),
        forall|k: int| 0 <= k < h.len() ==> (ascii_lower(h)[k] == '/' <==> h[k] == '/'),
{
    assert(ascii_lower(ascii_lower(h)) =~= ascii_lower(h));
}

proof fn lemma_trim_keeps(s: Seq<char>)
    ensures
        all_ascii(s) ==> all_ascii(trimmed(s)),
        (forall|k: int| 0 <= k < s.len() ==> s[k] != '/') ==> forall|k: int| 0 <= k < trimmed(s).len() ==> trimmed(s)[k] != '/',
{
    crate::text::lemma_trimmed_ends(s);
    crate::text::lemma_skip_white(s, 0);
    let t = trimmed(s);
    if all_ascii(s) {
        assert forall|k: int| 0 <= k < t.len() implies ascii_char(#[trigger] t[k]) by {
            assert(t[k] == s[skip_white(s, 0) + k]);
        }
    }
    if forall|k: int| 0 <= k < s.len() ==> s[k] != '/' {
        assert forall|k: int| 0 <= k < t.len() implies t[k] != '/' by {
            assert(t[k] == s[skip_white(s, 0) + k]);
        }
    }
}

/// Cleaning an ASCII entry twice gives what cleaning it once gives.
pub proof fn lemma_clean_domain_idempotent(site: Seq<char>)
    requires
        all_ascii(site),
    ensures
        clean_domain_of(clean_domain_of(site)) == clean_domain_of(site),
{
    reveal_strlit("https://");
    reveal_strlit("http://");
    let t = trimmed(site);
    lemma_trim_keeps(site);
    let u = without_scheme(t);
    assert(all_ascii(u));
    let h = host_part(u);
    lemma_host_part_has_no_slash(u);
    assert forall|k: int| 0 <= k < h.len() implies ascii_char(#[trigger] h[k]) by {
        assert(h[k] == u[k]);
    }
    let t2 = trimmed(h);
    lemma_trim_keeps(h);
    crate::text::lemma_trimmed_ends(h);
    let c = clean_domain_of(site);
    assert(c == ascii_lower(t2));
    lemma_ascii_lower_idempotent(t2);
    assert(forall|k: int| 0 <= k < c.len() ==> c[k] != '/');
    // the ends of `c` are not white: lowering only touches letters
    if c.len() > 0 {
        assert(c[0] == crate::text::ascii_lower_char(t2[0]));
        assert(c.last() == crate::text::ascii_lower_char(t2.last()));
        assert(!white_space(c[0]));
        assert(!white_space(c.last()));
        assert(skip_white(c, 0) == 0);
        assert(back_white(c, 0, c.len() as int) == c.len());
    } else {
        assert(skip_white(c, 0) == 0);
        assert(back_white(c, 0, 0) == 0);
    }
    assert(trimmed(c) =~= c);
    if has_prefix(c, "https://"@) {
        assert(c.subrange(0, 8)[6] == '/');
        assert(c[6] == '/');
    }
    if has_prefix(c, "http://"@) {
        assert(c.subrange(0, 7)[5] == '/');
        assert(c[5] == '/');
    }
    assert(without_scheme(c) == c);
    lemma_no_char_next_index(c, 0, '/');
    assert(host_part(c) =~= c);
}

/// The `www.` counterpart undoes itself, except on a domain with two leading `www.`.
pub proof fn lemma_www_sibling_involutive(d: Seq<char>)
    requires
        !(has_prefix(d, "www."@) && has_prefix(d.subrange(4, d.len() as int), "www."@)),
    ensures
        www_sibling(www_sibling(d)) == d,
{
    reveal_strlit("www.");
    if has_prefix(d, "www."@) {
        let r = d.subrange(4, d.len() as int);
        assert(("www."@ + r) =~= d);
    } else {
        let w = "www."@ + d;
        assert(w.subrange(0, 4) =~= "www."@);
        assert(w.subrange(4, w.len() as int) =~= d);
    }
}

/// An entry and an entry naming its `www.` counterpart block the same pair of domains:
/// `https://WWW.Example.com/` and `example.com` both give example.com and
/// www.example.com.
pub proof fn lemma_www_entries_block_same_pair(a: Seq<char>, b: Seq<char>)
    requires
        clean_domain_of(a).len() > 0,
        clean_domain_of(b).len() > 0,
        clean_domain_of(b) == www_sibling(clean_domain_of(a)),
        !(has_prefix(clean_domain_of(a), "www."@) && has_prefix(
            clean_domain_of(a).subrange(4, clean_domain_of(a).len() as int),
            "www."@,
        )),
    ensures
        expanded_domains(seq![a]).to_set() == set![clean_domain_of(a), www_sibling(clean_domain_of(a))],
        expanded_domains(seq![a]).to_set() == expanded_domains(seq![b]).to_set(),
{
    reveal_strlit("www.");
    let c = clean_domain_of(a);
    let w = www_sibling(c);
    lemma_www_sibling_involutive(c);
    assert(w.len() != c.len());
    assert(w != c);
    assert(w.len() > 0);
    assert(seq![a].drop_last() =~= Seq::<Seq<char>>::empty());
    assert(seq![b].drop_last() =~= Seq::<Seq<char>>::empty());
    let e: Seq<Seq<char>> = Seq::empty();
    assert(!e.push(c).contains(w)) by {
        if e.push(c).contains(w) {
            let k = choose|k: int| 0 <= k < e.push(c).len() && e.push(c)[k] == w;
            assert(e.push(c)[k] == c);
        }
    }
    assert(!e.push(w).contains(c)) by {
        if e.push(w).contains(c) {
            let k = choose|k: int| 0 <= k < e.push(w).len() && e.push(w)[k] == c;
            assert(e.push(w)[k] == w);
        }
    }
    assert(expanded_domains(e) == e);
    assert(seq![a].last() == a);
    assert(seq![b].last() == b);
    assert(expanded_domains(seq![a]) == e.push(c).push(w));
    assert(expanded_domains(seq![b]) == e.push(w).push(c));
    assert(e.push(c).push(w).to_set() =~= set![c, w]) by {
        assert(e.push(c).push(w) =~= seq![c, w]);
        assert forall|x: Seq<char>| seq![c, w].contains(x) <==> set![c, w].contains(x) by {
            if x == c { assert(seq![c, w][0] == x); }
            if x == w { assert(seq![c, w][1] == x); }
        }
    }
    assert(e.push(w).push(c).to_set() =~= set![c, w]) by {
        assert(e.push(w).push(c) =~= seq![w, c]);
        assert forall|x: Seq<char>| seq![w, c].contains(x) <==> set![c, w].contains(x) by {
            if x == w { assert(seq![w, c][0] == x); }
            if x == c { assert(seq![w, c][1] == x); }
        }
    }
}

proof fn lemma_next_index_is(s: Seq<char>, i: int, c: char, k: int)
    requires
        0 <= i <= k <= s.len(),
        forall|j: int| i <= j < k ==> s[j] != c,
        k == s.len() || s[k] == c,
    ensures
        next_index(s, i, c) == k,
    decreases k - i,
{
    if i < k {
        lemma_next_index_is(s, i + 1, c, k);
    }
}

/// `x` holds no `#`.
pub open spec fn hash_free(x: Seq<char>) -> bool {
    forall|k: int| 0 <= k < x.len() ==> x[k] != '#'
}

proof fn lemma_markers()
    ensures
        BLOCK_MARKER_START@.len() > BLOCK_MARKER_END@.len() > 0,
        BLOCK_MARKER_START@[0] == '#',
        BLOCK_MARKER_END@[0] == '#',
        forall|k: int| 0 <= k < BLOCK_MARKER_START@.len() ==> BLOCK_MARKER_START@[k] != '\n' && BLOCK_MARKER_START@[k] != '\r',
        forall|k: int| 0 <= k < BLOCK_MARKER_END@.len() ==> BLOCK_MARKER_END@[k] != '\n' && BLOCK_MARKER_END@[k] != '\r',
{
    reveal_strlit("# === POMODORO FOCUS BLOCK START ===");
    reveal_strlit("# === POMODORO FOCUS BLOCK END ===");
}

proof fn lemma_infix_of_part(x: Seq<char>, a: int, b: int, m: Seq<char>)
    requires
        0 <= a <= b <= x.len(),
        has_infix(x.subrange(a, b), m),
    ensures
        has_infix(x, m),
{
    let k = choose|k: int| crate::text::occurs_at(x.subrange(a, b), m, k);
    assert(x.subrange(a + k, a + k + m.len()) =~= x.subrange(a, b).subrange(k, k + m.len()));
    assert(crate::text::occurs_at(x, m, a + k));
}

/// A domain that can be written into the section: no line feed, no marker text.
pub open spec fn plain_domain(d: Seq<char>) -> bool {
    &&& forall|k: int| 0 <= k < d.len() ==> d[k] != '\n'
    &&& !has_infix(d, BLOCK_MARKER_START@)
    &&& !has_infix(d, BLOCK_MARKER_END@)
}

proof fn lemma_prefixed_no_marker(p: Seq<char>, d: Seq<char>, m: Seq<char>)
    requires
        hash_free(p),
        m.len() > 0,
        m[0] == '#',
        !has_infix(d, m),
    ensures
        !has_infix(p + d, m),
{
    if has_infix(p + d, m) {
        let k = choose|k: int| crate::text::occurs_at(p + d, m, k);
        assert((p + d).subrange(k, k + m.len())[0] == m[0]);
        if k < p.len() {
            assert((p + d)[k] == p[k]);
        } else {
            assert((p + d).subrange(k, k + m.len()) =~= d.subrange(k - p.len(), k - p.len() + m.len()));
            assert(crate::text::occurs_at(d, m, k - p.len()));
        }
    }
}

/// One line `p + d` followed by a line feed, inside a block, is dropped.
proof fn lemma_skip_one_line(s: Seq<char>, q: int, p: Seq<char>, d: Seq<char>, started: bool)
    requires
        0 <= q,
        q + p.len() + d.len() < s.len(),
        s.subrange(q, q + p.len() + d.len()) == p + d,
        s[q + p.len() + d.len()] == '\n',
        hash_free(p),
        forall|k: int| 0 <= k < p.len() ==> p[k] != '\n',
        plain_domain(d),
    ensures
        kept_from(s, q, true, started) == kept_from(s, q + p.len() + d.len() + 1, true, started),
{
    lemma_markers();
    let e = q + p.len() + d.len();
    assert forall|j: int| q <= j < e implies s[j] != '\n' by {
        assert(s[j] == s.subrange(q, e)[j - q]);
        assert((p + d)[j - q] == if j - q < p.len() { p[j - q] } else { d[j - q - p.len()] });
    }
    lemma_next_index_is(s, q, '\n', e);
    lemma_prefixed_no_marker(p, d, BLOCK_MARKER_START@);
    lemma_prefixed_no_marker(p, d, BLOCK_MARKER_END@);
    let l = line_at(s, q);
    assert(!has_infix(l, BLOCK_MARKER_START@)) by {
        if has_infix(l, BLOCK_MARKER_START@) {
            lemma_infix_of_part(p + d, 0, l.len() as int, BLOCK_MARKER_START@);
            assert((p + d).subrange(0, l.len() as int) =~= l);
        }
    }
    assert(!has_infix(l, BLOCK_MARKER_END@)) by {
        if has_infix(l, BLOCK_MARKER_END@) {
            lemma_infix_of_part(p + d, 0, l.len() as int, BLOCK_MARKER_END@);
            assert((p + d).subrange(0, l.len() as int) =~= l);
        }
    }
}

/// The section's domain lines, starting at `q`, are all dropped.
proof fn lemma_skip_domain_lines(s: Seq<char>, q: int, ds: Seq<Seq<char>>, started: bool)
    requires
        0 <= q,
        q + all_domain_lines(ds).len() < s.len(),
        s.subrange(q, q + all_domain_lines(ds).len()) == all_domain_lines(ds),
        forall|k: int| 0 <= k < ds.len() ==> plain_domain(#[trigger] ds[k]),
    ensures
        kept_from(s, q, true, started) == kept_from(s, q + all_domain_lines(ds).len(), true, started),
    decreases ds.len(),
{
    reveal_strlit("0.0.0.0 ");
    reveal_strlit("127.0.0.1 ");
    reveal_strlit("\n");
    if ds.len() > 0 {
        let prev = all_domain_lines(ds.drop_last());
        let d = ds.last();
        assert(plain_domain(ds[ds.len() - 1]));
        let whole = all_domain_lines(ds);
        assert(whole == prev + domain_lines(d));
        assert(s.subrange(q, q + prev.len()) =~= whole.subrange(0, prev.len() as int));
        assert(whole.subrange(0, prev.len() as int) =~= prev);
        assert forall|k: int| 0 <= k < ds.drop_last().len() implies plain_domain(#[trigger] ds.drop_last()[k]) by {
            assert(ds.drop_last()[k] == ds[k]);
        }
        lemma_skip_domain_lines(s, q, ds.drop_last(), started);
        let zero_prefix = "0.0.0.0 "@;
        let loop_prefix = "127.0.0.1 "@;
        let lp: int = prev.len() as int;
        let zero_len: int = zero_prefix.len() as int;
        let loop_len: int = loop_prefix.len() as int;
        let ld: int = d.len() as int;
        let q1 = q + lp;
        let q2 = q1 + zero_len + ld + 1;
        assert(s.subrange(q1, q1 + zero_len + ld) =~= zero_prefix + d) by {
            assert forall|j: int| 0 <= j < zero_len + ld implies s.subrange(q1, q1 + zero_len + ld)[j] == (zero_prefix + d)[j] by {
                assert(s[q1 + j] == s.subrange(q, q + whole.len() as int)[lp + j]);
                assert(whole[lp + j] == domain_lines(d)[j]);
            }
        }
        assert(s[q1 + zero_len + ld] == '\n') by {
            assert(s[q1 + zero_len + ld] == s.subrange(q, q + whole.len() as int)[lp + zero_len + ld]);
            assert(whole[lp + zero_len + ld] == domain_lines(d)[zero_len + ld]);
        }
        lemma_skip_one_line(s, q1, zero_prefix, d, started);
        assert(s.subrange(q2, q2 + loop_len + ld) =~= loop_prefix + d) by {
            assert forall|j: int| 0 <= j < loop_len + ld implies s.subrange(q2, q2 + loop_len + ld)[j] == (loop_prefix + d)[j] by {
                assert(s[q2 + j] == s.subrange(q, q + whole.len() as int)[lp + zero_len + ld + 1 + j]);
                assert(whole[lp + zero_len + ld + 1 + j] == domain_lines(d)[zero_len + ld + 1 + j]);
            }
        }
        assert(s[q2 + loop_len + ld] == '\n') by {
            assert(s[q2 + loop_len + ld] == s.subrange(q, q + whole.len() as int)[lp + zero_len + ld + 1 + loop_len + ld]);
            assert(whole[lp + zero_len + ld + 1 + loop_len + ld] == domain_lines(d)[zero_len + ld + 1 + loop_len + ld]);
        }
        lemma_skip_one_line(s, q2, loop_prefix, d, started);
        assert(q2 + loop_prefix.len() + d.len() + 1 == q + whole.len());
    }
}

/// The managed section, from its start line on, contributes nothing.
/// Where the body of a section appended to `base` begins.
pub open spec fn body_start(base: Seq<char>) -> int {
    (base.len() + 1 + BLOCK_MARKER_START@.len() + 1) as int
}

/// Inside the section, the lines of `body` are all dropped.
pub open spec fn body_skipped(base: Seq<char>, body: Seq<char>) -> bool {
    kept_from(with_section(base, body), body_start(base), true, true)
        == kept_from(with_section(base, body), body_start(base) + body.len(), true, true)
}

/// Lines between `q` and `hi` of a stretch without marker text are dropped.
proof fn lemma_skip_body_lines(s: Seq<char>, lo: int, hi: int, q: int)
    requires
        0 <= lo <= q <= hi < s.len(),
        !has_infix(s.subrange(lo, hi), BLOCK_MARKER_START@),
        !has_infix(s.subrange(lo, hi), BLOCK_MARKER_END@),
        lo == hi || s[hi - 1] == '\n',
        q == lo || s[q - 1] == '\n',
    ensures
        kept_from(s, q, true, true) == kept_from(s, hi, true, true),
    decreases hi - q,
{
    if q < hi {
        crate::text::lemma_next_index(s, q, '\n');
        let e = next_index(s, q, '\n');
        assert(e < hi) by {
            if e >= hi {
                assert(s[hi - 1] != '\n');
            }
        }
        let l = line_at(s, q);
        let part = s.subrange(lo, hi);
        assert(l =~= part.subrange(q - lo, q - lo + l.len()));
        if has_infix(l, BLOCK_MARKER_START@) {
            lemma_infix_of_part(part, q - lo, q - lo + l.len(), BLOCK_MARKER_START@);
        }
        if has_infix(l, BLOCK_MARKER_END@) {
            lemma_infix_of_part(part, q - lo, q - lo + l.len(), BLOCK_MARKER_END@);
        }
        lemma_skip_body_lines(s, lo, hi, e + 1);
    }
}

proof fn lemma_plain_body_skipped(base: Seq<char>, body: Seq<char>)
    requires
        body.len() == 0 || body.last() == '\n',
        !has_infix(body, BLOCK_MARKER_START@),
        !has_infix(body, BLOCK_MARKER_END@),
    ensures
        body_skipped(base, body),
{
    lemma_markers();
    reveal_strlit("\n");
    let s = with_section(base, body);
    let b = body_start(base);
    assert(s =~= base + "\n"@ + BLOCK_MARKER_START@ + "\n"@ + body + BLOCK_MARKER_END@ + "\n"@);
    assert(s.subrange(b, b + body.len()) =~= body);
    if body.len() > 0 {
        assert(s[b + body.len() - 1] == body.last());
    }
    lemma_skip_body_lines(s, b, b + body.len(), b);
}

proof fn lemma_domain_body_skipped(base: Seq<char>, ds: Seq<Seq<char>>)
    requires
        forall|k: int| 0 <= k < ds.len() ==> plain_domain(#[trigger] ds[k]),
    ensures
        body_skipped(base, all_domain_lines(ds)),
{
    lemma_markers();
    reveal_strlit("\n");
    let body = all_domain_lines(ds);
    let s = with_section(base, body);
    let b = body_start(base);
    assert(s =~= base + "\n"@ + BLOCK_MARKER_START@ + "\n"@ + body + BLOCK_MARKER_END@ + "\n"@);
    assert(s.subrange(b, b + body.len()) =~= body);
    lemma_skip_domain_lines(s, b, ds, true);
}

#[verifier::spinoff_prover]
#[verifier::rlimit(60)]
proof fn lemma_section_dropped(base: Seq<char>, body: Seq<char>)
    requires
        body_skipped(base, body),
    ensures
        kept_from(with_section(base, body), base.len() + 1int, false, true) == Seq::<char>::empty(),
{
    lemma_markers();
    reveal_strlit("\n");
    let started = true;
    let s = with_section(base, body);
    let st = BLOCK_MARKER_START@;
    let en = BLOCK_MARKER_END@;
    let d = body;
    let p: int = base.len() + 1int;
    let body_start: int = p + st.len() + 1;
    let end_line: int = body_start + d.len();
    assert(s =~= base + "\n"@ + st + "\n"@ + d + en + "\n"@);
    assert(s.len() == end_line + en.len() + 1);
    // the start line
    assert forall|j: int| p <= j < p + st.len() implies s[j] != '\n' by {
        assert(s[j] == st[j - p]);
    }
    assert(s[p + st.len() as int] == '\n');
    lemma_next_index_is(s, p, '\n', p + st.len() as int);
    assert(s.subrange(p, p + st.len() as int) =~= st);
    assert(line_at(s, p) == st);
    assert(crate::text::occurs_at(st, st, 0)) by {
        assert(st.subrange(0, st.len() as int) =~= st);
    }
    // the body lines
    assert(kept_from(s, body_start, true, started) == kept_from(s, end_line, true, started));
    // the end line
    assert forall|j: int| end_line <= j < end_line + en.len() implies s[j] != '\n' by {
        assert(s[j] == en[j - end_line]);
    }
    assert(s[end_line + en.len() as int] == '\n');
    lemma_next_index_is(s, end_line, '\n', end_line + en.len() as int);
    assert(s.subrange(end_line, end_line + en.len() as int) =~= en);
    assert(line_at(s, end_line) == en);
    assert(!has_infix(en, st)) by {
        if has_infix(en, st) {
            let k = choose|k: int| crate::text::occurs_at(en, st, k);
        }
    }
    assert(crate::text::occurs_at(en, en, 0)) by {
        assert(en.subrange(0, en.len() as int) =~= en);
    }
    assert(kept_from(s, end_line, true, started) == kept_from(s, s.len() as int, false, started));
    assert(kept_from(s, p, false, started) == kept_from(s, body_start, true, started));
}

/// The user's lines before the section come back as they were.
proof fn lemma_base_kept(base: Seq<char>, body: Seq<char>, i: int, started: bool)
    requires
        body_skipped(base, body),
        forall|k: int| 0 <= k < base.len() ==> base[k] != '\r',
        !has_infix(base, BLOCK_MARKER_START@),
        !has_infix(base, BLOCK_MARKER_END@),
        0 <= i <= base.len(),
        i == 0 || base[i - 1] == '\n',
    ensures
        kept_from(with_section(base, body), i, false, started)
            == (if started { "\n"@ } else { Seq::<char>::empty() }) + base.subrange(i, base.len() as int),
    decreases base.len() - i,
{
    reveal_strlit("\n");
    let s = with_section(base, body);
    assert(s =~= base + ("\n"@ + BLOCK_MARKER_START@ + "\n"@ + body + BLOCK_MARKER_END@ + "\n"@));
    assert(s[base.len() as int] == '\n');
    let e = next_index(base, i, '\n');
    crate::text::lemma_next_index(base, i, '\n');
    assert forall|j: int| i <= j < e implies s[j] != '\n' by {
        assert(s[j] == base[j]);
    }
    assert(e == base.len() || s[e] == '\n') by {
        if e < base.len() {
            assert(s[e] == base[e]);
        }
    }
    lemma_next_index_is(s, i, '\n', e);
    let l = line_at(s, i);
    assert(s.subrange(i, e) =~= base.subrange(i, e));
    assert(l == base.subrange(i, e)) by {
        if e > i {
            assert(base.subrange(i, e).last() == base[e - 1]);
        }
    }
    assert(!has_infix(l, BLOCK_MARKER_START@)) by {
        if has_infix(l, BLOCK_MARKER_START@) {
            lemma_infix_of_part(base, i, e, BLOCK_MARKER_START@);
        }
    }
    assert(!has_infix(l, BLOCK_MARKER_END@)) by {
        if has_infix(l, BLOCK_MARKER_END@) {
            lemma_infix_of_part(base, i, e, BLOCK_MARKER_END@);
        }
    }
    let pre = if started { "\n"@ } else { Seq::<char>::empty() };
    assert(kept_from(s, i, false, started) == pre + l + kept_from(s, e + 1, false, true));
    if e < base.len() {
        lemma_base_kept(base, body, e + 1, true);
        assert(pre + l + ("\n"@ + base.subrange(e + 1, base.len() as int)) =~= pre + base.subrange(i, base.len() as int));
    } else {
        lemma_section_dropped(base, body);
        assert(pre + l + Seq::<char>::empty() =~= pre + base.subrange(i, base.len() as int));
    }
}

/// Unblocking after blocking gives back the hosts text exactly: for a text without
/// carriage returns or marker text of its own, and domains without line feeds or marker
/// text, removing the managed section from the text with the section appended yields
/// the text.
pub proof fn lemma_unblock_undoes_block(base: Seq<char>, ds: Seq<Seq<char>>)
    requires
        forall|k: int| 0 <= k < base.len() ==> base[k] != '\r',
        !has_infix(base, BLOCK_MARKER_START@),
        !has_infix(base, BLOCK_MARKER_END@),
        forall|k: int| 0 <= k < ds.len() ==> plain_domain(#[trigger] ds[k]),
    ensures
        without_block_section(with_block_section(base, ds)) == base,
{
    lemma_domain_body_skipped(base, ds);
    lemma_base_kept(base, all_domain_lines(ds), 0, false);
    assert(Seq::<char>::empty() + base.subrange(0, base.len() as int) =~= base);
}

/// Removing the managed section gives back the text it was appended to, whatever lines
/// the section holds: for a text without carriage returns or marker text, and a body of
/// whole lines (empty, or ending in a line feed) without marker text.
pub proof fn lemma_section_removal_restores(base: Seq<char>, body: Seq<char>)
    requires
        forall|k: int| 0 <= k < base.len() ==> base[k] != '\r',
        !has_infix(base, BLOCK_MARKER_START@),
        !has_infix(base, BLOCK_MARKER_END@),
        body.len() == 0 || body.last() == '\n',
        !has_infix(body, BLOCK_MARKER_START@),
        !has_infix(body, BLOCK_MARKER_END@),
    ensures
        without_block_section(with_section(base, body)) == base,
{
    lemma_plain_body_skipped(base, body);
    lemma_base_kept(base, body, 0, false);
    assert(Seq::<char>::empty() + base.subrange(0, base.len() as int) =~= base);
}

} // verus!
