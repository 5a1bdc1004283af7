use vstd::prelude::*;
use vstd::string::*;
use crate::site_blocker::{contains_string, views, without_scheme};
use crate::text::{char_len, find_from, has_prefix, next_index, slice_text, starts_with_text, trim_text, trimmed};

verus! {

/// Port of the local status endpoint.
pub const DEFAULT_PORT: u16 = 27190;

/// Length of `s` once its trailing slashes, from index `j` down, are dropped.
pub open spec fn slash_trimmed_len(s: Seq<char>, j: int) -> int
    decreases j,
{
    if j <= 0 {
        0
    } else if s[j - 1] == '/' {
        slash_trimmed_len(s, j - 1)
    } else {
        j
    }
}

/// `s` without trailing slashes.
pub open spec fn without_trailing_slashes(s: Seq<char>) -> Seq<char> {
    s.subrange(0, slash_trimmed_len(s, s.len() as int))
}

/// The part of `s` before the first `c`.
pub open spec fn before_char(s: Seq<char>, c: char) -> Seq<char> {
    s.subrange(0, next_index(s, 0, c))
}

/// The host of a URL or domain entry: trimmed, trailing slashes, a leading `http://`
/// or `https://`, the path and the port removed.
pub open spec fn hostname_of(site: Seq<char>) -> Seq<char> {
    before_char(before_char(without_scheme(without_trailing_slashes(trimmed(site))), '/'), ':')
}

/// A host's `www.` counterpart: all leading `www.` removed if present, one added otherwise.
pub open spec fn without_www(s: Seq<char>) -> Seq<char>
    decreases s.len(),
{
    if s.len() >= 4 && has_prefix(s, "www."@) {
        without_www(s.subrange(4, s.len() as int))
    } else {
        s
    }
}

pub open spec fn www_counterpart(h: Seq<char>) -> Seq<char> {
    if has_prefix(h, "www."@) { without_www(h) } else { "www."@ + h }
}

/// The domains the status endpoint lists: for each entry its host (when not empty)
/// and the host's `www.` counterpart, each listed once, in order.
pub open spec fn status_domains(sites: Seq<Seq<char>>) -> Seq<Seq<char>>
    decreases sites.len(),
{
    if sites.len() == 0 {
        Seq::empty()
    } else {
        let prev = status_domains(sites.drop_last());
        let h = hostname_of(sites.last());
        let with_host = if h.len() > 0 && !prev.contains(h) { prev.push(h) } else { prev };
        let w = www_counterpart(h);
        if with_host.contains(w) { with_host } else { with_host.push(w) }
    }
}

fn before_first(s: &str, c: char) -> (r: String)
    ensures
        r@ == before_char(s@, c),
{
    proof {
        crate::text::lemma_next_index(s@, 0, c);
    }
    let k = find_from(s, 0, c);
    slice_text(s, 0, k)
}

proof fn lemma_slash_trimmed_len(s: Seq<char>, j: int)
    requires
        0 <= j <= s.len(),
    ensures
        0 <= slash_trimmed_len(s, j) <= j,
    decreases j,
{
    if j > 0 && s[j - 1] == '/' {
        lemma_slash_trimmed_len(s, j - 1);
    }
}

fn strip_www(s: &str) -> (r: String)
    ensures
        r@ == without_www(s@),
    decreases s@.len(),
{
    if char_len(s) >= 4 && starts_with_text(s, "www.") {
        proof {
            reveal_strlit("www.");
        }
        let rest = slice_text(s, 4, char_len(s));
        strip_www(rest.as_str())
    } else {
        String::from_str(s)
    }
}

pub struct LocalServer;

impl LocalServer {
    /// The host of a URL or domain entry (see `hostname_of`).
    pub fn extract_hostname(site: &str) -> (r: String)
        ensures
            r@ == hostname_of(site@),
    {
        let t = trim_text(site);
        let n = char_len(t.as_str());
        let mut e: usize = n;
        proof {
            lemma_slash_trimmed_len(t@, n as int);
        }
        while e > 0 && t.as_str().get_char(e - 1) == '/'
            invariant
                n == t@.len(),
                e <= n,
                slash_trimmed_len(t@, e as int) == slash_trimmed_len(t@, n as int),
            decreases e,
        {
            e = e - 1;
        }
        let s = slice_text(t.as_str(), 0, e);
        let m = char_len(s.as_str());
        let rest = if starts_with_text(s.as_str(), "https://") {
            slice_text(s.as_str(), char_len("https://"), m)
        } else if starts_with_text(s.as_str(), "http://") {
            slice_text(s.as_str(), char_len("http://"), m)
        } else {
            s
        };
        let host = before_first(rest.as_str(), '/');
        before_first(host.as_str(), ':')
    }

    /// The `www.` counterpart of a host (see `www_counterpart`).
    pub fn www_counterpart_of(h: &str) -> (r: String)
        ensures
            r@ == www_counterpart(h@),
    {
        if starts_with_text(h, "www.") {
            strip_www(h)
        } else {
            String::from_str("www.").concat(h)
        }
    }

    /// The domain list that the status endpoint reports for the configured entries.
    pub fn status_sites(raw_sites: &Vec<String>) -> (r: Vec<String>)
        ensures
            views(r@) == status_domains(views(raw_sites@)),
    {
        let mut out: Vec<String> = Vec::new();
        let mut i: usize = 0;
        while i < raw_sites.len()
            invariant
                i <= raw_sites.len(),
                views(out@) == status_domains(views(raw_sites@.subrange(0, i as int))),
            decreases raw_sites.len() - i,
        {
            let ghost pre = views(raw_sites@.subrange(0, i as int));
            let ghost next = views(raw_sites@.subrange(0, i + 1));
            assert(next.drop_last() =~= pre);
            assert(next.last() == raw_sites@[i as int]@);
            let h = Self::extract_hostname(raw_sites[i].as_str());
            let w = Self::www_counterpart_of(h.as_str());
            if char_len(h.as_str()) > 0 && !contains_string(&out, &h) {
                let ghost before = views(out@);
                out.push(h);
                assert(views(out@) =~= before.push(hostname_of(raw_sites@[i as int]@)));
            }
            if !contains_string(&out, &w) {
                let ghost before = views(out@);
                out.push(w);
                assert(views(out@) =~= before.push(www_counterpart(hostname_of(raw_sites@[i as int]@))));
            }
            i = i + 1;
        }
        assert(raw_sites@.subrange(0, raw_sites@.len() as int) =~= raw_sites@);
        out
    }
}

} // verus!
