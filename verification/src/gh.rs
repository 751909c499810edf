//! GitHub owner/repo names from git remotes, and PR numbers from beads.
use vstd::prelude::*;

use crate::text::{
    all_digits, chars_equal, chars_of, decimal, is_digit, is_whitespace, parse_u32, parsed_u32, push_decimal,
    push_str, spec_is_whitespace, string_of, sub_chars,
};

verus! {

/// Owner+repo for the GitHub project a bd repo is mirrored to. Used to
/// build PR URLs for the `v` keybinding that opens a bead's PR in the
/// default browser.
#[derive(Debug, Clone, PartialEq, Eq)]
pub struct GhRepo {
    pub owner: String,
    pub name: String,
}

impl GhRepo {
    pub open spec fn spec_pr_url(self, pr: u32) -> Seq<char> {
        "https://github.com/"@ + self.owner@ + "/"@ + self.name@ + "/pull/"@ + decimal(pr as nat)
    }

    /// `https://github.com/<owner>/<name>/pull/<pr>`.
    pub fn pr_url(&self, pr: u32) -> (r: String)
        ensures
            r@ == self.spec_pr_url(pr),
    {
        let mut r = String::new();
        push_str(&mut r, "https://github.com/");
        push_str(&mut r, self.owner.as_str());
        push_str(&mut r, "/");
        push_str(&mut r, self.name.as_str());
        push_str(&mut r, "/pull/");
        push_decimal(&mut r, pr as u64);
        assert(r@ =~= self.spec_pr_url(pr));
        r
    }
}

/// Kinds of characters that the remote parser skips or keeps in runs.
pub enum CharClass {
    /// `:` or `/`.
    Separator,
    /// Unicode whitespace.
    Space,
    /// Anything but whitespace.
    NonSpace,
    /// Anything but `/`.
    NonSlash,
    /// Anything but `/`, `?` or `#`.
    NameChar,
    /// What a URL scheme is made of: ASCII letters and digits, `+`, `-`, `.`.
    SchemeChar,
    /// Anything but `@`.
    NonAt,
    /// Anything but `:`.
    NonColon,
    /// Anything but `:` or `/`.
    HostChar,
}

pub open spec fn in_class(c: char, k: CharClass) -> bool {
    match k {
        CharClass::Separator => c == ':' || c == '/',
        CharClass::Space => spec_is_whitespace(c),
        CharClass::NonSpace => !spec_is_whitespace(c),
        CharClass::NonSlash => c != '/',
        CharClass::NameChar => !(c == '/' || c == '?' || c == '#'),
        CharClass::SchemeChar => ('a' <= c && c <= 'z') || ('A' <= c && c <= 'Z') || ('0' <= c
            && c <= '9') || c == '+' || c == '-' || c == '.',
        CharClass::NonAt => c != '@',
        CharClass::NonColon => c != ':',
        CharClass::HostChar => !(c == ':' || c == '/'),
    }
}

/// The length of the longest prefix of `s` made of class `k`.
pub open spec fn leading(s: Seq<char>, k: CharClass) -> nat
    decreases s.len(),
{
    if s.len() > 0 && in_class(s[0], k) {
        1 + leading(s.drop_first(), k)
    } else {
        0
    }
}

fn class_holds(c: char, k: &CharClass) -> (r: bool)
    ensures
        r == in_class(c, *k),
{
    match k {
        CharClass::Separator => c == ':' || c == '/',
        CharClass::Space => is_whitespace(c),
        CharClass::NonSpace => !is_whitespace(c),
        CharClass::NonSlash => c != '/',
        CharClass::NameChar => !(c == '/' || c == '?' || c == '#'),
        CharClass::SchemeChar => ('a' <= c && c <= 'z') || ('A' <= c && c <= 'Z') || ('0' <= c
            && c <= '9') || c == '+' || c == '-' || c == '.',
        CharClass::NonAt => c != '@',
        CharClass::NonColon => c != ':',
        CharClass::HostChar => !(c == ':' || c == '/'),
    }
}

fn leading_count(v: &Vec<char>, k: CharClass) -> (r: usize)
    ensures
        r == leading(v@, k),
        r <= v.len(),
{
    let mut i: usize = 0;
    assert(v@.skip(0) =~= v@);
    while i < v.len() && class_holds(v[i], &k)
        invariant
            i <= v.len(),
            leading(v@, k) == i + leading(v@.skip(i as int), k),
        decreases v.len() - i,
    {
        assert(v@.skip(i as int).drop_first() =~= v@.skip(i + 1));
        i = i + 1;
    }
    i
}

/// The GitHub host name.
pub open spec fn host() -> Seq<char> {
    "github.com"@
}

/// Where the remote's host stands and where its path starts, as
/// `(host start, host end, path start)`:
/// - URL form `scheme://[user@]host[:port]/path`: the authority runs from
///   after `://` to the first `/`; the host follows the first `@` in it (or
///   starts it) and ends at `:` or `/`; the path starts where the authority
///   ends.
/// - scp form `[user@]host:path`: everything before the first `:`, which
///   must hold no `/`; the host follows the first `@` in it (or starts it);
///   the path starts at that `:`.
/// `None` when the URL has neither form.
pub open spec fn remote_host(u: Seq<char>) -> Option<(int, int, int)> {
    let sch = leading(u, CharClass::SchemeChar) as int;
    if sch >= 1 && sch + 3 <= u.len() && u.subrange(sch, sch + 3) == "://"@ {
        let a0 = sch + 3;
        let al = leading(u.skip(a0), CharClass::NonSlash) as int;
        let ul = leading(u.skip(a0).take(al), CharClass::NonAt) as int;
        let hs = if ul < al {
            a0 + ul + 1
        } else {
            a0
        };
        let he = hs + leading(u.skip(hs), CharClass::HostChar);
        Some((hs, he, a0 + al))
    } else {
        let k = leading(u, CharClass::NonColon) as int;
        if k >= u.len() || leading(u.take(k), CharClass::NonSlash) < k {
            None
        } else {
            let ul = leading(u.take(k), CharClass::NonAt) as int;
            let hs = if ul < k {
                ul + 1
            } else {
                0
            };
            Some((hs, k, k))
        }
    }
}

/// The remote's path when its host is exactly `github.com`.
pub open spec fn after_host(u: Seq<char>) -> Option<Seq<char>> {
    match remote_host(u) {
        Some((hs, he, ps)) => if u.subrange(hs, he) == host() {
            Some(u.skip(ps))
        } else {
            None
        },
        None => None,
    }
}

/// `path` without a trailing `.git`.
pub open spec fn without_git_suffix(path: Seq<char>) -> Seq<char> {
    if path.len() >= 4 && path.skip(path.len() - 4) == ".git"@ {
        path.take(path.len() - 4)
    } else {
        path
    }
}

/// The owner and repository names in a remote URL whose host is exactly
/// `github.com` (see `remote_host`), read from its path.
pub open spec fn parsed_remote(u: Seq<char>) -> Option<(Seq<char>, Seq<char>)> {
    match after_host(u) {
        None => None,
        Some(p) => parsed_path(p),
    }
}

/// The owner and repository names in a GitHub remote's path: leading `:`
/// and `/` dropped, the first whitespace-separated word without a trailing
/// `.git`, split at its first `/`; the name ends at the next `/`, `?` or
/// `#`. Neither part may be empty.
pub open spec fn parsed_path(p: Seq<char>) -> Option<(Seq<char>, Seq<char>)> {
    let t = p.skip(leading(p, CharClass::Separator) as int);
    let t2 = t.skip(leading(t, CharClass::Space) as int);
    if t2.len() == 0 {
        None
    } else {
        let path = without_git_suffix(t2.take(leading(t2, CharClass::NonSpace) as int));
        let k = leading(path, CharClass::NonSlash) as int;
        if k == path.len() {
            None
        } else {
            let owner = path.take(k);
            let rest = path.skip(k + 1);
            let name = rest.take(leading(rest, CharClass::NameChar) as int);
            if owner.len() == 0 || name.len() == 0 {
                None
            } else {
                Some((owner, name))
            }
        }
    }
}

/// Parses `owner/name` out of the common github.com remote URL shapes:
///   - `git@github.com:owner/name.git`
///   - `https://github.com/owner/name.git`
///   - `https://github.com/owner/name`
///   - `ssh://git@github.com/owner/name.git`
///   - `git+ssh://git@github.com/owner/name.git`  (bd's `sync.remote`)
pub fn parse_github_remote(url: &str) -> (r: Option<GhRepo>)
    ensures
        match r {
            Some(g) => parsed_remote(url@) == Some((g.owner@, g.name@)),
            None => parsed_remote(url@) is None,
        },
{
    let u = chars_of(url);
    let n = u.len();
    proof {
        reveal_strlit("://");
        reveal_strlit("github.com");
    }
    let sch = leading_count(&u, CharClass::SchemeChar);
    let (hs, he, ps) = if sch >= 1 && n - sch >= 3 && u[sch] == ':' && u[sch + 1] == '/' && u[sch
        + 2] == '/' {
        assert(u@.subrange(sch as int, sch + 3) =~= "://"@);
        let a0 = sch + 3;
        let r = sub_chars(&u, a0, n);
        assert(r@ =~= u@.skip(a0 as int));
        let al = leading_count(&r, CharClass::NonSlash);
        let auth = sub_chars(&r, 0, al);
        assert(auth@ =~= u@.skip(a0 as int).take(al as int));
        let ul = leading_count(&auth, CharClass::NonAt);
        let hs = if ul < al {
            a0 + ul + 1
        } else {
            a0
        };
        let rest = sub_chars(&u, hs, n);
        assert(rest@ =~= u@.skip(hs as int));
        let hl = leading_count(&rest, CharClass::HostChar);
        (hs, hs + hl, a0 + al)
    } else {
        proof {
            if sch >= 1 && sch + 3 <= n && u@.subrange(sch as int, sch + 3) == "://"@ {
                assert(u@.subrange(sch as int, sch + 3)[0] == u@[sch as int]);
                assert(u@.subrange(sch as int, sch + 3)[1] == u@[sch + 1]);
                assert(u@.subrange(sch as int, sch + 3)[2] == u@[sch + 2]);
            }
        }
        let k = leading_count(&u, CharClass::NonColon);
        if k >= n {
            return None;
        }
        let part = sub_chars(&u, 0, k);
        assert(part@ =~= u@.take(k as int));
        if leading_count(&part, CharClass::NonSlash) < k {
            return None;
        }
        let ul = leading_count(&part, CharClass::NonAt);
        let hs = if ul < k {
            ul + 1
        } else {
            0
        };
        (hs, k, k)
    };
    assert(remote_host(url@) == Some((hs as int, he as int, ps as int)));
    let h = chars_of("github.com");
    let found = sub_chars(&u, hs, he);
    if !chars_equal(&found, &h) {
        return None;
    }
    let p = sub_chars(&u, ps, n);
    assert(p@ =~= u@.skip(ps as int));
    assert(after_host(url@) == Some(p@));
    let s1 = leading_count(&p, CharClass::Separator);
    let t = sub_chars(&p, s1, p.len());
    assert(t@ =~= p@.skip(s1 as int));
    let s2 = leading_count(&t, CharClass::Space);
    let t2 = sub_chars(&t, s2, t.len());
    assert(t2@ =~= t@.skip(s2 as int));
    if t2.len() == 0 {
        return None;
    }
    let w = leading_count(&t2, CharClass::NonSpace);
    let tok = sub_chars(&t2, 0, w);
    assert(tok@ =~= t2@.take(w as int));
    let git = chars_of(".git");
    let path = if tok.len() >= 4 {
        let tail = sub_chars(&tok, tok.len() - 4, tok.len());
        assert(tail@ =~= tok@.skip(tok.len() - 4));
        if chars_equal(&tail, &git) {
            let x = sub_chars(&tok, 0, tok.len() - 4);
            assert(x@ =~= tok@.take(tok.len() - 4));
            x
        } else {
            tok
        }
    } else {
        tok
    };
    assert(path@ == without_git_suffix(tok@));
    let k = leading_count(&path, CharClass::NonSlash);
    if k == path.len() {
        return None;
    }
    let owner = sub_chars(&path, 0, k);
    assert(owner@ =~= path@.take(k as int));
    let rest = sub_chars(&path, k + 1, path.len());
    assert(rest@ =~= path@.skip(k + 1));
    let m = leading_count(&rest, CharClass::NameChar);
    let name = sub_chars(&rest, 0, m);
    assert(name@ =~= rest@.take(m as int));
    if owner.len() == 0 || name.len() == 0 {
        return None;
    }
    Some(GhRepo { owner: string_of(&owner), name: string_of(&name) })
}

/// The PR number a bead's `external_ref` names: `gh-` followed by what
/// `str::parse::<u32>` accepts.
pub open spec fn pr_number_of(external_ref: Option<Seq<char>>) -> Option<u32> {
    match external_ref {
        None => None,
        Some(s) => if s.len() >= 3 && s.take(3) == "gh-"@ {
            parsed_u32(s.skip(3))
        } else {
            None
        },
    }
}

pub open spec fn opt_view(s: Option<&str>) -> Option<Seq<char>> {
    match s {
        Some(x) => Some(x@),
        None => None,
    }
}

/// An optional string taken as an optional character sequence.
pub open spec fn opt_string_view(o: Option<String>) -> Option<Seq<char>> {
    match o {
        Some(s) => Some(s@),
        None => None,
    }
}

/// Extracts a GitHub PR number from a bead's `external_ref` field when
/// it matches the `gh-<N>` convention. Returns None for other ref shapes
/// (jira-*, linear-*), empty refs, or unparseable input.
pub fn parse_pr_number(external_ref: Option<&str>) -> (r: Option<u32>)
    ensures
        r == pr_number_of(opt_view(external_ref)),
{
    match external_ref {
        None => None,
        Some(s) => {
            let v = chars_of(s);
            let prefix = chars_of("gh-");
            proof {
                reveal_strlit("gh-");
            }
            if v.len() < 3 {
                return None;
            }
            let head = sub_chars(&v, 0, 3);
            assert(head@ =~= v@.take(3));
            if !chars_equal(&head, &prefix) {
                return None;
            }
            let digits = sub_chars(&v, 3, v.len());
            assert(digits@ =~= v@.skip(3));
            parse_u32(&digits)
        },
    }
}

/// The PR number round-trips: `gh-<n>` names PR `n`.
pub proof fn lemma_pr_ref_round_trip(n: u32)
    ensures
        pr_number_of(Some("gh-"@ + decimal(n as nat))) == Some(n),
{
    reveal_strlit("gh-");
    let s = "gh-"@ + decimal(n as nat);
    assert(s.take(3) =~= "gh-"@);
    assert(s.skip(3) =~= decimal(n as nat));
    crate::text::lemma_parse_decimal(n);
}

/// An owner or repository name that a remote URL carries through
/// unchanged: non-empty, without `/`, `:`, `?`, `#` or whitespace.
pub open spec fn plain_name(s: Seq<char>) -> bool {
    &&& s.len() > 0
    &&& forall|i: int|
        0 <= i < s.len() ==> {
            let c = #[trigger] s[i];
            c != '/' && c != ':' && c != '?' && c != '#' && !spec_is_whitespace(c)
        }
}

proof fn lemma_leading_exact(s: Seq<char>, k: CharClass, n: int)
    requires
        0 <= n <= s.len(),
        forall|i: int| 0 <= i < n ==> in_class(#[trigger] s[i], k),
        n < s.len() ==> !in_class(s[n], k),
    ensures
        leading(s, k) == n,
    decreases n,
{
    if n > 0 {
        let t = s.drop_first();
        assert forall|i: int| 0 <= i < n - 1 implies in_class(#[trigger] t[i], k) by {
            assert(t[i] == s[i + 1]);
        }
        if n - 1 < t.len() {
            assert(t[n - 1] == s[n]);
        }
        lemma_leading_exact(t, k, n - 1);
    }
}

/// `https://github.com/...` is a GitHub remote whose path starts at the
/// `/` after the host.
proof fn lemma_https_github(x: Seq<char>)
    ensures
        after_host("https://github.com/"@ + x) == Some(("https://github.com/"@ + x).skip(18)),
{
    reveal_strlit("https://github.com/");
    reveal_strlit("://");
    reveal_strlit("github.com");
    let u = "https://github.com/"@ + x;
    assert forall|i: int| 0 <= i < 19 implies #[trigger] u[i] == "https://github.com/"@[i] by {}
    assert forall|i: int| 0 <= i < 5 implies in_class(#[trigger] u[i], CharClass::SchemeChar) by {}
    assert(!in_class(u[5], CharClass::SchemeChar));
    lemma_leading_exact(u, CharClass::SchemeChar, 5);
    assert(u.subrange(5, 8) =~= "://"@);
    let r = u.skip(8);
    assert forall|i: int| 0 <= i < 11 implies #[trigger] r[i] == u[8 + i] by {}
    assert forall|i: int| 0 <= i < 10 implies in_class(#[trigger] r[i], CharClass::NonSlash) by {
        assert(r[i] == u[8 + i]);
    }
    assert(r[10] == '/');
    lemma_leading_exact(r, CharClass::NonSlash, 10);
    let auth = r.take(10);
    assert(auth =~= host());
    assert forall|i: int| 0 <= i < 10 implies in_class(#[trigger] auth[i], CharClass::NonAt) by {}
    lemma_leading_exact(auth, CharClass::NonAt, 10);
    assert forall|i: int| 0 <= i < 10 implies in_class(#[trigger] r[i], CharClass::HostChar) by {
        assert(r[i] == u[8 + i]);
    }
    lemma_leading_exact(r, CharClass::HostChar, 10);
    assert(remote_host(u) == Some((8int, 18int, 18int)));
    assert(u.subrange(8, 18) =~= host());
}

/// The owner and name come back out of a PR URL's path.
proof fn lemma_path_round_trip(o: Seq<char>, n: Seq<char>, d: Seq<char>)
    requires
        plain_name(o),
        plain_name(n),
        d.len() >= 1,
        all_digits(d),
    ensures
        parsed_path("/"@ + o + "/"@ + n + "/pull/"@ + d) == Some((o, n)),
{
    reveal_strlit("/");
    reveal_strlit("/pull/");
    reveal_strlit(".git");
    let lo = o.len() as int;
    let ln = n.len() as int;
    let ld = d.len() as int;
    let p = "/"@ + o + "/"@ + n + "/pull/"@ + d;
    // Leading separators: just the `/` before the owner.
    assert(p[0] == '/');
    assert(p[1] == o[0]);
    lemma_leading_exact(p, CharClass::Separator, 1);
    let t = p.skip(1);
    assert(t =~= o + "/"@ + n + "/pull/"@ + d);
    assert(t[0] == o[0]);
    lemma_leading_exact(t, CharClass::Space, 0);
    assert(t.skip(0) =~= t);
    // The whole rest is one word.
    assert forall|i: int| 0 <= i < t.len() implies in_class(#[trigger] t[i], CharClass::NonSpace) by {
        if i < lo {
            assert(t[i] == o[i]);
        } else if i == lo {
        } else if i < lo + 1 + ln {
            assert(t[i] == n[i - lo - 1]);
        } else if i < lo + 1 + ln + 6 {
            assert(t[i] == "/pull/"@[i - lo - 1 - ln]);
        } else {
            assert(t[i] == d[i - lo - 7 - ln]);
            assert(is_digit(d[i - lo - 7 - ln]));
        }
    }
    lemma_leading_exact(t, CharClass::NonSpace, t.len() as int);
    assert(t.take(t.len() as int) =~= t);
    // It ends in a digit, not `.git`.
    assert(t.last() == d.last());
    assert(is_digit(d[ld - 1]));
    assert(t.skip(t.len() - 4).last() == t.last());
    assert(without_git_suffix(t) == t);
    // The owner runs up to the first `/`.
    assert forall|i: int| 0 <= i < lo implies in_class(#[trigger] t[i], CharClass::NonSlash) by {
        assert(t[i] == o[i]);
    }
    assert(t[lo] == '/');
    lemma_leading_exact(t, CharClass::NonSlash, lo);
    assert(t.take(lo) =~= o);
    let rest = t.skip(lo + 1);
    assert(rest =~= n + "/pull/"@ + d);
    assert forall|i: int| 0 <= i < ln implies in_class(#[trigger] rest[i], CharClass::NameChar) by {
        assert(rest[i] == n[i]);
    }
    assert(rest[ln] == '/');
    lemma_leading_exact(rest, CharClass::NameChar, ln);
    assert(rest.take(ln) =~= n);
}

/// A PR URL names its repository: parsing the URL that `pr_url` builds
/// gives back the owner and name, for any owner and name that a remote URL
/// carries unchanged.
pub proof fn lemma_pr_url_round_trip(g: GhRepo, pr: u32)
    requires
        plain_name(g.owner@),
        plain_name(g.name@),
    ensures
        parsed_remote(g.spec_pr_url(pr)) == Some((g.owner@, g.name@)),
{
    reveal_strlit("/");
    reveal_strlit("/pull/");
    let o = g.owner@;
    let n = g.name@;
    let d = decimal(pr as nat);
    crate::text::lemma_decimal_facts(pr as nat);
    let x = o + "/"@ + n + "/pull/"@ + d;
    let u = g.spec_pr_url(pr);
    assert(u =~= "https://github.com/"@ + x);
    lemma_https_github(x);
    assert(u.skip(18) =~= "/"@ + o + "/"@ + n + "/pull/"@ + d) by {
        reveal_strlit("https://github.com/");
    }
    lemma_path_round_trip(o, n, d);
}

} // verus!
