//! Membership of a host name in a whitelist of domains.
//!
//! A whitelist entry is either an exact domain or a wildcard `*.<suffix>`.
//! Entries and queried names are lowercased (see [`crate::text::lower_of`])
//! before they are compared, so matching is case-insensitive. A wildcard
//! matches any name that ends in `.<suffix>`; it does not match the bare
//! suffix itself.

use vstd::prelude::*;
use vstd::string::StrSliceExecFns;

use crate::text::lower_of;
use crate::text::lowercase;
use crate::text::str_eq;

verus! {

/// A lowercased entry that goes into the exact list: non-empty and not of
/// the wildcard form.
pub open spec fn is_exact_entry(l: Seq<char>) -> bool {
    l.len() > 0 && !(l.len() >= 2 && l[0] == '*' && l[1] == '.')
}

/// A lowercased entry of the wildcard form `*.<suffix>` with a non-empty
/// suffix.
pub open spec fn is_wild_entry(l: Seq<char>) -> bool {
    l.len() > 2 && l[0] == '*' && l[1] == '.'
}

/// The suffix a wildcard entry contributes.
pub open spec fn wild_suffix(l: Seq<char>) -> Seq<char> {
    l.subrange(2, l.len() as int)
}

/// The exact list derived from `domains`: each entry lowercased, wildcard
/// and empty entries left out, input order kept.
pub open spec fn spec_exact_of(domains: Seq<Seq<char>>) -> Seq<Seq<char>>
    decreases domains.len(),
{
    if domains.len() == 0 {
        Seq::empty()
    } else {
        let rest = spec_exact_of(domains.drop_last());
        let l = lower_of(domains.last());
        if is_exact_entry(l) {
            rest.push(l)
        } else {
            rest
        }
    }
}

/// The wildcard suffixes derived from `domains`, in input order.
pub open spec fn spec_wilds_of(domains: Seq<Seq<char>>) -> Seq<Seq<char>>
    decreases domains.len(),
{
    if domains.len() == 0 {
        Seq::empty()
    } else {
        let rest = spec_wilds_of(domains.drop_last());
        let l = lower_of(domains.last());
        if is_wild_entry(l) {
            rest.push(wild_suffix(l))
        } else {
            rest
        }
    }
}

/// A lowercased name matches a wildcard suffix when it is strictly longer,
/// ends with the suffix, and the character just before the suffix is a dot.
pub open spec fn wildcard_matches(name: Seq<char>, suffix: Seq<char>) -> bool {
    &&& name.len() > suffix.len()
    &&& name.subrange(name.len() - suffix.len(), name.len() as int) == suffix
    &&& name[name.len() - suffix.len() - 1] == '.'
}

/// Sorted by character length, longest first.
pub open spec fn sorted_by_len_desc(ws: Seq<Seq<char>>) -> bool {
    forall|i: int, j: int| 0 <= i <= j < ws.len() ==> #[trigger] ws[i].len() >= #[trigger] ws[j].len()
}

/// Decides whether a host name is covered by a whitelist of exact domains
/// and wildcard suffixes.
#[derive(Debug, Clone)]
pub struct DomainMatcher {
    exact: Vec<String>,
    wildcards: Vec<String>,
}

impl DomainMatcher {
    /// The lowercased exact entries, in input order.
    pub closed spec fn exact_view(self) -> Seq<Seq<char>> {
        self.exact.deep_view()
    }

    /// The lowercased wildcard suffixes.
    pub closed spec fn wilds_view(self) -> Seq<Seq<char>> {
        self.wildcards.deep_view()
    }

    /// How a matcher relates to the entry list it was built from: the exact
    /// list is kept as is, and the wildcard list holds the same suffixes,
    /// ordered longest first.
    pub open spec fn built_from(self, domains: Seq<Seq<char>>) -> bool {
        &&& self.exact_view() == spec_exact_of(domains)
        &&& (forall|x: Seq<char>|
            self.wilds_view().contains(x) <==> #[trigger] spec_wilds_of(domains).contains(x))
        &&& sorted_by_len_desc(self.wilds_view())
    }

    /// Whether the already-lowercased name `l` is covered.
    pub open spec fn matches_lowered(self, l: Seq<char>) -> bool {
        self.exact_view().contains(l) || exists|i: int|
            0 <= i < self.wilds_view().len() && wildcard_matches(l, #[trigger] self.wilds_view()[i])
    }

    /// Builds a matcher from whitelist entries. Entries are lowercased;
    /// `*.`-prefixed entries with a non-empty suffix become wildcards,
    /// other non-empty entries are matched exactly, and the rest are
    /// dropped.
    pub fn new(domains: Vec<String>) -> (m: DomainMatcher)
        ensures
            m.built_from(domains.deep_view()),
    {
        let ghost ds = domains.deep_view();
        let mut exact: Vec<String> = Vec::new();
        let mut wildcards: Vec<String> = Vec::new();
        let n = domains.len();
        let mut k: usize = 0;
        proof {
            assert(ds.subrange(0, 0) =~= Seq::<Seq<char>>::empty());
        }
        while k < n
            invariant
                k <= n,
                n == domains.len(),
                ds == domains.deep_view(),
                ds.len() == n,
                exact.deep_view() == spec_exact_of(ds.subrange(0, k as int)),
                wildcards.deep_view() == spec_wilds_of(ds.subrange(0, k as int)),
            decreases n - k,
        {
            let ghost prefix = ds.subrange(0, k as int);
            let l = lowercase(domains[k].as_str());
            let ll = l.as_str().unicode_len();
            let is_wild = ll >= 2 && l.as_str().get_char(0) == '*' && l.as_str().get_char(1)
                == '.';
            if is_wild {
                if ll > 2 {
                    let suffix = l.as_str().substring_char(2, ll).to_owned();
                    wildcards.push(suffix);
                }
            } else if ll > 0 {
                exact.push(l);
            }
            proof {
                let next = ds.subrange(0, k as int + 1);
                assert(next.drop_last() =~= prefix);
                assert(next.last() == ds[k as int]);
                assert(exact.deep_view() =~= spec_exact_of(next));
                assert(wildcards.deep_view() =~= spec_wilds_of(next));
            }
            k = k + 1;
        }
        proof {
            assert(ds.subrange(0, n as int) =~= ds);
        }
        let sorted = sort_by_len_desc(wildcards);
        DomainMatcher { exact, wildcards: sorted }
    }

    /// Whether `domain`, compared case-insensitively, is covered by the
    /// whitelist.
    pub fn matches(&self, domain: &str) -> (b: bool)
        ensures
            b == self.matches_lowered(lower_of(domain@)),
    {
        let l = lowercase(domain);
        let mut i: usize = 0;
        let ne = self.exact.len();
        while i < ne
            invariant
                i <= ne,
                ne == self.exact.len(),
                l@ == lower_of(domain@),
                forall|j: int| 0 <= j < i ==> self.exact_view()[j] != l@,
            decreases ne - i,
        {
            if str_eq(self.exact[i].as_str(), l.as_str()) {
                assert(self.exact_view()[i as int] == l@);
                assert(self.exact_view().contains(l@));
                return true;
            }
            i = i + 1;
        }
        assert(!self.exact_view().contains(l@));
        let mut w: usize = 0;
        let nw = self.wildcards.len();
        while w < nw
            invariant
                w <= nw,
                nw == self.wildcards.len(),
                l@ == lower_of(domain@),
                !self.exact_view().contains(l@),
                forall|j: int| 0 <= j < w ==> !wildcard_matches(l@, #[trigger] self.wilds_view()[j]),
            decreases nw - w,
        {
            if wildcard_match_exec(&l, &self.wildcards[w]) {
                assert(self.wilds_view()[w as int] == self.wildcards@[w as int]@);
                assert(wildcard_matches(l@, self.wilds_view()[w as int]));
                return true;
            }
            w = w + 1;
        }
        false
    }
}

/// Executable check of [`wildcard_matches`].
fn wildcard_match_exec(name: &String, suffix: &String) -> (b: bool)
    ensures
        b == wildcard_matches(name@, suffix@),
{
    let nl = name.as_str().unicode_len();
    let sl = suffix.as_str().unicode_len();
    if nl <= sl {
        return false;
    }
    let tail = name.as_str().substring_char(nl - sl, nl);
    if !str_eq(tail, suffix.as_str()) {
        return false;
    }
    let c = name.as_str().get_char(nl - sl - 1);
    c == '.'
}

/// Membership in a sequence after inserting one element.
pub proof fn lemma_contains_insert<A>(s: Seq<A>, i: int, v: A)
    requires
        0 <= i <= s.len(),
    ensures
        forall|x: A| s.insert(i, v).contains(x) <==> s.contains(x) || x == v,
{
    assert forall|x: A| s.insert(i, v).contains(x) <==> s.contains(x) || x == v by {
        let t = s.insert(i, v);
        if t.contains(x) {
            let j = choose|j: int| 0 <= j < t.len() && t[j] == x;
            if j < i {
                assert(s[j] == x);
            } else if j > i {
                assert(s[j - 1] == x);
            }
        }
        if s.contains(x) {
            let j = choose|j: int| 0 <= j < s.len() && s[j] == x;
            if j < i {
                assert(t[j] == x);
            } else {
                assert(t[j + 1] == x);
            }
        }
        if x == v {
            assert(t[i] == x);
        }
    }
}

/// Membership in a sequence after pushing one element.
proof fn lemma_contains_push<A>(s: Seq<A>, v: A)
    ensures
        forall|x: A| s.push(v).contains(x) <==> s.contains(x) || x == v,
{
    assert forall|x: A| s.push(v).contains(x) <==> s.contains(x) || x == v by {
        let t = s.push(v);
        if t.contains(x) {
            let j = choose|j: int| 0 <= j < t.len() && t[j] == x;
            if j < s.len() {
                assert(s[j] == x);
            }
        }
        if s.contains(x) {
            let j = choose|j: int| 0 <= j < s.len() && s[j] == x;
            assert(t[j] == x);
        }
        if x == v {
            assert(t[s.len() as int] == x);
        }
    }
}

/// The first position in `out` whose element is strictly shorter than `sl`
/// characters, or the length of `out` when there is none.
fn find_insert_pos(out: &Vec<String>, sl: usize) -> (idx: usize)
    ensures
        idx <= out.len(),
        forall|j: int| 0 <= j < idx ==> #[trigger] out.deep_view()[j].len() >= sl,
        idx < out.len() ==> out.deep_view()[idx as int].len() < sl,
{
    let m = out.len();
    let mut idx: usize = 0;
    while idx < m
        invariant
            idx <= m,
            m == out.len(),
            forall|j: int| 0 <= j < idx ==> #[trigger] out.deep_view()[j].len() >= sl,
        decreases m - idx,
    {
        if out[idx].as_str().unicode_len() < sl {
            return idx;
        }
        idx = idx + 1;
    }
    idx
}

/// Sorts the suffix list longest first, keeping exactly the same elements.
fn sort_by_len_desc(input: Vec<String>) -> (out: Vec<String>)
    ensures
        sorted_by_len_desc(out.deep_view()),
        forall|x: Seq<char>| out.deep_view().contains(x) <==> input.deep_view().contains(x),
{
    let ghost iv = input.deep_view();
    let mut out: Vec<String> = Vec::new();
    let n = input.len();
    let mut k: usize = 0;
    while k < n
        invariant
            k <= n,
            n == input.len(),
            iv == input.deep_view(),
            sorted_by_len_desc(out.deep_view()),
            forall|x: Seq<char>|
                out.deep_view().contains(x) <==> #[trigger] iv.subrange(0, k as int).contains(x),
        decreases n - k,
    {
        let ghost before = out.deep_view();
        let s = &input[k];
        let sl = s.as_str().unicode_len();
        proof {
            assert(s@ == iv[k as int]);
        }
        let idx = find_insert_pos(&out, sl);
        let ghost di = idx as int;
        out.insert(idx, s.clone());
        proof {
            let after = out.deep_view();
            assert(after =~= before.insert(di, iv[k as int]));
            lemma_contains_insert(before, di, iv[k as int]);
            assert(iv.subrange(0, k as int + 1) =~= iv.subrange(0, k as int).push(iv[k as int]));
            lemma_contains_push(iv.subrange(0, k as int), iv[k as int]);
            assert forall|i: int, j: int| 0 <= i <= j < after.len() implies #[trigger] after[i].len()
                >= #[trigger] after[j].len() by {
                if i < di && j < di {
                    assert(after[i] == before[i] && after[j] == before[j]);
                } else if i < di && j == di {
                    assert(before[i].len() >= sl);
                } else if i < di && j > di {
                    assert(after[i] == before[i] && after[j] == before[j - 1]);
                } else if i == di && j == di {
                } else if i == di && j > di {
                    assert(after[j] == before[j - 1]);
                    assert(before[di].len() < sl);
                    assert(before[j - 1].len() <= before[di].len());
                } else {
                    assert(after[i] == before[i - 1] && after[j] == before[j - 1]);
                }
            }
            assert forall|x: Seq<char>| after.contains(x) <==> #[trigger] iv.subrange(
                0,
                k as int + 1,
            ).contains(x) by {
                assert(after.contains(x) <==> before.contains(x) || x == iv[k as int]);
                assert(before.contains(x) <==> iv.subrange(0, k as int).contains(x));
                assert(iv.subrange(0, k as int + 1).contains(x) <==> iv.subrange(
                    0,
                    k as int,
                ).contains(x) || x == iv[k as int]);
            }
        }
        k = k + 1;
    }
    proof {
        assert(iv.subrange(0, n as int) =~= iv);
    }
    out
}

/// A name that stands, lowercased, among the whitelist entries as an exact
/// entry is matched.
pub proof fn lemma_exact_entry_matches(m: DomainMatcher, domains: Seq<Seq<char>>, d: Seq<char>, i: int)
    requires
        m.built_from(domains),
        0 <= i < domains.len(),
        lower_of(domains[i]) == lower_of(d),
        is_exact_entry(lower_of(domains[i])),
    ensures
        m.matches_lowered(lower_of(d)),
{
    lemma_spec_exact_of_contains(domains, i);
}

/// A wildcard entry `*.<suffix>` matches every name of the form
/// `<label>.<suffix>` with a non-empty label (all compared lowercased).
pub proof fn lemma_wildcard_entry_matches(
    m: DomainMatcher,
    domains: Seq<Seq<char>>,
    d: Seq<char>,
    a: Seq<char>,
    i: int,
)
    requires
        m.built_from(domains),
        0 <= i < domains.len(),
        is_wild_entry(lower_of(domains[i])),
        a.len() > 0,
        lower_of(d) == a + seq!['.'] + wild_suffix(lower_of(domains[i])),
    ensures
        m.matches_lowered(lower_of(d)),
{
    let s = wild_suffix(lower_of(domains[i]));
    let l = lower_of(d);
    lemma_spec_wilds_of_contains(domains, i);
    assert(m.wilds_view().contains(s));
    let j = choose|j: int| 0 <= j < m.wilds_view().len() && m.wilds_view()[j] == s;
    assert(l.len() == a.len() + 1 + s.len());
    assert(l.subrange(l.len() - s.len(), l.len() as int) =~= s);
    assert(l[l.len() - s.len() - 1] == '.');
    assert(wildcard_matches(l, m.wilds_view()[j]));
}

/// Against a whitelist holding only the wildcard `*.<suffix>`, the bare
/// suffix itself is not matched.
pub proof fn lemma_wildcard_rejects_bare_suffix(m: DomainMatcher, e: Seq<char>, d: Seq<char>)
    requires
        m.built_from(seq![e]),
        is_wild_entry(lower_of(e)),
        lower_of(d) == wild_suffix(lower_of(e)),
    ensures
        !m.matches_lowered(lower_of(d)),
{
    let ds = seq![e];
    let s = wild_suffix(lower_of(e));
    assert(ds.drop_last() =~= Seq::<Seq<char>>::empty());
    assert(ds.last() == e);
    assert(spec_exact_of(Seq::<Seq<char>>::empty()) =~= Seq::<Seq<char>>::empty());
    assert(spec_wilds_of(Seq::<Seq<char>>::empty()) =~= Seq::<Seq<char>>::empty());
    assert(!is_exact_entry(lower_of(e)));
    assert(spec_exact_of(ds) =~= Seq::<Seq<char>>::empty());
    assert(spec_wilds_of(ds) =~= seq![s]);
    assert(!m.exact_view().contains(lower_of(d)));
    assert forall|i: int| 0 <= i < m.wilds_view().len() implies !wildcard_matches(
        lower_of(d),
        m.wilds_view()[i],
    ) by {
        assert(m.wilds_view().contains(m.wilds_view()[i]));
        assert(spec_wilds_of(ds).contains(m.wilds_view()[i]));
        let j = choose|j: int|
            0 <= j < spec_wilds_of(ds).len() && spec_wilds_of(ds)[j] == m.wilds_view()[i];
        assert(m.wilds_view()[i] == s);
        assert(lower_of(d).len() == s.len());
    }
}

/// Every exact entry of the list stands in [`spec_exact_of`].
proof fn lemma_spec_exact_of_contains(domains: Seq<Seq<char>>, i: int)
    requires
        0 <= i < domains.len(),
        is_exact_entry(lower_of(domains[i])),
    ensures
        spec_exact_of(domains).contains(lower_of(domains[i])),
    decreases domains.len(),
{
    if i == domains.len() - 1 {
        assert(domains.last() == domains[i]);
        assert(spec_exact_of(domains).last() == lower_of(domains[i]));
    } else {
        lemma_spec_exact_of_contains(domains.drop_last(), i);
        let rest = spec_exact_of(domains.drop_last());
        assert(domains.drop_last()[i] == domains[i]);
        let j = choose|j: int| 0 <= j < rest.len() && rest[j] == lower_of(domains[i]);
        if is_exact_entry(lower_of(domains.last())) {
            assert(spec_exact_of(domains)[j] == lower_of(domains[i]));
        } else {
            assert(spec_exact_of(domains)[j] == lower_of(domains[i]));
        }
    }
}

/// Every wildcard entry's suffix stands in [`spec_wilds_of`].
proof fn lemma_spec_wilds_of_contains(domains: Seq<Seq<char>>, i: int)
    requires
        0 <= i < domains.len(),
        is_wild_entry(lower_of(domains[i])),
    ensures
        spec_wilds_of(domains).contains(wild_suffix(lower_of(domains[i]))),
    decreases domains.len(),
{
    if i == domains.len() - 1 {
        assert(domains.last() == domains[i]);
        assert(spec_wilds_of(domains).last() == wild_suffix(lower_of(domains[i])));
    } else {
        lemma_spec_wilds_of_contains(domains.drop_last(), i);
        let rest = spec_wilds_of(domains.drop_last());
        assert(domains.drop_last()[i] == domains[i]);
        let j = choose|j: int| 0 <= j < rest.len() && rest[j] == wild_suffix(lower_of(domains[i]));
        assert(spec_wilds_of(domains)[j] == wild_suffix(lower_of(domains[i])));
    }
}

} // verus!
