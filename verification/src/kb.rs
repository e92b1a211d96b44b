//! The knowledge base: an ordered sequence of sections, each a bundle of
//! search keywords plus optional key/value entries and command entries, and
//! the exact-match keyword search over it.

use vstd::prelude::*;
use vstd::string::*;

verus! {

/// One reference bundle. `keys` and `commands` may be absent, meaning the
/// section has no entries of that kind.
#[derive(Debug)]
pub struct Section {
    pub keywords: Vec<String>,
    pub keys: Option<Vec<(String, String)>>,
    pub commands: Option<Vec<(String, String)>>,
}

/// Mathematical model of a section: plain character sequences.
#[verifier::ext_equal]
pub struct SectionModel {
    pub keywords: Seq<Seq<char>>,
    pub keys: Option<Seq<(Seq<char>, Seq<char>)>>,
    pub commands: Option<Seq<(Seq<char>, Seq<char>)>>,
}

impl DeepView for Section {
    type V = SectionModel;

    open spec fn deep_view(&self) -> SectionModel {
        SectionModel {
            keywords: self.keywords.deep_view(),
            keys: self.keys.deep_view(),
            commands: self.commands.deep_view(),
        }
    }
}

/// The whole persisted collection of sections, loaded once per invocation
/// and held immutably for the run.
#[derive(Debug)]
pub struct Data {
    pub sections: Vec<Section>,
}

impl DeepView for Data {
    type V = Seq<SectionModel>;

    open spec fn deep_view(&self) -> Seq<SectionModel> {
        self.sections.deep_view()
    }
}

/// A sequence of recorded indices as mathematical integers.
pub open spec fn as_ints(s: Seq<usize>) -> Seq<int> {
    s.map_values(|u: usize| u as int)
}

/// The indices recorded for the section at index `i` against the keyword
/// list: `i` once per keyword the section contains, in keyword order.
pub open spec fn section_hits(m: SectionModel, kws: Seq<Seq<char>>, i: int) -> Seq<int>
    decreases kws.len(),
{
    if kws.len() == 0 {
        Seq::empty()
    } else {
        (if m.keywords.contains(kws[0]) {
            seq![i]
        } else {
            Seq::empty()
        }) + section_hits(m, kws.skip(1), i)
    }
}

/// All recorded indices from section `i` on, section-major: sections in
/// knowledge-base order, and within a section the keywords in argument
/// order. A section is recorded once per keyword that matches it; nothing
/// is deduplicated.
pub open spec fn search_hits_from(ms: Seq<SectionModel>, kws: Seq<Seq<char>>, i: int) -> Seq<int>
    decreases ms.len() - i,
{
    if i < 0 || i >= ms.len() {
        Seq::empty()
    } else {
        section_hits(ms[i], kws, i) + search_hits_from(ms, kws, i + 1)
    }
}

/// What the keyword search returns over the whole knowledge base.
pub open spec fn spec_search(ms: Seq<SectionModel>, kws: Seq<Seq<char>>) -> Seq<int> {
    search_hits_from(ms, kws, 0)
}

/// Exact string membership in a keyword list; comparison is case-sensitive,
/// whole-string equality only.
fn contains_string(v: &Vec<String>, w: &String) -> (r: bool)
    ensures
        r == v.deep_view().contains(w@),
{
    let ghost dv = v.deep_view();
    let n = v.len();
    let mut j: usize = 0;
    while j < n
        invariant
            n == v@.len(),
            dv == v.deep_view(),
            0 <= j <= n,
            forall|k: int| 0 <= k < j ==> dv[k] != w@,
        decreases n - j,
    {
        if *(&v[j]) == *w {
            assert(dv[j as int] == w@);
            assert(dv.contains(w@));
            return true;
        }
        j = j + 1;
    }
    assert(!dv.contains(w@));
    false
}

/// Stepping the per-section hit sequence forward by one keyword.
proof fn lemma_section_hits_step(m: SectionModel, kws: Seq<Seq<char>>, i: int, j: int)
    requires
        0 <= j < kws.len(),
    ensures
        section_hits(m, kws.skip(j), i) == (if m.keywords.contains(kws[j]) {
            seq![i]
        } else {
            Seq::<int>::empty()
        }) + section_hits(m, kws.skip(j + 1), i),
{
    assert(kws.skip(j)[0] == kws[j]);
    assert(kws.skip(j).skip(1) =~= kws.skip(j + 1));
    assert(section_hits(m, kws.skip(j), i) == (if m.keywords.contains(kws.skip(j)[0]) {
        seq![i]
    } else {
        Seq::<int>::empty()
    }) + section_hits(m, kws.skip(j).skip(1), i));
}

impl Data {
    /// Records, section-major, the index of every section containing a
    /// searched keyword, once per matching keyword.
    pub fn search_for_keywords(&self, keywords: &Vec<String>) -> (r: Vec<usize>)
        ensures
            as_ints(r@) == spec_search(self.deep_view(), keywords.deep_view()),
            forall|k: int| 0 <= k < r@.len() ==> (r@[k] as int) < self.sections@.len(),
    {
        let ghost ms = self.deep_view();
        let ghost kws = keywords.deep_view();
        let mut results: Vec<usize> = Vec::new();
        let n = self.sections.len();
        let mut i: usize = 0;
        while i < n
            invariant
                n == self.sections@.len(),
                ms == self.deep_view(),
                kws == keywords.deep_view(),
                0 <= i <= n,
                spec_search(ms, kws) == as_ints(results@) + search_hits_from(ms, kws, i as int),
                forall|k: int| 0 <= k < results@.len() ==> (results@[k] as int) < n,
            decreases n - i,
        {
            let sect = &self.sections[i];
            proof {
                assert(sect.deep_view() == ms[i as int]);
                assert(search_hits_from(ms, kws, i as int) == section_hits(ms[i as int], kws, i as int)
                    + search_hits_from(ms, kws, i as int + 1));
                assert(kws.skip(0) =~= kws);
            }
            let ghost entry = results@;
            let m = keywords.len();
            let mut j: usize = 0;
            while j < m
                invariant
                    n == self.sections@.len(),
                    ms == self.deep_view(),
                    kws == keywords.deep_view(),
                    0 <= i < n,
                    0 <= j <= m,
                    m == kws.len(),
                    sect.deep_view() == ms[i as int],
                    spec_search(ms, kws) == (as_ints(results@) + section_hits(
                        ms[i as int],
                        kws.skip(j as int),
                        i as int,
                    )) + search_hits_from(ms, kws, i as int + 1),
                    forall|k: int| 0 <= k < results@.len() ==> (results@[k] as int) < n,
                decreases m - j,
            {
                let ghost pre = results@;
                proof {
                    lemma_section_hits_step(ms[i as int], kws, i as int, j as int);
                }
                if contains_string(&sect.keywords, &keywords[j]) {
                    results.push(i);
                    proof {
                        assert(ms[i as int].keywords.contains(kws[j as int]));
                        assert(as_ints(results@) + section_hits(ms[i as int], kws.skip(j as int + 1), i as int)
                            =~= as_ints(pre) + section_hits(ms[i as int], kws.skip(j as int), i as int));
                    }
                } else {
                    proof {
                        assert(!ms[i as int].keywords.contains(kws[j as int]));
                        assert(as_ints(results@) + section_hits(ms[i as int], kws.skip(j as int + 1), i as int)
                            =~= as_ints(pre) + section_hits(ms[i as int], kws.skip(j as int), i as int));
                    }
                }
                j = j + 1;
            }
            proof {
                assert(kws.skip(m as int) =~= Seq::<Seq<char>>::empty());
                assert(section_hits(ms[i as int], kws.skip(m as int), i as int) =~= Seq::<int>::empty());
                assert((as_ints(results@) + Seq::<int>::empty()) =~= as_ints(results@));
            }
            i = i + 1;
        }
        proof {
            assert(search_hits_from(ms, kws, n as int) =~= Seq::<int>::empty());
            assert((as_ints(results@) + Seq::<int>::empty()) =~= as_ints(results@));
        }
        results
    }
}

/// The seed knowledge base written when no persisted store exists: one
/// section keyed by "iq" that documents the `--help` command.
pub open spec fn seed_model() -> Seq<SectionModel> {
    seq![
        SectionModel {
            keywords: seq!["iq"@],
            keys: None,
            commands: Some(seq![("--help"@, "shows help menu"@)]),
        },
    ]
}

pub fn generate_default_data() -> (r: Data)
    ensures
        r.deep_view() == seed_model(),
{
    let mut keywords: Vec<String> = Vec::new();
    keywords.push(String::from_str("iq"));
    let mut commands: Vec<(String, String)> = Vec::new();
    commands.push((String::from_str("--help"), String::from_str("shows help menu")));
    let iq = Section { keywords, keys: None, commands: Some(commands) };
    let mut sections: Vec<Section> = Vec::new();
    sections.push(iq);
    let r = Data { sections };
    proof {
        assert(r.deep_view() =~~= seed_model());
    }
    r
}

} // verus!
