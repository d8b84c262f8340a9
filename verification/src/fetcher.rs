//! Retrieval: locators, the scheme-keyed fetch registry, and the verified
//! path from a locator to sniffed raw content. The I/O itself lives in the
//! caller's `Fetch` implementations; everything around it is verified.
use vstd::prelude::*;

use crate::errors::QueryError;
use crate::filetype::{sniff, spec_sniff, Filetype};

verus! {

/// A fetch capability: hand back a format hint and the raw text behind a
/// locator, or a failure message. Implementations do the actual I/O, so
/// nothing is promised of the result; every caller handles every outcome.
pub trait Fetch {
    fn fetch(&self, locator: &str) -> Result<(Option<String>, String), String>;
}

/// A fetch capability serving fixed content: a fixed hint and text for any
/// locator. Useful for tests and for content already in hand.
pub struct StaticFetcher {
    pub hint: Option<String>,
    pub body: String,
}

impl Fetch for StaticFetcher {
    fn fetch(&self, _locator: &str) -> (r: Result<(Option<String>, String), String>)
    {
        let h: Option<String> = match &self.hint {
            Some(s) => Some(s.clone()),
            None => None,
        };
        Ok((h, self.body.clone()))
    }
}

/// The position of the first `://` in a locator, or -1.
pub open spec fn find_delim(s: Seq<char>) -> int
    decreases s.len(),
{
    if s.len() < 3 {
        -1
    } else if s[0] == ':' && s[1] == '/' && s[2] == '/' {
        0
    } else if find_delim(s.drop_first()) < 0 {
        -1
    } else {
        1 + find_delim(s.drop_first())
    }
}

pub open spec fn delim_at(s: Seq<char>, k: int) -> bool {
    0 <= k && k + 3 <= s.len() && s[k] == ':' && s[k + 1] == '/' && s[k + 2] == '/'
}

pub proof fn lemma_find_delim(s: Seq<char>, j: int)
    requires
        0 <= j <= s.len(),
        forall|k: int| 0 <= k < j ==> !delim_at(s, k),
        j < s.len() ==> delim_at(s, j),
    ensures
        j < s.len() ==> find_delim(s) == j,
        j == s.len() ==> find_delim(s) == -1,
    decreases s.len(),
{
    if s.len() > 0 {
        if delim_at(s, 0) {
            assert(j == 0);
        } else {
            if j == s.len() && s.len() < 3 {
            } else {
                assert(forall|k: int| 0 <= k < j - 1 ==> s.drop_first()[k] == s[k + 1]);
                assert(forall|k: int|
                    0 <= k < j - 1 && delim_at(s.drop_first(), k) ==> delim_at(s, k + 1));
                lemma_find_delim(s.drop_first(), if j == 0 {
                    0
                } else {
                    j - 1
                });
            }
        }
    }
}

/// The scheme before the first `://`; meaningful when the delimiter occurs.
pub open spec fn spec_scheme(loc: Seq<char>) -> Seq<char> {
    loc.take(find_delim(loc))
}

/// The scheme of a locator, located by its `://` delimiter.
pub fn split_scheme(loc: &str) -> (r: Option<String>)
    ensures
        match r {
            Some(s) => find_delim(loc@) >= 0 && s@ == spec_scheme(loc@),
            None => find_delim(loc@) < 0,
        },
{
    let v = crate::chars::str_to_chars(loc);
    let n = v.len();
    if n < 3 {
        proof {
            lemma_find_delim(v@, v@.len() as int);
        }
        return None;
    }
    let mut i: usize = 0;
    while i < n - 2
        invariant
            i <= n - 2,
            3 <= n == v@.len(),
            v@ == loc@,
            forall|k: int| 0 <= k < i ==> !delim_at(v@, k),
        decreases n - i,
    {
        if v[i] == ':' && v[i + 1] == '/' && v[i + 2] == '/' {
            proof {
                lemma_find_delim(v@, i as int);
            }
            let pre = crate::chars::subvec(&v, 0, i);
            let s = crate::chars::chars_to_string(&pre);
            proof {
                assert(s@ =~= spec_scheme(loc@));
            }
            return Some(s);
        }
        proof {
            assert(!delim_at(v@, i as int));
        }
        i = i + 1;
    }
    proof {
        assert forall|k: int| 0 <= k < v@.len() implies !delim_at(v@, k) by {
            if k + 3 > v@.len() {
                assert(!delim_at(v@, k));
            }
        }
        lemma_find_delim(v@, v@.len() as int);
    }
    None
}

/// A process's fetch registry: scheme names mapped to fetch capabilities,
/// seeded by its owner and grown by registration; a registration for a
/// known scheme overwrites it, and none is ever removed.
pub struct FetcherRegistry<F: Fetch> {
    entries: Vec<(String, F)>,
}

/// The first entry with this scheme, or -1.
pub open spec fn spec_sfind<F: Fetch>(entries: Seq<(Seq<char>, F)>, scheme: Seq<char>) -> int
    decreases entries.len(),
{
    if entries.len() == 0 {
        -1
    } else if entries[0].0 == scheme {
        0
    } else if spec_sfind(entries.drop_first(), scheme) < 0 {
        -1
    } else {
        1 + spec_sfind(entries.drop_first(), scheme)
    }
}

pub proof fn lemma_spec_sfind<F: Fetch>(entries: Seq<(Seq<char>, F)>, scheme: Seq<char>, j: int)
    requires
        0 <= j <= entries.len(),
        forall|k: int| 0 <= k < j ==> entries[k].0 != scheme,
        j < entries.len() ==> entries[j].0 == scheme,
    ensures
        j < entries.len() ==> spec_sfind(entries, scheme) == j,
        j == entries.len() ==> spec_sfind(entries, scheme) == -1,
    decreases entries.len(),
{
    if entries.len() > 0 {
        if entries[0].0 == scheme {
        } else {
            assert(forall|k: int|
                0 <= k < j - 1 ==> entries.drop_first()[k] == entries[k + 1]);
            lemma_spec_sfind(entries.drop_first(), scheme, if j == 0 {
                0
            } else {
                j - 1
            });
        }
    }
}

/// Where a scheme is found: in range, first, and on the found entry.
pub proof fn lemma_sfind_props<F: Fetch>(entries: Seq<(Seq<char>, F)>, scheme: Seq<char>)
    ensures
        spec_sfind(entries, scheme) >= 0 ==> spec_sfind(entries, scheme) < entries.len()
            && entries[spec_sfind(entries, scheme)].0 == scheme && (forall|k: int|
            0 <= k < spec_sfind(entries, scheme) ==> (#[trigger] entries[k]).0 != scheme),
        spec_sfind(entries, scheme) < 0 ==> (forall|k: int|
            0 <= k < entries.len() ==> (#[trigger] entries[k]).0 != scheme),
    decreases entries.len(),
{
    if entries.len() > 0 && entries[0].0 != scheme {
        lemma_sfind_props(entries.drop_first(), scheme);
        let d = entries.drop_first();
        let j = spec_sfind(d, scheme);
        if j >= 0 {
            assert(entries[1 + j] == d[j]);
            assert forall|k: int| 0 <= k < 1 + j implies (#[trigger] entries[k]).0 != scheme by {
                if k >= 1 {
                    assert(d[k - 1] == entries[k]);
                }
            }
        } else {
            assert forall|k: int|
                0 <= k < entries.len() implies (#[trigger] entries[k]).0 != scheme by {
                if k >= 1 {
                    assert(d[k - 1] == entries[k]);
                }
            }
        }
    }
}

impl<F: Fetch> FetcherRegistry<F> {
    /// The registered schemes and their capabilities, in registration order.
    pub closed spec fn spec_entries(self) -> Seq<(Seq<char>, F)> {
        self.entries@.map_values(|e: (String, F)| (e.0@, e.1))
    }

    /// An empty registry; the owner seeds the built-in schemes.
    pub fn new() -> (r: Self)
        ensures
            r.spec_entries() == Seq::<(Seq<char>, F)>::empty(),
    {
        let r = FetcherRegistry { entries: Vec::new() };
        proof {
            assert(r.spec_entries() =~= Seq::<(Seq<char>, F)>::empty());
        }
        r
    }

    /// Register a capability for a scheme, overwriting any entry that
    /// scheme already has.
    pub fn register(&mut self, scheme: String, fetcher: F)
        ensures
            ({
                let olde = old(self).spec_entries();
                let i = spec_sfind(olde, scheme@);
                if i >= 0 {
                    final(self).spec_entries() == olde.update(i, (scheme@, fetcher))
                } else {
                    final(self).spec_entries() == olde.push((scheme@, fetcher))
                }
            }),
    {
        let ghost olde = self.spec_entries();
        let sc = crate::chars::str_to_chars(scheme.as_str());
        let mut i: usize = 0;
        while i < self.entries.len()
            invariant
                i <= self.entries@.len(),
                olde == self.spec_entries(),
                olde == old(self).spec_entries(),
                sc@ == scheme@,
                forall|k: int| 0 <= k < i ==> olde[k].0 != scheme@,
        decreases self.entries@.len() - i,
        {
            let ec = crate::chars::str_to_chars(self.entries[i].0.as_str());
            if crate::chars::chars_eq(&ec, &sc) {
                proof {
                    assert(olde[i as int].0 == self.entries@[i as int].0@);
                    lemma_spec_sfind(olde, scheme@, i as int);
                }
                let ghost prev = self.entries@;
                self.entries.set(i, (scheme, fetcher));
                proof {
                    assert(self.spec_entries() =~= olde.update(i as int, (scheme@, fetcher)))
                        by {
                        assert forall|k: int|
                            0 <= k < self.entries@.len() implies self.spec_entries()[k]
                            == olde.update(i as int, (scheme@, fetcher))[k] by {
                            assert(self.spec_entries()[k] == (
                            self.entries@[k].0@,
                            self.entries@[k].1,
                            ));
                            if k != i {
                                assert(self.entries@[k] == prev[k]);
                                assert(olde[k] == (prev[k].0@, prev[k].1));
                            }
                        }
                    }
                }
                return ;
            }
            proof {
                assert(olde[i as int].0 == self.entries@[i as int].0@);
            }
            i = i + 1;
        }
        proof {
            lemma_spec_sfind(olde, scheme@, olde.len() as int);
        }
        let ghost prev = self.entries@;
        self.entries.push((scheme, fetcher));
        proof {
            assert(self.spec_entries() =~= olde.push((scheme@, fetcher))) by {
                assert forall|k: int|
                    0 <= k < self.entries@.len() implies self.spec_entries()[k] == olde.push(
                    (scheme@, fetcher),
                )[k] by {
                    assert(self.spec_entries()[k] == (self.entries@[k].0@, self.entries@[k].1));
                    if k < prev.len() {
                        assert(self.entries@[k] == prev[k]);
                        assert(olde[k] == (prev[k].0@, prev[k].1));
                    }
                }
            }
        }
    }

    /// The capability registered for a scheme.
    pub fn lookup(&self, scheme: &str) -> (r: Option<&F>)
        ensures
            match r {
                Some(f) => spec_sfind(self.spec_entries(), scheme@) >= 0 && *f
                    == self.spec_entries()[spec_sfind(self.spec_entries(), scheme@)].1,
                None => spec_sfind(self.spec_entries(), scheme@) == -1,
            },
    {
        let sc = crate::chars::str_to_chars(scheme);
        let mut i: usize = 0;
        while i < self.entries.len()
            invariant
                i <= self.entries@.len(),
                sc@ == scheme@,
                forall|k: int| 0 <= k < i ==> self.spec_entries()[k].0 != scheme@,
            decreases self.entries@.len() - i,
        {
            let ec = crate::chars::str_to_chars(self.entries[i].0.as_str());
            if crate::chars::chars_eq(&ec, &sc) {
                proof {
                    assert(self.spec_entries()[i as int].0 == self.entries@[i as int].0@);
                    lemma_spec_sfind(self.spec_entries(), scheme@, i as int);
                }
                return Some(&self.entries[i].1);
            }
            proof {
                assert(self.spec_entries()[i as int].0 == self.entries@[i as int].0@);
            }
            i = i + 1;
        }
        proof {
            lemma_spec_sfind(self.spec_entries(), scheme@, self.spec_entries().len() as int);
        }
        None
    }
}

/// Fetch a locator's content through the registry and classify it: the
/// scheme before `://` picks the capability, the capability fetches, and
/// the sniffer classifies what came back. A locator without `://`, and one
/// whose scheme has no registered capability, is a locator error; a failed
/// fetch is a fetch error.
pub fn retrieve_data<F: Fetch>(registry: &FetcherRegistry<F>, source: &str) -> (r: Result<
    (Filetype, String),
    QueryError,
>)
    ensures
        find_delim(source@) < 0 ==> (r matches Err(e) && e is Locator),
        find_delim(source@) >= 0 && spec_sfind(registry.spec_entries(), spec_scheme(source@))
            < 0 ==> (r matches Err(e) && e is Locator),
        find_delim(source@) >= 0 && spec_sfind(registry.spec_entries(), spec_scheme(source@))
            >= 0 ==> (r is Ok || (r matches Err(e) && e is Fetch)),
        r matches Ok((ft, text)) ==> find_delim(source@) >= 0 && spec_sfind(
            registry.spec_entries(),
            spec_scheme(source@),
        ) >= 0 && exists|hint: Option<Seq<char>>|
            ft == spec_sniff(hint, source@),
        r matches Err(e) ==> e is Locator || e is Fetch,
{
    let scheme = match split_scheme(source) {
        None => {
            return Err(QueryError::Locator("protocol is not specified in source".to_owned()));
        },
        Some(s) => s,
    };
    let fetcher = match registry.lookup(scheme.as_str()) {
        None => {
            return Err(QueryError::Locator("no fetcher registered for scheme".to_owned()));
        },
        Some(f) => f,
    };
    match fetcher.fetch(source) {
        Err(msg) => Err(QueryError::Fetch(msg)),
        Ok((hint, text)) => {
            let ft = match &hint {
                Some(h) => sniff(Some(h.as_str()), source),
                None => sniff(None, source),
            };
            proof {
                let hv: Option<Seq<char>> = match hint {
                    Some(h) => Some(h@),
                    None => None,
                };
                assert(ft == spec_sniff(hv, source@));
            }
            Ok((ft, text))
        },
    }
}

} // verus!
