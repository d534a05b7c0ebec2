//! The sites of a profile: a map from host to site that keeps the order in
//! which hosts were first inserted.

use crate::model::{first_index, lemma_first_index};
use crate::site::{Site, SiteView};
use vstd::prelude::*;

verus! {

/// One entry of a site map, as plain values.
pub struct EntryView {
    pub host: Seq<char>,
    pub site: SiteView,
}

/// No host occurs twice among `entries`.
pub open spec fn distinct_hosts(entries: Seq<EntryView>) -> bool {
    forall|i: int, j: int|
        0 <= i < j < entries.len() ==> (#[trigger] entries[i]).host != (#[trigger] entries[j]).host
}

/// The position of the first entry for `host`, if there is one.
pub open spec fn position_of(entries: Seq<EntryView>, host: Seq<char>) -> Option<int> {
    first_index(entries, |entry: EntryView| entry.host == host)
}

/// The site kept for `host`, if there is one.
pub open spec fn lookup(entries: Seq<EntryView>, host: Seq<char>) -> Option<SiteView> {
    match position_of(entries, host) {
        Some(i) => Some(entries[i].site),
        None => None,
    }
}

/// `entries` with `site` put under `host`: in the place of the entry that
/// `host` had, or at the end where it had none.
pub open spec fn upsert(entries: Seq<EntryView>, host: Seq<char>, site: SiteView) -> Seq<
    EntryView,
> {
    match position_of(entries, host) {
        Some(i) => entries.update(i, EntryView { host, site }),
        None => entries.push(EntryView { host, site }),
    }
}

/// `entries` read as a mathematical map from host to site.
pub open spec fn as_map(entries: Seq<EntryView>) -> Map<Seq<char>, SiteView> {
    Map::new(
        |host: Seq<char>| position_of(entries, host) is Some,
        |host: Seq<char>| entries[position_of(entries, host).unwrap()].site,
    )
}

/// `position_of` finds the first entry for `host` and reports `None` only
/// when no entry has it.
pub proof fn lemma_position_of(entries: Seq<EntryView>, host: Seq<char>)
    ensures
        match position_of(entries, host) {
            Some(i) => {
                &&& 0 <= i < entries.len()
                &&& entries[i].host == host
                &&& forall|j: int| 0 <= j < i ==> (#[trigger] entries[j]).host != host
            },
            None => forall|j: int| 0 <= j < entries.len() ==> (#[trigger] entries[j]).host != host,
        },
{
    lemma_first_index(entries, |entry: EntryView| entry.host == host);
}

/// An entry at position `at` whose earlier neighbours all have other hosts is
/// the one `position_of` finds for its host.
pub proof fn lemma_position_of_first(entries: Seq<EntryView>, at: int)
    requires
        0 <= at < entries.len(),
        forall|j: int| 0 <= j < at ==> (#[trigger] entries[j]).host != entries[at].host,
    ensures
        position_of(entries, entries[at].host) == Some(at),
{
    lemma_position_of(entries, entries[at].host);
}

/// Where hosts are distinct, every entry is found under its own host.
pub proof fn lemma_position_of_distinct(entries: Seq<EntryView>, at: int)
    requires
        distinct_hosts(entries),
        0 <= at < entries.len(),
    ensures
        position_of(entries, entries[at].host) == Some(at),
        lookup(entries, entries[at].host) == Some(entries[at].site),
{
    lemma_position_of_first(entries, at);
}

/// Putting a site under a host keeps hosts distinct.
pub proof fn lemma_upsert_distinct(entries: Seq<EntryView>, host: Seq<char>, site: SiteView)
    requires
        distinct_hosts(entries),
    ensures
        distinct_hosts(upsert(entries, host, site)),
{
    lemma_position_of(entries, host);
    let after = upsert(entries, host, site);
    match position_of(entries, host) {
        Some(p) => {
            assert forall|i: int, j: int| 0 <= i < j < after.len() implies (#[trigger] after[i]).host
                != (#[trigger] after[j]).host by {
                assert(after[i].host == entries[i].host);
                assert(after[j].host == entries[j].host);
            }
        },
        None => {
            assert forall|i: int, j: int| 0 <= i < j < after.len() implies (#[trigger] after[i]).host
                != (#[trigger] after[j]).host by {
                if j < entries.len() {
                    assert(after[i] == entries[i]);
                    assert(after[j] == entries[j]);
                } else {
                    assert(after[i] == entries[i]);
                }
            }
        },
    }
}

/// After `upsert` the host maps to the new site, and every other host to
/// what it mapped to before.
pub proof fn lemma_upsert_lookup(
    entries: Seq<EntryView>,
    host: Seq<char>,
    site: SiteView,
    other: Seq<char>,
)
    ensures
        lookup(upsert(entries, host, site), other) == if other == host {
            Some(site)
        } else {
            lookup(entries, other)
        },
{
    let after = upsert(entries, host, site);
    lemma_position_of(entries, host);
    lemma_position_of(entries, other);
    lemma_position_of(after, other);
    match position_of(entries, host) {
        Some(p) => {
            assert forall|j: int| 0 <= j < entries.len() implies (#[trigger] after[j]).host
                == entries[j].host by {}
            if other == host {
                match position_of(after, other) {
                    Some(q) => {
                        assert(after[q].host == entries[q].host);
                        assert(after[p].host == entries[p].host);
                        if q < p {
                            assert(entries[q].host != host);
                        }
                        if p < q {
                            assert(after[p].host != other);
                        }
                    },
                    None => {
                        assert(after[p].host == host);
                    },
                }
            } else {
                match position_of(entries, other) {
                    Some(q) => {
                        assert(after[q] == entries[q]);
                        match position_of(after, other) {
                            Some(r) => {
                                assert(after[r].host == entries[r].host);
                                if r < q {
                                    assert(entries[r].host != other);
                                }
                                if q < r {
                                    assert(after[q].host != other);
                                }
                            },
                            None => {},
                        }
                    },
                    None => {
                        match position_of(after, other) {
                            Some(r) => {
                                assert(after[r].host == entries[r].host);
                            },
                            None => {},
                        }
                    },
                }
            }
        },
        None => {
            let n = entries.len() as int;
            assert forall|j: int| 0 <= j < n implies #[trigger] after[j] == entries[j] by {}
            assert(after[n].host == host);
            match position_of(after, other) {
                Some(r) => {
                    if r < n {
                        assert(after[r] == entries[r]);
                        match position_of(entries, other) {
                            Some(q) => {
                                assert(after[q] == entries[q]);
                                if r < q {
                                    assert(entries[r].host != other);
                                }
                                if q < r {
                                    assert(after[q].host != other);
                                }
                            },
                            None => {
                                assert(entries[r].host != other);
                            },
                        }
                    } else {
                        match position_of(entries, other) {
                            Some(q) => {
                                assert(after[q] == entries[q]);
                            },
                            None => {},
                        }
                    }
                },
                None => {
                    assert(after[n].host != other);
                    match position_of(entries, other) {
                        Some(q) => {
                            assert(after[q] == entries[q]);
                        },
                        None => {},
                    }
                },
            }
        },
    }
}

/// Read as a map, `upsert` is the insertion of one key.
pub proof fn lemma_upsert_as_map(entries: Seq<EntryView>, host: Seq<char>, site: SiteView)
    ensures
        as_map(upsert(entries, host, site)) == as_map(entries).insert(host, site),
{
    let after = as_map(upsert(entries, host, site));
    let expected = as_map(entries).insert(host, site);
    assert forall|other: Seq<char>| after.dom().contains(other) <==> expected.dom().contains(
        other,
    ) by {
        lemma_upsert_lookup(entries, host, site, other);
    }
    assert forall|other: Seq<char>| after.dom().contains(other) implies after[other]
        == expected[other] by {
        lemma_upsert_lookup(entries, host, site, other);
    }
    assert(after =~= expected);
}

/// Putting a site under a host that is present replaces its entry and
/// leaves the number of entries as it was; under a new host it adds one.
pub proof fn lemma_upsert_len(entries: Seq<EntryView>, host: Seq<char>, site: SiteView)
    ensures
        position_of(entries, host) is Some ==> upsert(entries, host, site).len() == entries.len(),
        position_of(entries, host) is None ==> upsert(entries, host, site).len() == entries.len()
            + 1,
{
    lemma_position_of(entries, host);
}

#[derive(Debug)]
struct Entry {
    host: String,
    site: Site,
}

impl View for Entry {
    type V = EntryView;

    closed spec fn view(&self) -> EntryView {
        EntryView { host: self.host@, site: self.site@ }
    }
}

/// A map from host to `Site`, in insertion order. No host occurs twice.
#[derive(Debug)]
pub struct SiteMap {
    entries: Vec<Entry>,
}

impl View for SiteMap {
    type V = Seq<EntryView>;

    /// The entries in order. Their hosts are distinct.
    closed spec fn view(&self) -> Seq<EntryView> {
        if distinct_hosts(self.held()) {
            self.held()
        } else {
            Seq::empty()
        }
    }
}

impl SiteMap {
    spec fn held(&self) -> Seq<EntryView> {
        Seq::new(self.entries@.len(), |i: int| self.entries@[i]@)
    }

    #[verifier::type_invariant]
    spec fn hosts_distinct(&self) -> bool {
        distinct_hosts(self.held())
    }

    /// The hosts of a site map are distinct.
    pub proof fn lemma_distinct(&self)
        ensures
            distinct_hosts(self@),
    {
    }

    /// An empty map.
    pub fn new() -> (map: Self)
        ensures
            map@ == Seq::<EntryView>::empty(),
    {
        SiteMap { entries: Vec::new() }
    }

    /// The number of sites.
    pub fn len(&self) -> (n: usize)
        ensures
            n == self@.len(),
    {
        proof {
            use_type_invariant(self);
        }
        self.entries.len()
    }

    /// The host of the entry at position `at`.
    pub fn host_at(&self, at: usize) -> (host: &String)
        requires
            at < self@.len(),
        ensures
            host@ == self@[at as int].host,
    {
        proof {
            use_type_invariant(self);
        }
        &self.entries[at].host
    }

    /// The site of the entry at position `at`.
    pub fn site_at(&self, at: usize) -> (site: &Site)
        requires
            at < self@.len(),
        ensures
            site@ == self@[at as int].site,
    {
        proof {
            use_type_invariant(self);
        }
        &self.entries[at].site
    }

    /// The site kept for `host`.
    pub fn get(&self, host: &String) -> (found: Option<&Site>)
        ensures
            match found {
                Some(site) => lookup(self@, host@) == Some(site@),
                None => lookup(self@, host@) is None,
            },
    {
        proof {
            use_type_invariant(self);
        }
        let mut at: usize = 0;
        while at < self.entries.len()
            invariant
                at <= self.entries.len(),
                self@ == self.held(),
                forall|j: int| 0 <= j < at ==> (#[trigger] self@[j]).host != host@,
            decreases self.entries.len() - at,
        {
            if self.entries[at].host == *host {
                proof {
                    lemma_position_of_first(self@, at as int);
                }
                return Some(&self.entries[at].site);
            }
            at += 1;
        }
        proof {
            lemma_position_of(self@, host@);
        }
        None
    }

    /// Puts `site` under `host`: it takes the place of the site that `host`
    /// had, or comes last where `host` is new.
    pub fn insert(&mut self, host: String, site: Site)
        ensures
            final(self)@ == upsert(old(self)@, host@, site@),
    {
        proof {
            use_type_invariant(&*self);
            lemma_upsert_distinct(self@, host@, site@);
        }
        let ghost before = self@;
        let mut entries: Vec<Entry> = Vec::new();
        core::mem::swap(&mut self.entries, &mut entries);
        let mut at: usize = 0;
        while at < entries.len()
            invariant
                at <= entries.len(),
                before == Seq::new(entries@.len(), |i: int| entries@[i]@),
                forall|j: int| 0 <= j < at ==> (#[trigger] before[j]).host != host@,
            ensures
                at < entries.len() ==> before[at as int].host == host@,
            decreases entries.len() - at,
        {
            if entries[at].host == host {
                break ;
            }
            at += 1;
        }
        if at < entries.len() {
            proof {
                lemma_position_of_first(before, at as int);
                assert(before.update(at as int, EntryView { host: host@, site: site@ })
                    =~= Seq::new(
                    entries@.len(),
                    |i: int| entries@.update(at as int, Entry { host, site })[i]@,
                ));
            }
            entries[at] = Entry { host, site };
        } else {
            proof {
                lemma_position_of(before, host@);
                assert(before.push(EntryView { host: host@, site: site@ }) =~= Seq::new(
                    entries@.len() + 1,
                    |i: int| entries@.push(Entry { host, site })[i]@,
                ));
            }
            entries.push(Entry { host, site });
        }
        core::mem::swap(&mut self.entries, &mut entries);
    }
}

impl Clone for SiteMap {
    fn clone(&self) -> (copy: Self)
        ensures
            copy@ == self@,
    {
        proof {
            use_type_invariant(self);
        }
        let mut entries: Vec<Entry> = Vec::new();
        let mut at: usize = 0;
        while at < self.entries.len()
            invariant
                at <= self.entries.len(),
                entries@.len() == at,
                forall|j: int| 0 <= j < at ==> (#[trigger] entries@[j])@ == self.entries@[j]@,
            decreases self.entries.len() - at,
        {
            let entry = Entry {
                host: self.entries[at].host.clone(),
                site: self.entries[at].site.clone(),
            };
            entries.push(entry);
            at += 1;
        }
        proof {
            assert(Seq::new(entries@.len(), |i: int| entries@[i]@) =~= self@);
        }
        SiteMap { entries }
    }
}

} // verus!
