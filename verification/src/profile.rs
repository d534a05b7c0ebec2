//! A named collection of sites.

use crate::diff::{
    left_entries_diff, left_entry_diff, profile_diff, right_entries_diff, right_entry_diff,
};
use crate::error::Error;
use crate::host::{parse_host, url_host};
use crate::laws::lemma_sites_diff_one_change;
use crate::model::{lemma_views_push, views};
use crate::report::{Mismatch, Side};
use crate::site::{Site, SiteView};
use crate::site_map::{
    as_map, distinct_hosts, lemma_position_of, lemma_upsert_as_map, lemma_upsert_len, position_of,
    upsert, EntryView, SiteMap,
};
use crate::text::{contains_text, str_contains};
use vstd::prelude::*;

verus! {

/// A named set of sites that belong to one identity.
#[allow(non_snake_case)]
#[derive(Debug)]
pub struct Profile {
    /// The name of the profile.
    pub Name: String,
    /// The sites, each under the host of its URL.
    pub Sites: SiteMap,
    /// Whether this is the profile to use when none is named.
    pub Default: bool,
}

/// What a `Profile` holds, as plain values.
pub struct ProfileView {
    pub name: Seq<char>,
    pub sites: Seq<EntryView>,
    pub is_default: bool,
}

impl ProfileView {
    /// No two sites stand under one host.
    pub open spec fn well_formed(self) -> bool {
        distinct_hosts(self.sites)
    }

    /// Every site stands under the host of its own URL.
    pub open spec fn keyed_by_host(self) -> bool {
        forall|i: int|
            0 <= i < self.sites.len() ==> url_host((#[trigger] self.sites[i]).site.url) == Some(
                self.sites[i].host,
            )
    }
}

impl View for Profile {
    type V = ProfileView;

    open spec fn view(&self) -> ProfileView {
        ProfileView { name: self.Name@, sites: self.Sites@, is_default: self.Default }
    }
}

/// The sites among the first `upto` of `entries` whose URL contains `query`,
/// in order.
pub open spec fn sites_matching(entries: Seq<EntryView>, query: Seq<char>, upto: nat) -> Seq<
    SiteView,
>
    decreases upto,
{
    if upto == 0 {
        Seq::empty()
    } else {
        let earlier = sites_matching(entries, query, (upto - 1) as nat);
        if contains_text(entries[upto - 1].site.url, query) {
            earlier.push(entries[upto - 1].site)
        } else {
            earlier
        }
    }
}

/// The line that lists one site: a tab, the host, a colon, and after a
/// blank and a tab the account.
pub open spec fn listing_line(entry: EntryView) -> Seq<char> {
    "\t"@ + entry.host + ": \t"@ + entry.site.mail
}

/// The lines that list the sites of a profile, one per site, in order.
pub open spec fn listing(entries: Seq<EntryView>) -> Seq<Seq<char>> {
    Seq::new(entries.len(), |i: int| listing_line(entries[i]))
}

impl Clone for Profile {
    fn clone(&self) -> (copy: Self)
        ensures
            copy@ == self@,
    {
        Profile { Name: self.Name.clone(), Sites: self.Sites.clone(), Default: self.Default }
    }
}

impl Profile {
    /// Every profile is well formed.
    pub proof fn lemma_well_formed(&self)
        ensures
            self@.well_formed(),
    {
        self.Sites.lemma_distinct();
    }

    /// A profile of the given name, with no site, that is not the default.
    pub fn new(name: &String) -> (profile: Self)
        ensures
            profile@ == (ProfileView { name: name@, sites: Seq::empty(), is_default: false }),
            profile@.keyed_by_host(),
    {
        Profile { Name: name.clone(), Sites: SiteMap::new(), Default: false }
    }

    /// The lines that list the sites: for each, its host and its account.
    pub fn list(&self) -> (lines: Vec<String>)
        ensures
            views(lines@) == listing(self@.sites),
    {
        let mut lines: Vec<String> = Vec::new();
        let mut at: usize = 0;
        while at < self.Sites.len()
            invariant
                at <= self.Sites@.len(),
                lines@.len() == at,
                forall|j: int| 0 <= j < at ==> (#[trigger] lines@[j])@ == listing_line(self.Sites@[j]),
            decreases self.Sites@.len() - at,
        {
            let mut line = String::from_str("\t");
            line.append(self.Sites.host_at(at).as_str());
            line.append(": \t");
            line.append(self.Sites.site_at(at).Mail.as_str());
            lines.push(line);
            at += 1;
        }
        assert(views(lines@) =~= listing(self@.sites));
        lines
    }

    /// All sites whose URL contains `site_name`, in the order of the profile.
    pub fn matching_sites(&self, site_name: &String) -> (found: Vec<&Site>)
        ensures
            views(found@) == sites_matching(self@.sites, site_name@, self@.sites.len()),
    {
        let mut found: Vec<&Site> = Vec::new();
        let mut at: usize = 0;
        while at < self.Sites.len()
            invariant
                at <= self.Sites@.len(),
                views(found@) == sites_matching(self.Sites@, site_name@, at as nat),
            decreases self.Sites@.len() - at,
        {
            let site = self.Sites.site_at(at);
            if str_contains(site.Url.as_str(), site_name.as_str()) {
                proof {
                    lemma_views_push(found@, site);
                }
                found.push(site);
            }
            at += 1;
        }
        found
    }

    /// The one site whose URL contains `site_name`. Where no site matches,
    /// or more than one, none is picked: the answer is the error, with the
    /// number of matches.
    pub fn find_site(&self, site_name: &String) -> (found: Result<&Site, Error>)
        ensures
            match found {
                Ok(site) => sites_matching(self@.sites, site_name@, self@.sites.len())
                    == seq![site@],
                Err(e) => {
                    &&& sites_matching(self@.sites, site_name@, self@.sites.len()).len() != 1
                    &&& e == (Error::AmbiguousOrMissingSite {
                        found: sites_matching(
                            self@.sites,
                            site_name@,
                            self@.sites.len(),
                        ).len() as usize,
                    })
                },
            },
    {
        let candidates = self.matching_sites(site_name);
        assert(views(candidates@).len() == candidates@.len());
        if candidates.len() == 1 {
            let site: &Site = candidates[0];
            assert(views(candidates@) =~= seq![site@]);
            Ok(site)
        } else {
            Err(Error::AmbiguousOrMissingSite { found: candidates.len() })
        }
    }

    /// Puts `site` under the host of its URL, in the place of the site that
    /// the host had or as a new entry: a host that is present keeps its
    /// place and the number of sites stays as it was. A URL that does not
    /// parse, or that names no host, is refused and the profile stays as it
    /// is.
    pub fn update_site(&mut self, site: Site) -> (done: Result<(), Error>)
        ensures
            match url_host(site@.url) {
                Some(host) => {
                    &&& done is Ok
                    &&& final(self)@ == (ProfileView {
                        sites: upsert(old(self)@.sites, host, site@),
                        ..old(self)@
                    })
                    &&& as_map(final(self)@.sites) == as_map(old(self)@.sites).insert(host, site@)
                    &&& final(self)@.sites.len() == if position_of(old(self)@.sites, host)
                        is Some {
                        old(self)@.sites.len()
                    } else {
                        old(self)@.sites.len() + 1
                    }
                    &&& old(self)@.keyed_by_host() ==> final(self)@.keyed_by_host()
                },
                None => done == Err::<(), Error>(Error::InvalidUrl) && *final(self) == *old(self),
            },
    {
        match parse_host(site.Url.as_str()) {
            Some(host) => {
                proof {
                    lemma_upsert_as_map(self@.sites, host@, site@);
                    lemma_upsert_len(self@.sites, host@, site@);
                    lemma_position_of(self@.sites, host@);
                }
                self.Sites.insert(host, site);
                Ok(())
            },
            None => Err(Error::InvalidUrl),
        }
    }

    /// Compares the sites of two profiles host by host and appends one
    /// record to `report` for each mismatch: first for the hosts of `self`
    /// in their order, then for the hosts that only `rhs` has. Returns the
    /// number of mismatches, which is zero for profiles with the same sites.
    pub fn diff(&self, rhs: &Profile, report: &mut Vec<Mismatch>) -> (count: usize)
        ensures
            views(final(report)@) == views(old(report)@) + profile_diff(self@, rhs@),
            count == profile_diff(self@, rhs@).len(),
            self@.sites == rhs@.sites ==> count == 0,
    {
        proof {
            self.lemma_well_formed();
            if self@.sites == rhs@.sites {
                lemma_sites_diff_one_change(self@.sites, rhs@.sites, -1);
            }
        }
        let ghost before = views(report@);
        let ghost left = self@.sites;
        let ghost right = rhs@.sites;
        let start: usize = report.len();
        let mut at: usize = 0;
        while at < self.Sites.len()
            invariant
                at <= left.len(),
                left == self.Sites@,
                right == rhs.Sites@,
                views(report@) == before + left_entries_diff(left, right, at as nat),
            decreases left.len() - at,
        {
            let host = self.Sites.host_at(at);
            let ghost so_far = left_entries_diff(left, right, at as nat);
            let ghost step = left_entry_diff(left[at as int], right);
            match rhs.Sites.get(host) {
                Some(other) => {
                    self.Sites.site_at(at).diff(other, report);
                    assert(views(report@) == before + (so_far + step));
                },
                None => {
                    let record = Mismatch::MissingSite { host: host.clone(), absent: Side::Right };
                    proof {
                        lemma_views_push(report@, record);
                    }
                    report.push(record);
                    assert(views(report@) == before + (so_far + step));
                },
            }
            at += 1;
        }
        let ghost left_part = left_entries_diff(left, right, left.len());
        let mut at: usize = 0;
        while at < rhs.Sites.len()
            invariant
                at <= right.len(),
                left == self.Sites@,
                right == rhs.Sites@,
                views(report@) == before + left_part + right_entries_diff(left, right, at as nat),
            decreases right.len() - at,
        {
            let host = rhs.Sites.host_at(at);
            let ghost so_far = right_entries_diff(left, right, at as nat);
            let ghost step = right_entry_diff(right[at as int], left);
            if self.Sites.get(host).is_none() {
                let record = Mismatch::MissingSite { host: host.clone(), absent: Side::Left };
                proof {
                    lemma_views_push(report@, record);
                }
                report.push(record);
            }
            assert(views(report@) == before + left_part + (so_far + step));
            at += 1;
        }
        assert(views(report@) == before + profile_diff(self@, rhs@));
        assert(views(report@).len() == report@.len());
        assert(before.len() == start);
        report.len() - start
    }
}

} // verus!
