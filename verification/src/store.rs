//! The whole document: all profiles and the settings of the store.

use crate::diff::{
    first_named, left_profile_diff, left_profiles_diff, lemma_first_named, lemma_first_named_at,
    right_profile_diff, right_profiles_diff, settings_diff, store_diff,
};
use crate::error::Error;
use crate::host::url_host;
use crate::laws::law_diff_identity;
use crate::model::{
    first_index, lemma_first_index, lemma_first_index_at, lemma_views_push, lemma_views_update,
    views,
};
use crate::profile::{listing, sites_matching, Profile, ProfileView};
use crate::report::{Mismatch, Side};
use crate::site::{Site, SiteView};
use crate::site_map::upsert;
use vstd::prelude::*;

verus! {

/// The decrypted store.
#[allow(non_snake_case)]
#[derive(Debug)]
pub struct Baccounts {
    /// The profiles, in the order of the document.
    pub Profiles: Vec<Profile>,
    /// The account used where a site names none.
    pub DefaultMail: String,
    /// The version of the document's schema.
    pub Version: String,
}

/// What a store holds, as plain values.
pub struct StoreView {
    pub profiles: Seq<ProfileView>,
    pub default_mail: Seq<char>,
    pub version: Seq<char>,
}

/// Every profile of the list is well formed.
pub open spec fn all_well_formed(profiles: Seq<ProfileView>) -> bool {
    forall|i: int| 0 <= i < profiles.len() ==> (#[trigger] profiles[i]).well_formed()
}

impl StoreView {
    /// Every profile is well formed.
    pub open spec fn well_formed(self) -> bool {
        all_well_formed(self.profiles)
    }
}

impl View for Baccounts {
    type V = StoreView;

    open spec fn view(&self) -> StoreView {
        StoreView {
            profiles: views(self.Profiles@),
            default_mail: self.DefaultMail@,
            version: self.Version@,
        }
    }
}

/// Whether a profile answers to `name`: by its name, or, where `name` is
/// empty, by being the default.
pub open spec fn answers_to(name: Seq<char>) -> spec_fn(ProfileView) -> bool {
    |profile: ProfileView|
        if name.len() == 0 {
            profile.is_default
        } else {
            profile.name == name
        }
}

/// The position of the first profile that answers to `name`.
pub open spec fn first_answering(profiles: Seq<ProfileView>, name: Seq<char>) -> Option<int> {
    first_index(profiles, answers_to(name))
}

/// The lines that list the first `upto` profiles: for each its name, then
/// the lines of its sites.
pub open spec fn store_listing(profiles: Seq<ProfileView>, upto: nat) -> Seq<Seq<char>>
    decreases upto,
{
    if upto == 0 {
        Seq::empty()
    } else {
        store_listing(profiles, (upto - 1) as nat).push(profiles[upto - 1].name) + listing(
            profiles[upto - 1].sites,
        )
    }
}

/// `store` after `profile` took the place of the first profile of its name;
/// `store` itself where it has no profile of that name.
pub open spec fn with_profile(store: StoreView, profile: ProfileView) -> StoreView {
    match first_named(store.profiles, profile.name) {
        Some(at) => StoreView { profiles: store.profiles.update(at, profile), ..store },
        None => store,
    }
}

/// What putting `site` into the profile that answers to `profile_name`
/// gives: the store with that profile replaced by a copy that holds `site`
/// under the host of its URL, or the reason why there is none.
pub open spec fn site_put(store: StoreView, profile_name: Seq<char>, site: SiteView) -> Result<
    StoreView,
    Error,
> {
    match first_answering(store.profiles, profile_name) {
        None => Err(Error::NotFound),
        Some(at) => match url_host(site.url) {
            None => Err(Error::InvalidUrl),
            Some(host) => {
                let profile = store.profiles[at];
                Ok(
                    with_profile(
                        store,
                        ProfileView { sites: upsert(profile.sites, host, site), ..profile },
                    ),
                )
            },
        },
    }
}

/// What replacing the secret of the one site that matches `site_name`, in
/// the profile that answers to `profile_name`, gives: the store with the
/// new secret in that site, or the reason why there is none.
pub open spec fn secret_replaced(
    store: StoreView,
    profile_name: Seq<char>,
    site_name: Seq<char>,
    pass: Seq<char>,
) -> Result<StoreView, Error> {
    match first_answering(store.profiles, profile_name) {
        None => Err(Error::NotFound),
        Some(at) => {
            let profile = store.profiles[at];
            let found = sites_matching(profile.sites, site_name, profile.sites.len());
            if found.len() != 1 {
                Err(Error::AmbiguousOrMissingSite { found: found.len() as usize })
            } else {
                site_put(store, profile_name, found[0].with_secret(pass))
            }
        },
    }
}

impl Baccounts {
    /// Every store is well formed.
    pub proof fn lemma_well_formed(&self)
        ensures
            self@.well_formed(),
    {
        assert forall|i: int| 0 <= i < self@.profiles.len() implies (
        #[trigger] self@.profiles[i]).well_formed() by {
            self.Profiles@[i].lemma_well_formed();
        }
    }

    /// An empty store: no profile, no default account, no version.
    pub fn new() -> (store: Self)
        ensures
            store@ == (StoreView {
                profiles: Seq::empty(),
                default_mail: Seq::empty(),
                version: Seq::empty(),
            }),
    {
        let store = Baccounts {
            Profiles: Vec::new(),
            DefaultMail: String::new(),
            Version: String::new(),
        };
        assert(store@.profiles =~= Seq::empty());
        store
    }

    /// The lines that list the store: the name of each profile, followed by
    /// the lines of its sites.
    pub fn list(&self) -> (lines: Vec<String>)
        ensures
            views(lines@) == store_listing(self@.profiles, self@.profiles.len()),
    {
        let ghost profiles = self@.profiles;
        let mut lines: Vec<String> = Vec::new();
        let mut at: usize = 0;
        assert(views(lines@) =~= store_listing(profiles, 0));
        while at < self.Profiles.len()
            invariant
                at <= self.Profiles.len(),
                profiles == views(self.Profiles@),
                views(lines@) == store_listing(profiles, at as nat),
            decreases self.Profiles.len() - at,
        {
            let profile = &self.Profiles[at];
            let ghost so_far = views(lines@);
            let name = profile.Name.clone();
            proof {
                lemma_views_push(lines@, name);
            }
            lines.push(name);
            let mut sites = profile.list();
            assert(views(lines@ + sites@) =~= views(lines@) + views(sites@));
            lines.append(&mut sites);
            at += 1;
        }
        lines
    }

    /// The profile that answers to `profile_name`: the first of that name,
    /// or, where the name is empty, the first default profile.
    pub fn find_profile(&self, profile_name: &String) -> (found: Option<&Profile>)
        ensures
            match first_answering(self@.profiles, profile_name@) {
                Some(at) => found == Some(&self.Profiles@[at]),
                None => found is None,
            },
    {
        let ghost profiles = self@.profiles;
        let by_default = profile_name.as_str().is_empty();
        let mut at: usize = 0;
        while at < self.Profiles.len()
            invariant
                at <= self.Profiles.len(),
                profiles == views(self.Profiles@),
                by_default == (profile_name@.len() == 0),
                forall|j: int| 0 <= j < at ==> !answers_to(profile_name@)(#[trigger] profiles[j]),
            decreases self.Profiles.len() - at,
        {
            let profile = &self.Profiles[at];
            let answers = if by_default {
                profile.Default
            } else {
                profile.Name == *profile_name
            };
            if answers {
                proof {
                    lemma_first_index_at(profiles, answers_to(profile_name@), at as int);
                }
                return Some(profile);
            }
            at += 1;
        }
        proof {
            lemma_first_index(profiles, answers_to(profile_name@));
        }
        None
    }

    /// Puts `profile` in the place of the first profile of its name. Where
    /// the store has no profile of that name, nothing is added and the store
    /// stays as it is.
    pub fn update_profile(&mut self, profile: Profile) -> (done: Result<(), Error>)
        ensures
            match first_named(old(self)@.profiles, profile@.name) {
                Some(at) => done is Ok && final(self)@ == (StoreView {
                    profiles: old(self)@.profiles.update(at, profile@),
                    ..old(self)@
                }),
                None => done == Err::<(), Error>(Error::NotFound) && *final(self) == *old(self),
            },
    {
        match self.position_of(&profile.Name) {
            Some(at) => {
                proof {
                    lemma_first_named(self@.profiles, profile@.name);
                    lemma_views_update(self.Profiles@, at as int, profile);
                }
                self.Profiles[at] = profile;
                Ok(())
            },
            None => Err(Error::NotFound),
        }
    }

    /// Puts `site` into the profile that answers to `profile_name`, under
    /// the host of its URL, and returns the name of that profile. The
    /// changed profile takes the place of the first profile of its name.
    /// Where no profile answers, or the URL of the site names no host, the
    /// store stays as it is.
    pub fn put_site(&mut self, profile_name: &String, site: Site) -> (done: Result<String, Error>)
        ensures
            match site_put(old(self)@, profile_name@, site@) {
                Ok(store) => {
                    &&& final(self)@ == store
                    &&& done matches Ok(name)
                    &&& first_answering(old(self)@.profiles, profile_name@) matches Some(at)
                    &&& name@ == old(self)@.profiles[at].name
                },
                Err(e) => done == Err::<String, Error>(e) && *final(self) == *old(self),
            },
    {
        let changed = match self.find_profile(profile_name) {
            None => {
                return Err(Error::NotFound);
            },
            Some(profile) => {
                let mut changed = profile.clone();
                match changed.update_site(site) {
                    Ok(()) => changed,
                    Err(e) => {
                        return Err(e);
                    },
                }
            },
        };
        let name = changed.Name.clone();
        proof {
            lemma_first_index(self@.profiles, answers_to(profile_name@));
            lemma_first_named(self@.profiles, changed@.name);
        }
        match self.update_profile(changed) {
            Ok(()) => Ok(name),
            Err(e) => Err(e),
        }
    }

    /// Replaces the secret of the one site whose URL contains `site_name`,
    /// in the profile that answers to `profile_name`, and returns the name
    /// of that profile. Where no profile answers, or the query matches no
    /// site or more than one, the store stays as it is.
    pub fn replace_secret(&mut self, profile_name: &String, site_name: &String, pass: String) -> (done:
        Result<String, Error>)
        ensures
            match secret_replaced(old(self)@, profile_name@, site_name@, pass@) {
                Ok(store) => {
                    &&& final(self)@ == store
                    &&& done matches Ok(name)
                    &&& first_answering(old(self)@.profiles, profile_name@) matches Some(at)
                    &&& name@ == old(self)@.profiles[at].name
                },
                Err(e) => done == Err::<String, Error>(e) && *final(self) == *old(self),
            },
    {
        proof {
            lemma_first_index(self@.profiles, answers_to(profile_name@));
        }
        let changed = match self.find_profile(profile_name) {
            None => {
                return Err(Error::NotFound);
            },
            Some(profile) => match profile.find_site(site_name) {
                Err(e) => {
                    return Err(e);
                },
                Ok(site) => {
                    let mut changed = site.clone();
                    changed.update_pass(pass);
                    changed
                },
            },
        };
        self.put_site(profile_name, changed)
    }

    /// The position of the first profile whose name is exactly `name`.
    pub fn position_of(&self, name: &String) -> (found: Option<usize>)
        ensures
            match found {
                Some(at) => first_named(self@.profiles, name@) == Some(at as int),
                None => first_named(self@.profiles, name@) is None,
            },
    {
        let ghost profiles = self@.profiles;
        let mut at: usize = 0;
        while at < self.Profiles.len()
            invariant
                at <= self.Profiles.len(),
                profiles == views(self.Profiles@),
                forall|j: int| 0 <= j < at ==> (#[trigger] profiles[j]).name != name@,
            decreases self.Profiles.len() - at,
        {
            if self.Profiles[at].Name == *name {
                proof {
                    lemma_first_named_at(profiles, at as int);
                }
                return Some(at);
            }
            at += 1;
        }
        proof {
            lemma_first_named(profiles, name@);
        }
        None
    }

    /// Compares two stores and appends one record to `report` for each
    /// mismatch: the settings first, then the profiles name by name, those
    /// of `self` in their order before those that only `rhs` has. Profiles
    /// of one name in both stores are compared site by site. Returns the
    /// number of mismatches, which is zero for stores that hold the same.
    pub fn diff(&self, rhs: &Baccounts, report: &mut Vec<Mismatch>) -> (count: usize)
        ensures
            views(final(report)@) == views(old(report)@) + store_diff(self@, rhs@),
            count == store_diff(self@, rhs@).len(),
            self@ == rhs@ ==> count == 0,
    {
        proof {
            self.lemma_well_formed();
            if self@ == rhs@ {
                law_diff_identity(self@);
            }
        }
        let ghost before = views(report@);
        let ghost left = self@.profiles;
        let ghost right = rhs@.profiles;
        let start: usize = report.len();
        if self.Version != rhs.Version {
            let record = Mismatch::Version {
                left: self.Version.clone(),
                right: rhs.Version.clone(),
            };
            proof {
                lemma_views_push(report@, record);
            }
            report.push(record);
        }
        let ghost version_part = views(report@);
        if self.DefaultMail != rhs.DefaultMail {
            let record = Mismatch::DefaultMail {
                left: self.DefaultMail.clone(),
                right: rhs.DefaultMail.clone(),
            };
            proof {
                lemma_views_push(report@, record);
            }
            report.push(record);
        }
        let ghost settings = settings_diff(self@, rhs@);
        assert(views(report@) == before + settings);
        let mut at: usize = 0;
        while at < self.Profiles.len()
            invariant
                at <= left.len(),
                left == views(self.Profiles@),
                right == views(rhs.Profiles@),
                left == self@.profiles,
                right == rhs@.profiles,
                views(report@) == before + settings + left_profiles_diff(left, right, at as nat),
            decreases left.len() - at,
        {
            let profile = &self.Profiles[at];
            let ghost so_far = left_profiles_diff(left, right, at as nat);
            let ghost step = left_profile_diff(left, right, at as int);
            let first = self.position_of(&profile.Name);
            if first == Some(at) {
                match rhs.position_of(&profile.Name) {
                    Some(other) => {
                        proof {
                            lemma_first_named(right, profile.Name@);
                        }
                        profile.diff(&rhs.Profiles[other], report);
                    },
                    None => {
                        let record = Mismatch::MissingProfile {
                            name: profile.Name.clone(),
                            absent: Side::Right,
                        };
                        proof {
                            lemma_views_push(report@, record);
                        }
                        report.push(record);
                    },
                }
            }
            assert(views(report@) == before + settings + (so_far + step));
            at += 1;
        }
        let ghost left_part = left_profiles_diff(left, right, left.len());
        let mut at: usize = 0;
        while at < rhs.Profiles.len()
            invariant
                at <= right.len(),
                left == self@.profiles,
                right == rhs@.profiles,
                right == views(rhs.Profiles@),
                views(report@) == before + settings + left_part + right_profiles_diff(
                    left,
                    right,
                    at as nat,
                ),
            decreases right.len() - at,
        {
            let profile = &rhs.Profiles[at];
            let ghost so_far = right_profiles_diff(left, right, at as nat);
            let ghost step = right_profile_diff(left, right, at as int);
            let first = rhs.position_of(&profile.Name);
            if first == Some(at) && self.position_of(&profile.Name).is_none() {
                let record = Mismatch::MissingProfile {
                    name: profile.Name.clone(),
                    absent: Side::Left,
                };
                proof {
                    lemma_views_push(report@, record);
                }
                report.push(record);
            }
            assert(views(report@) == before + settings + left_part + (so_far + step));
            at += 1;
        }
        assert(views(report@) == before + store_diff(self@, rhs@));
        assert(views(report@).len() == report@.len());
        assert(before.len() == start);
        report.len() - start
    }
}

} // verus!
