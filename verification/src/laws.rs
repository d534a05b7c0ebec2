//! Laws of the comparison of stores.

use crate::diff::{
    byte_count, first_named, left_entries_diff, left_profiles_diff, lemma_first_named,
    profile_diff, right_entries_diff, right_profiles_diff, settings_diff, site_diff, sites_diff,
    store_diff,
};
use crate::profile::ProfileView;
use crate::report::MismatchView;
use crate::site::SiteView;
use crate::site_map::{
    distinct_hosts, lemma_position_of, lemma_position_of_distinct, lookup, position_of, EntryView,
};
use crate::store::StoreView;
use vstd::prelude::*;

verus! {

/// A site compared with itself gives no mismatch.
pub proof fn law_site_diff_identity(site: SiteView)
    ensures
        site_diff(site, site) == Seq::<MismatchView>::empty(),
{
}

/// Two lists of entries with the same hosts at the same positions find
/// every host at the same position.
pub proof fn lemma_same_hosts(left: Seq<EntryView>, right: Seq<EntryView>, host: Seq<char>)
    requires
        left.len() == right.len(),
        forall|i: int| 0 <= i < left.len() ==> (#[trigger] left[i]).host == right[i].host,
    ensures
        position_of(left, host) == position_of(right, host),
{
    lemma_position_of(left, host);
    lemma_position_of(right, host);
    match position_of(left, host) {
        Some(i) => {
            assert(left[i].host == right[i].host);
            match position_of(right, host) {
                Some(j) => {
                    assert(left[j].host == right[j].host);
                },
                None => {},
            }
        },
        None => {
            match position_of(right, host) {
                Some(j) => {
                    assert(left[j].host == right[j].host);
                },
                None => {},
            }
        },
    }
}

/// Two lists of profiles with the same names at the same positions find
/// every name at the same position.
pub proof fn lemma_same_names(left: Seq<ProfileView>, right: Seq<ProfileView>, name: Seq<char>)
    requires
        left.len() == right.len(),
        forall|i: int| 0 <= i < left.len() ==> (#[trigger] left[i]).name == right[i].name,
    ensures
        first_named(left, name) == first_named(right, name),
{
    lemma_first_named(left, name);
    lemma_first_named(right, name);
    match first_named(left, name) {
        Some(i) => {
            assert(left[i].name == right[i].name);
            match first_named(right, name) {
                Some(j) => {
                    assert(left[j].name == right[j].name);
                },
                None => {},
            }
        },
        None => {
            match first_named(right, name) {
                Some(j) => {
                    assert(left[j].name == right[j].name);
                },
                None => {},
            }
        },
    }
}

/// The report on the left entries where the right list differs from the
/// left at no place but `changed`, and there in the site alone: nothing up
/// to `changed`, and from there on the comparison of that one site.
proof fn lemma_left_entries_one_change(
    left: Seq<EntryView>,
    right: Seq<EntryView>,
    changed: int,
    upto: nat,
)
    requires
        distinct_hosts(left),
        left.len() == right.len(),
        upto <= left.len(),
        forall|i: int| 0 <= i < left.len() ==> (#[trigger] left[i]).host == right[i].host,
        forall|i: int| 0 <= i < left.len() && i != changed ==> (#[trigger] left[i]) == right[i],
    ensures
        left_entries_diff(left, right, upto) == if 0 <= changed < upto {
            site_diff(left[changed].site, right[changed].site)
        } else {
            Seq::<MismatchView>::empty()
        },
    decreases upto,
{
    if upto > 0 {
        let at = upto - 1;
        lemma_left_entries_one_change(left, right, changed, at as nat);
        lemma_position_of_distinct(left, at);
        lemma_same_hosts(left, right, left[at].host);
        assert(lookup(right, left[at].host) == Some(right[at].site));
        if at != changed {
            assert(left[at] == right[at]);
        }
    }
}

/// The report on the right entries where both lists have the same hosts at
/// the same positions: nothing.
proof fn lemma_right_entries_same_hosts(left: Seq<EntryView>, right: Seq<EntryView>, upto: nat)
    requires
        distinct_hosts(left),
        left.len() == right.len(),
        upto <= right.len(),
        forall|i: int| 0 <= i < left.len() ==> (#[trigger] left[i]).host == right[i].host,
    ensures
        right_entries_diff(left, right, upto) == Seq::<MismatchView>::empty(),
    decreases upto,
{
    if upto > 0 {
        let at = upto - 1;
        lemma_right_entries_same_hosts(left, right, at as nat);
        assert(left[at].host == right[at].host);
        lemma_position_of_distinct(left, at);
    }
}

/// The report on two lists of sites that differ at no place but `changed`,
/// and there in the site alone, is the comparison of that one site.
pub proof fn lemma_sites_diff_one_change(left: Seq<EntryView>, right: Seq<EntryView>, changed: int)
    requires
        distinct_hosts(left),
        left.len() == right.len(),
        forall|i: int| 0 <= i < left.len() ==> (#[trigger] left[i]).host == right[i].host,
        forall|i: int| 0 <= i < left.len() && i != changed ==> (#[trigger] left[i]) == right[i],
    ensures
        sites_diff(left, right) == if 0 <= changed < left.len() {
            site_diff(left[changed].site, right[changed].site)
        } else {
            Seq::<MismatchView>::empty()
        },
{
    lemma_left_entries_one_change(left, right, changed, left.len());
    lemma_right_entries_same_hosts(left, right, right.len());
}

/// A profile compared with itself gives no mismatch.
pub proof fn law_profile_diff_identity(profile: ProfileView)
    requires
        profile.well_formed(),
    ensures
        profile_diff(profile, profile) == Seq::<MismatchView>::empty(),
{
    lemma_sites_diff_one_change(profile.sites, profile.sites, -1);
}

/// The report on the left profiles where the right list differs from the
/// left at no place but `changed`, and there in the sites alone: nothing up
/// to `changed`, and from there on the comparison of that one profile where
/// it is the first of its name.
proof fn lemma_left_profiles_one_change(
    left: Seq<ProfileView>,
    right: Seq<ProfileView>,
    changed: int,
    upto: nat,
)
    requires
        left.len() == right.len(),
        upto <= left.len(),
        forall|i: int| 0 <= i < left.len() ==> (#[trigger] left[i]).well_formed(),
        forall|i: int| 0 <= i < left.len() ==> (#[trigger] left[i]).name == right[i].name,
        forall|i: int| 0 <= i < left.len() && i != changed ==> (#[trigger] left[i]) == right[i],
    ensures
        left_profiles_diff(left, right, upto) == if 0 <= changed < upto && first_named(
            left,
            left[changed].name,
        ) == Some(changed) {
            profile_diff(left[changed], right[changed])
        } else {
            Seq::<MismatchView>::empty()
        },
    decreases upto,
{
    if upto > 0 {
        let at = upto - 1;
        lemma_left_profiles_one_change(left, right, changed, at as nat);
        let name = left[at].name;
        lemma_same_names(left, right, name);
        if first_named(left, name) == Some(at) {
            if at != changed {
                assert(left[at] == right[at]);
                law_profile_diff_identity(left[at]);
            }
        }
    }
}

/// The report on the right profiles where both lists have the same names at
/// the same positions: nothing.
proof fn lemma_right_profiles_same_names(
    left: Seq<ProfileView>,
    right: Seq<ProfileView>,
    upto: nat,
)
    requires
        left.len() == right.len(),
        upto <= right.len(),
        forall|i: int| 0 <= i < left.len() ==> (#[trigger] left[i]).name == right[i].name,
    ensures
        right_profiles_diff(left, right, upto) == Seq::<MismatchView>::empty(),
    decreases upto,
{
    if upto > 0 {
        let at = upto - 1;
        lemma_right_profiles_same_names(left, right, at as nat);
        lemma_same_names(left, right, right[at].name);
    }
}

/// A store compared with itself gives no mismatch.
pub proof fn law_diff_identity(store: StoreView)
    requires
        store.well_formed(),
    ensures
        store_diff(store, store) == Seq::<MismatchView>::empty(),
        store_diff(store, store).len() == 0,
{
    lemma_left_profiles_one_change(store.profiles, store.profiles, -1, store.profiles.len());
    lemma_right_profiles_same_names(store.profiles, store.profiles, store.profiles.len());
}

/// `store` with the secret of one site, the one at `pos` in the profile at
/// `at`, replaced by `secret`.
pub open spec fn with_site_secret(store: StoreView, at: int, pos: int, secret: Seq<char>)
    -> StoreView {
    let profile = store.profiles[at];
    let entry = profile.sites[pos];
    StoreView {
        profiles: store.profiles.update(
            at,
            ProfileView {
                sites: profile.sites.update(
                    pos,
                    EntryView { site: entry.site.with_secret(secret), ..entry },
                ),
                ..profile
            },
        ),
        ..store
    }
}

/// Two sites that differ in the secret alone give one mismatch, and it
/// holds the URL and the byte counts of the two secrets.
pub proof fn law_site_secret_only(site: SiteView, secret: Seq<char>)
    requires
        secret != site.encoded_pass,
    ensures
        site_diff(site, site.with_secret(secret)) == seq![
            MismatchView::Secret {
                url: site.url,
                left_bytes: byte_count(site.encoded_pass),
                right_bytes: byte_count(secret),
            },
        ],
{
}

/// Two stores that differ in the secret of one site alone give exactly one
/// mismatch, and it holds the URL of the site and the byte counts of the two
/// secrets. The profile of the site is the first of its name: a profile whose
/// name an earlier one has is not compared.
pub proof fn law_diff_secret_only(store: StoreView, at: int, pos: int, secret: Seq<char>)
    requires
        store.well_formed(),
        0 <= at < store.profiles.len(),
        0 <= pos < store.profiles[at].sites.len(),
        first_named(store.profiles, store.profiles[at].name) == Some(at),
        secret != store.profiles[at].sites[pos].site.encoded_pass,
    ensures
        store_diff(store, with_site_secret(store, at, pos, secret)) == seq![
            MismatchView::Secret {
                url: store.profiles[at].sites[pos].site.url,
                left_bytes: byte_count(store.profiles[at].sites[pos].site.encoded_pass),
                right_bytes: byte_count(secret),
            },
        ],
        store_diff(store, with_site_secret(store, at, pos, secret)).len() == 1,
{
    let other = with_site_secret(store, at, pos, secret);
    let left = store.profiles;
    let right = other.profiles;
    lemma_left_profiles_one_change(left, right, at, left.len());
    lemma_right_profiles_same_names(left, right, right.len());
    assert(left[at].well_formed());
    lemma_sites_diff_one_change(left[at].sites, right[at].sites, pos);
    law_site_secret_only(left[at].sites[pos].site, secret);
    assert(settings_diff(store, other) == Seq::<MismatchView>::empty());
}

/// The report on two sites shows of their secrets only whether they are
/// equal and how many bytes each has: sites that agree in all else, and in
/// these, give the same report.
pub proof fn law_report_hides_secret(
    left: SiteView,
    right: SiteView,
    left_secret: Seq<char>,
    right_secret: Seq<char>,
)
    requires
        (left.encoded_pass == right.encoded_pass) == (left_secret == right_secret),
        byte_count(left.encoded_pass) == byte_count(left_secret),
        byte_count(right.encoded_pass) == byte_count(right_secret),
    ensures
        site_diff(left, right) == site_diff(
            left.with_secret(left_secret),
            right.with_secret(right_secret),
        ),
{
}

} // verus!
