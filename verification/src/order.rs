//! The number of mismatches does not depend on the order in which a store
//! holds its profiles, or a profile its sites.

use crate::diff::{
    first_named, left_entries_diff, left_entry_diff, left_profiles_diff, lemma_first_named,
    profile_diff, right_entries_diff, right_entry_diff, right_profiles_diff, settings_diff,
    sites_diff, store_diff,
};
use crate::model::{
    covered, distinct_keys, has_match, lemma_total_same_weights, lemma_total_unordered, matched,
    total,
};
use crate::profile::ProfileView;
use crate::site_map::{
    as_map, distinct_hosts, lemma_position_of, lemma_position_of_distinct, lookup, position_of,
    EntryView,
};
use crate::store::{all_well_formed, StoreView};
use vstd::prelude::*;

verus! {

/// The host of an entry.
pub open spec fn host_of() -> spec_fn(EntryView) -> Seq<char> {
    |entry: EntryView| entry.host
}

/// The number of records that an entry of the left profile adds.
pub open spec fn left_entry_weight(right: Seq<EntryView>) -> spec_fn(EntryView) -> nat {
    |entry: EntryView| left_entry_diff(entry, right).len()
}

/// The number of records that an entry of the right profile adds.
pub open spec fn right_entry_weight(left: Seq<EntryView>) -> spec_fn(EntryView) -> nat {
    |entry: EntryView| right_entry_diff(entry, left).len()
}

/// Lists that are the same map find the same site under every host.
pub proof fn lemma_same_map_lookup(one: Seq<EntryView>, other: Seq<EntryView>, host: Seq<char>)
    requires
        as_map(one) == as_map(other),
    ensures
        lookup(one, host) == lookup(other, host),
{
    assert(as_map(one).dom().contains(host) == (position_of(one, host) is Some));
    assert(as_map(other).dom().contains(host) == (position_of(other, host) is Some));
    if position_of(one, host) is Some {
        assert(as_map(one)[host] == one[position_of(one, host).unwrap()].site);
        assert(as_map(other)[host] == other[position_of(other, host).unwrap()].site);
    }
}

/// The report on the first entries of the left list has as many records as
/// their weights add up to.
proof fn lemma_left_entries_total(left: Seq<EntryView>, right: Seq<EntryView>, upto: nat)
    requires
        upto <= left.len(),
    ensures
        left_entries_diff(left, right, upto).len() == total(
            left.take(upto as int),
            left_entry_weight(right),
        ),
    decreases upto,
{
    if upto > 0 {
        lemma_left_entries_total(left, right, (upto - 1) as nat);
        assert(left.take(upto as int).drop_last() =~= left.take(upto - 1));
        assert(left.take(upto as int).last() == left[upto - 1]);
    }
}

/// The report on the first entries of the right list has as many records as
/// their weights add up to.
proof fn lemma_right_entries_total(left: Seq<EntryView>, right: Seq<EntryView>, upto: nat)
    requires
        upto <= right.len(),
    ensures
        right_entries_diff(left, right, upto).len() == total(
            right.take(upto as int),
            right_entry_weight(left),
        ),
    decreases upto,
{
    if upto > 0 {
        lemma_right_entries_total(left, right, (upto - 1) as nat);
        assert(right.take(upto as int).drop_last() =~= right.take(upto - 1));
        assert(right.take(upto as int).last() == right[upto - 1]);
    }
}

/// Of two lists with distinct hosts that are the same map, each holds every
/// entry of the other.
proof fn lemma_same_map_covered(
    one: Seq<EntryView>,
    other: Seq<EntryView>,
    weight: spec_fn(EntryView) -> nat,
)
    requires
        distinct_hosts(one),
        as_map(one) == as_map(other),
    ensures
        covered(one, other, host_of(), weight),
{
    assert forall|i: int| 0 <= i < one.len() implies has_match(
        other,
        #[trigger] one[i],
        host_of(),
        weight,
    ) by {
        lemma_position_of_distinct(one, i);
        lemma_same_map_lookup(one, other, one[i].host);
        lemma_position_of(other, one[i].host);
        let at = position_of(other, one[i].host).unwrap();
        assert(other[at] == one[i]);
        assert(matched(other, at, one[i], host_of(), weight));
    }
}

/// Two pairs of lists of sites that are the same maps give the same number
/// of mismatches, in whatever order each list holds its sites.
pub proof fn law_sites_diff_count_unordered(
    left: Seq<EntryView>,
    right: Seq<EntryView>,
    other_left: Seq<EntryView>,
    other_right: Seq<EntryView>,
)
    requires
        distinct_hosts(left),
        distinct_hosts(right),
        distinct_hosts(other_left),
        distinct_hosts(other_right),
        as_map(left) == as_map(other_left),
        as_map(right) == as_map(other_right),
    ensures
        sites_diff(left, right).len() == sites_diff(other_left, other_right).len(),
{
    lemma_left_entries_total(left, right, left.len());
    lemma_left_entries_total(other_left, other_right, other_left.len());
    lemma_right_entries_total(left, right, right.len());
    lemma_right_entries_total(other_left, other_right, other_right.len());
    assert(left.take(left.len() as int) =~= left);
    assert(right.take(right.len() as int) =~= right);
    assert(other_left.take(other_left.len() as int) =~= other_left);
    assert(other_right.take(other_right.len() as int) =~= other_right);
    assert(distinct_keys(left, host_of()));
    assert(distinct_keys(right, host_of()));
    assert(distinct_keys(other_left, host_of()));
    assert(distinct_keys(other_right, host_of()));

    lemma_same_map_covered(left, other_left, left_entry_weight(right));
    lemma_same_map_covered(other_left, left, left_entry_weight(right));
    lemma_total_unordered(left, other_left, host_of(), left_entry_weight(right));
    assert forall|i: int| 0 <= i < other_left.len() implies left_entry_weight(right)(
        #[trigger] other_left[i],
    ) == left_entry_weight(other_right)(other_left[i]) by {
        lemma_same_map_lookup(right, other_right, other_left[i].host);
    }
    lemma_total_same_weights(
        other_left,
        left_entry_weight(right),
        left_entry_weight(other_right),
    );

    lemma_same_map_covered(right, other_right, right_entry_weight(left));
    lemma_same_map_covered(other_right, right, right_entry_weight(left));
    lemma_total_unordered(right, other_right, host_of(), right_entry_weight(left));
    assert forall|i: int| 0 <= i < other_right.len() implies right_entry_weight(left)(
        #[trigger] other_right[i],
    ) == right_entry_weight(other_left)(other_right[i]) by {
        lemma_same_map_lookup(left, other_left, other_right[i].host);
    }
    lemma_total_same_weights(
        other_right,
        right_entry_weight(left),
        right_entry_weight(other_left),
    );
}

/// The name of a profile.
pub open spec fn name_of() -> spec_fn(ProfileView) -> Seq<char> {
    |profile: ProfileView| profile.name
}

/// No two profiles have the same name.
pub open spec fn distinct_names(profiles: Seq<ProfileView>) -> bool {
    distinct_keys(profiles, name_of())
}

/// Both lists have profiles of the same names, and under each name the same
/// map of sites.
pub open spec fn same_profiles(one: Seq<ProfileView>, other: Seq<ProfileView>) -> bool {
    forall|name: Seq<char>|
        match (#[trigger] first_named(one, name), first_named(other, name)) {
            (Some(i), Some(j)) => as_map(one[i].sites) == as_map(other[j].sites),
            (None, None) => true,
            _ => false,
        }
}

/// The number of records that a profile of the left store adds, where it is
/// the first of its name.
pub open spec fn left_profile_weight(right: Seq<ProfileView>) -> spec_fn(ProfileView) -> nat {
    |profile: ProfileView|
        match first_named(right, profile.name) {
            Some(other) => profile_diff(profile, right[other]).len(),
            None => 1,
        }
}

/// The number of records that a profile of the right store adds, where it
/// is the first of its name.
pub open spec fn right_profile_weight(left: Seq<ProfileView>) -> spec_fn(ProfileView) -> nat {
    |profile: ProfileView|
        if first_named(left, profile.name) is None {
            1
        } else {
            0
        }
}

/// Where names are distinct, every profile is the first of its name.
proof fn lemma_distinct_names_first(profiles: Seq<ProfileView>, at: int)
    requires
        distinct_names(profiles),
        0 <= at < profiles.len(),
    ensures
        first_named(profiles, profiles[at].name) == Some(at),
{
    lemma_first_named(profiles, profiles[at].name);
    let found = first_named(profiles, profiles[at].name).unwrap();
    if found < at {
        assert(name_of()(profiles[found]) != name_of()(profiles[at]));
    }
}

/// The report on the first profiles of the left store has as many records
/// as their weights add up to.
proof fn lemma_left_profiles_total(left: Seq<ProfileView>, right: Seq<ProfileView>, upto: nat)
    requires
        distinct_names(left),
        upto <= left.len(),
    ensures
        left_profiles_diff(left, right, upto).len() == total(
            left.take(upto as int),
            left_profile_weight(right),
        ),
    decreases upto,
{
    if upto > 0 {
        lemma_left_profiles_total(left, right, (upto - 1) as nat);
        lemma_distinct_names_first(left, upto - 1);
        assert(left.take(upto as int).drop_last() =~= left.take(upto - 1));
        assert(left.take(upto as int).last() == left[upto - 1]);
    }
}

/// The report on the first profiles of the right store has as many records
/// as their weights add up to.
proof fn lemma_right_profiles_total(left: Seq<ProfileView>, right: Seq<ProfileView>, upto: nat)
    requires
        distinct_names(right),
        upto <= right.len(),
    ensures
        right_profiles_diff(left, right, upto).len() == total(
            right.take(upto as int),
            right_profile_weight(left),
        ),
    decreases upto,
{
    if upto > 0 {
        lemma_right_profiles_total(left, right, (upto - 1) as nat);
        lemma_distinct_names_first(right, upto - 1);
        assert(right.take(upto as int).drop_last() =~= right.take(upto - 1));
        assert(right.take(upto as int).last() == right[upto - 1]);
    }
}

/// A profile of the left store weighs the same against two right stores
/// with the same profiles.
proof fn lemma_left_profile_weight_same(
    profile: ProfileView,
    right: Seq<ProfileView>,
    other_right: Seq<ProfileView>,
)
    requires
        profile.well_formed(),
        all_well_formed(right),
        all_well_formed(other_right),
        same_profiles(right, other_right),
    ensures
        left_profile_weight(right)(profile) == left_profile_weight(other_right)(profile),
{
    lemma_first_named(right, profile.name);
    lemma_first_named(other_right, profile.name);
    match first_named(right, profile.name) {
        Some(i) => {
            let j = first_named(other_right, profile.name).unwrap();
            law_sites_diff_count_unordered(
                profile.sites,
                right[i].sites,
                profile.sites,
                other_right[j].sites,
            );
        },
        None => {},
    }
}

/// Of two lists with the same profiles and distinct names, the second holds
/// for every profile of the first one of the same name that weighs the same
/// against the right store.
proof fn lemma_same_profiles_covered_left(
    one: Seq<ProfileView>,
    other: Seq<ProfileView>,
    right: Seq<ProfileView>,
)
    requires
        distinct_names(one),
        all_well_formed(one),
        all_well_formed(other),
        all_well_formed(right),
        same_profiles(one, other),
    ensures
        covered(one, other, name_of(), left_profile_weight(right)),
{
    assert forall|i: int| 0 <= i < one.len() implies has_match(
        other,
        #[trigger] one[i],
        name_of(),
        left_profile_weight(right),
    ) by {
        let name = one[i].name;
        lemma_distinct_names_first(one, i);
        lemma_first_named(other, name);
        let j = first_named(other, name).unwrap();
        lemma_first_named(right, name);
        match first_named(right, name) {
            Some(k) => {
                law_sites_diff_count_unordered(
                    one[i].sites,
                    right[k].sites,
                    other[j].sites,
                    right[k].sites,
                );
            },
            None => {},
        }
        assert(matched(other, j, one[i], name_of(), left_profile_weight(right)));
    }
}

/// Of two lists with the same profiles and distinct names, the second holds
/// for every profile of the first one of the same name, and a profile of
/// the right store weighs by its name alone.
proof fn lemma_same_profiles_covered_right(
    one: Seq<ProfileView>,
    other: Seq<ProfileView>,
    left: Seq<ProfileView>,
)
    requires
        distinct_names(one),
        same_profiles(one, other),
    ensures
        covered(one, other, name_of(), right_profile_weight(left)),
{
    assert forall|i: int| 0 <= i < one.len() implies has_match(
        other,
        #[trigger] one[i],
        name_of(),
        right_profile_weight(left),
    ) by {
        let name = one[i].name;
        lemma_distinct_names_first(one, i);
        lemma_first_named(other, name);
        let j = first_named(other, name).unwrap();
        assert(matched(other, j, one[i], name_of(), right_profile_weight(left)));
    }
}

/// A list has the same profiles as itself.
pub proof fn lemma_same_profiles_reflexive(profiles: Seq<ProfileView>)
    ensures
        same_profiles(profiles, profiles),
{
    assert forall|name: Seq<char>|
        match (#[trigger] first_named(profiles, name), first_named(profiles, name)) {
            (Some(i), Some(j)) => as_map(profiles[i].sites) == as_map(profiles[j].sites),
            (None, None) => true,
            _ => false,
        } by {}
}

/// `same_profiles` holds in both directions.
pub proof fn lemma_same_profiles_symmetric(one: Seq<ProfileView>, other: Seq<ProfileView>)
    requires
        same_profiles(one, other),
    ensures
        same_profiles(other, one),
{
    assert forall|name: Seq<char>|
        match (#[trigger] first_named(other, name), first_named(one, name)) {
            (Some(i), Some(j)) => as_map(other[i].sites) == as_map(one[j].sites),
            (None, None) => true,
            _ => false,
        } by {
        assert(first_named(one, name) is Some || first_named(one, name) is None);
    }
}

/// Two pairs of stores give the same number of mismatches where they have
/// the same settings and, under the same names, profiles with the same maps
/// of sites, in whatever order each store holds its profiles and each
/// profile its sites. The names of each store are distinct: of profiles
/// with one name only the first counts, and which is first depends on the
/// order.
pub proof fn law_diff_count_unordered(
    left: StoreView,
    right: StoreView,
    other_left: StoreView,
    other_right: StoreView,
)
    requires
        left.well_formed(),
        right.well_formed(),
        other_left.well_formed(),
        other_right.well_formed(),
        distinct_names(left.profiles),
        distinct_names(right.profiles),
        distinct_names(other_left.profiles),
        distinct_names(other_right.profiles),
        left.version == other_left.version,
        left.default_mail == other_left.default_mail,
        right.version == other_right.version,
        right.default_mail == other_right.default_mail,
        same_profiles(left.profiles, other_left.profiles),
        same_profiles(right.profiles, other_right.profiles),
    ensures
        store_diff(left, right).len() == store_diff(other_left, other_right).len(),
{
    let l1 = left.profiles;
    let r1 = right.profiles;
    let l2 = other_left.profiles;
    let r2 = other_right.profiles;
    assert(settings_diff(left, right) == settings_diff(other_left, other_right));
    lemma_left_profiles_total(l1, r1, l1.len());
    lemma_left_profiles_total(l2, r2, l2.len());
    lemma_right_profiles_total(l1, r1, r1.len());
    lemma_right_profiles_total(l2, r2, r2.len());
    assert(l1.take(l1.len() as int) =~= l1);
    assert(r1.take(r1.len() as int) =~= r1);
    assert(l2.take(l2.len() as int) =~= l2);
    assert(r2.take(r2.len() as int) =~= r2);
    lemma_same_profiles_symmetric(l1, l2);
    lemma_same_profiles_symmetric(r1, r2);

    lemma_same_profiles_covered_left(l1, l2, r1);
    lemma_same_profiles_covered_left(l2, l1, r1);
    lemma_total_unordered(l1, l2, name_of(), left_profile_weight(r1));
    assert forall|i: int| 0 <= i < l2.len() implies left_profile_weight(r1)(#[trigger] l2[i])
        == left_profile_weight(r2)(l2[i]) by {
        lemma_left_profile_weight_same(l2[i], r1, r2);
    }
    lemma_total_same_weights(l2, left_profile_weight(r1), left_profile_weight(r2));

    lemma_same_profiles_covered_right(r1, r2, l1);
    lemma_same_profiles_covered_right(r2, r1, l1);
    lemma_total_unordered(r1, r2, name_of(), right_profile_weight(l1));
    assert forall|i: int| 0 <= i < r2.len() implies right_profile_weight(l1)(#[trigger] r2[i])
        == right_profile_weight(l2)(r2[i]) by {
        assert(first_named(l1, r2[i].name) is Some || first_named(l1, r2[i].name) is None);
    }
    lemma_total_same_weights(r2, right_profile_weight(l1), right_profile_weight(l2));
}

} // verus!
