//! What the comparison of two stores reports, stated over plain values.

use crate::model::{first_index, lemma_first_index};
use crate::profile::ProfileView;
use crate::report::{MismatchView, Side, SiteField};
use crate::site::SiteView;
use crate::site_map::{lookup, EntryView};
use crate::store::StoreView;
use vstd::prelude::*;
use vstd::utf8::encode_utf8;

verus! {

/// The number of bytes that `text` takes as a string.
pub open spec fn byte_count(text: Seq<char>) -> usize {
    encode_utf8(text).len() as usize
}

/// The report on one shown field of the site at `url`: nothing where the two
/// values agree, else one record with both values.
pub open spec fn field_diff(field: SiteField, url: Seq<char>, left: Seq<char>, right: Seq<char>)
    -> Seq<MismatchView> {
    if left == right {
        Seq::empty()
    } else {
        seq![MismatchView::Field { field, url, left, right }]
    }
}

/// The report on the secret of the site at `url`: nothing where the two
/// values agree, else one record with their byte counts.
pub open spec fn secret_diff(url: Seq<char>, left: Seq<char>, right: Seq<char>) -> Seq<
    MismatchView,
> {
    if left == right {
        Seq::empty()
    } else {
        seq![
            MismatchView::Secret {
                url,
                left_bytes: byte_count(left),
                right_bytes: byte_count(right),
            },
        ]
    }
}

/// The report on two sites: their fields in the order URL, name, secret,
/// account, each reported at the URL of the left site.
pub open spec fn site_diff(left: SiteView, right: SiteView) -> Seq<MismatchView> {
    field_diff(SiteField::Url, left.url, left.url, right.url) + field_diff(
        SiteField::Name,
        left.url,
        left.name,
        right.name,
    ) + secret_diff(left.url, left.encoded_pass, right.encoded_pass) + field_diff(
        SiteField::Mail,
        left.url,
        left.mail,
        right.mail,
    )
}

/// What one entry of the left profile adds to the report: the comparison
/// with the site that the right profile has under the same host, or the
/// record that it has none.
pub open spec fn left_entry_diff(entry: EntryView, right: Seq<EntryView>) -> Seq<MismatchView> {
    match lookup(right, entry.host) {
        Some(other) => site_diff(entry.site, other),
        None => seq![MismatchView::MissingSite { host: entry.host, absent: Side::Right }],
    }
}

/// What one entry of the right profile adds to the report: a record where
/// the left profile has no site under its host.
pub open spec fn right_entry_diff(entry: EntryView, left: Seq<EntryView>) -> Seq<MismatchView> {
    match lookup(left, entry.host) {
        Some(_) => Seq::empty(),
        None => seq![MismatchView::MissingSite { host: entry.host, absent: Side::Left }],
    }
}

/// The report on the first `upto` entries of the left profile.
pub open spec fn left_entries_diff(left: Seq<EntryView>, right: Seq<EntryView>, upto: nat) -> Seq<
    MismatchView,
>
    decreases upto,
{
    if upto == 0 {
        Seq::empty()
    } else {
        left_entries_diff(left, right, (upto - 1) as nat) + left_entry_diff(
            left[upto - 1],
            right,
        )
    }
}

/// The report on the first `upto` entries of the right profile.
pub open spec fn right_entries_diff(left: Seq<EntryView>, right: Seq<EntryView>, upto: nat) -> Seq<
    MismatchView,
>
    decreases upto,
{
    if upto == 0 {
        Seq::empty()
    } else {
        right_entries_diff(left, right, (upto - 1) as nat) + right_entry_diff(
            right[upto - 1],
            left,
        )
    }
}

/// The report on two lists of sites: for each host of the left list in its
/// order, then for each host that only the right list has, in its order.
pub open spec fn sites_diff(left: Seq<EntryView>, right: Seq<EntryView>) -> Seq<MismatchView> {
    left_entries_diff(left, right, left.len()) + right_entries_diff(left, right, right.len())
}

/// The report on two profiles, which is the report on their sites.
pub open spec fn profile_diff(left: ProfileView, right: ProfileView) -> Seq<MismatchView> {
    sites_diff(left.sites, right.sites)
}

/// The position of the first profile named `name`, if there is one.
pub open spec fn first_named(profiles: Seq<ProfileView>, name: Seq<char>) -> Option<int> {
    first_index(profiles, |profile: ProfileView| profile.name == name)
}

/// `first_named` finds the first profile of the name and reports `None` only
/// when no profile has it.
pub proof fn lemma_first_named(profiles: Seq<ProfileView>, name: Seq<char>)
    ensures
        match first_named(profiles, name) {
            Some(i) => {
                &&& 0 <= i < profiles.len()
                &&& profiles[i].name == name
                &&& forall|j: int| 0 <= j < i ==> (#[trigger] profiles[j]).name != name
            },
            None => forall|j: int|
                0 <= j < profiles.len() ==> (#[trigger] profiles[j]).name != name,
        },
{
    lemma_first_index(profiles, |profile: ProfileView| profile.name == name);
}

/// A profile at `at` whose earlier neighbours all have other names is the
/// one `first_named` finds for its name.
pub proof fn lemma_first_named_at(profiles: Seq<ProfileView>, at: int)
    requires
        0 <= at < profiles.len(),
        forall|j: int| 0 <= j < at ==> (#[trigger] profiles[j]).name != profiles[at].name,
    ensures
        first_named(profiles, profiles[at].name) == Some(at),
{
    lemma_first_named(profiles, profiles[at].name);
}

/// What the profile at `at` of the left store adds to the report. A profile
/// whose name an earlier one has adds nothing; the first of a name is
/// compared with the first of that name in the right store, or recorded as
/// missing there.
pub open spec fn left_profile_diff(left: Seq<ProfileView>, right: Seq<ProfileView>, at: int) -> Seq<
    MismatchView,
> {
    let name = left[at].name;
    if first_named(left, name) != Some(at) {
        Seq::empty()
    } else {
        match first_named(right, name) {
            Some(other) => profile_diff(left[at], right[other]),
            None => seq![MismatchView::MissingProfile { name, absent: Side::Right }],
        }
    }
}

/// What the profile at `at` of the right store adds to the report: a record
/// where it is the first of its name and the left store has none of it.
pub open spec fn right_profile_diff(left: Seq<ProfileView>, right: Seq<ProfileView>, at: int)
    -> Seq<MismatchView> {
    let name = right[at].name;
    if first_named(right, name) == Some(at) && first_named(left, name) is None {
        seq![MismatchView::MissingProfile { name, absent: Side::Left }]
    } else {
        Seq::empty()
    }
}

/// The report on the first `upto` profiles of the left store.
pub open spec fn left_profiles_diff(left: Seq<ProfileView>, right: Seq<ProfileView>, upto: nat)
    -> Seq<MismatchView>
    decreases upto,
{
    if upto == 0 {
        Seq::empty()
    } else {
        left_profiles_diff(left, right, (upto - 1) as nat) + left_profile_diff(
            left,
            right,
            upto - 1,
        )
    }
}

/// The report on the first `upto` profiles of the right store.
pub open spec fn right_profiles_diff(left: Seq<ProfileView>, right: Seq<ProfileView>, upto: nat)
    -> Seq<MismatchView>
    decreases upto,
{
    if upto == 0 {
        Seq::empty()
    } else {
        right_profiles_diff(left, right, (upto - 1) as nat) + right_profile_diff(
            left,
            right,
            upto - 1,
        )
    }
}

/// The report on the settings of two stores: the version, then the default
/// account.
pub open spec fn settings_diff(left: StoreView, right: StoreView) -> Seq<MismatchView> {
    (if left.version == right.version {
        Seq::empty()
    } else {
        seq![MismatchView::Version { left: left.version, right: right.version }]
    }) + (if left.default_mail == right.default_mail {
        Seq::empty()
    } else {
        seq![MismatchView::DefaultMail { left: left.default_mail, right: right.default_mail }]
    })
}

/// The report on two stores: the settings, then each name of the left store
/// in its order, then each name that only the right store has, in its order.
pub open spec fn store_diff(left: StoreView, right: StoreView) -> Seq<MismatchView> {
    settings_diff(left, right) + left_profiles_diff(
        left.profiles,
        right.profiles,
        left.profiles.len(),
    ) + right_profiles_diff(left.profiles, right.profiles, right.profiles.len())
}

} // verus!
