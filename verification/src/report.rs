//! What a comparison of two stores reports: one record per mismatch, and the
//! line of text that stands for it.

use crate::text::{decimal, decimal_string};
use vstd::prelude::*;

verus! {

/// One of the two stores under comparison.
#[derive(Debug, Clone, Copy, PartialEq, Eq, Structural)]
pub enum Side {
    Left,
    Right,
}

/// A field of a site whose value may be shown.
#[derive(Debug, Clone, Copy, PartialEq, Eq, Structural)]
pub enum SiteField {
    Url,
    Name,
    Mail,
}

/// One difference between two stores.
///
/// A differing secret is recorded by the byte counts of the two values and
/// by nothing else of them.
#[derive(Debug, PartialEq, Eq)]
pub enum Mismatch {
    /// The schema versions differ.
    Version { left: String, right: String },
    /// The default accounts differ.
    DefaultMail { left: String, right: String },
    /// A profile of this name is in one store and not in `absent`.
    MissingProfile { name: String, absent: Side },
    /// A site under this host is in one profile and not in that of `absent`.
    MissingSite { host: String, absent: Side },
    /// A shown field of the site at `url` differs.
    Field { field: SiteField, url: String, left: String, right: String },
    /// The secret of the site at `url` differs.
    Secret { url: String, left_bytes: usize, right_bytes: usize },
}

/// A `Mismatch` as plain values.
pub enum MismatchView {
    Version { left: Seq<char>, right: Seq<char> },
    DefaultMail { left: Seq<char>, right: Seq<char> },
    MissingProfile { name: Seq<char>, absent: Side },
    MissingSite { host: Seq<char>, absent: Side },
    Field { field: SiteField, url: Seq<char>, left: Seq<char>, right: Seq<char> },
    Secret { url: Seq<char>, left_bytes: usize, right_bytes: usize },
}

impl View for Mismatch {
    type V = MismatchView;

    open spec fn view(&self) -> MismatchView {
        match *self {
            Mismatch::Version { left, right } => MismatchView::Version {
                left: left@,
                right: right@,
            },
            Mismatch::DefaultMail { left, right } => MismatchView::DefaultMail {
                left: left@,
                right: right@,
            },
            Mismatch::MissingProfile { name, absent } => MismatchView::MissingProfile {
                name: name@,
                absent,
            },
            Mismatch::MissingSite { host, absent } => MismatchView::MissingSite {
                host: host@,
                absent,
            },
            Mismatch::Field { field, url, left, right } => MismatchView::Field {
                field,
                url: url@,
                left: left@,
                right: right@,
            },
            Mismatch::Secret { url, left_bytes, right_bytes } => MismatchView::Secret {
                url: url@,
                left_bytes,
                right_bytes,
            },
        }
    }
}

/// The name under which a field is reported.
pub open spec fn field_name(field: SiteField) -> Seq<char> {
    match field {
        SiteField::Url => "Url"@,
        SiteField::Name => "Name"@,
        SiteField::Mail => "Mail"@,
    }
}

/// The label of one side.
pub open spec fn side_label(side: Side, left: Seq<char>, right: Seq<char>) -> Seq<char> {
    match side {
        Side::Left => left,
        Side::Right => right,
    }
}

/// The line of text for a mismatch, where the two stores go by the labels
/// `left` and `right`.
pub open spec fn message_text(m: MismatchView, left: Seq<char>, right: Seq<char>) -> Seq<char> {
    match m {
        MismatchView::Version { left: l, right: r } => "Version mismatch: "@ + l + " != "@ + r,
        MismatchView::DefaultMail { left: l, right: r } => "DefaultMail mismatch: "@ + l
            + " != "@ + r,
        MismatchView::MissingProfile { name, absent } => "Profile "@ + name + " not found in "@
            + side_label(absent, left, right),
        MismatchView::MissingSite { host, absent } => "Site "@ + host + " not found in "@
            + side_label(absent, left, right),
        MismatchView::Field { field, url, left: l, right: r } => field_name(field)
            + " mismatch at "@ + url + ": "@ + l + " != "@ + r,
        MismatchView::Secret { url, left_bytes, right_bytes } => "EncodedPass mismatch at "@ + url
            + ": ("@ + decimal(left_bytes as nat) + " bytes) != ("@ + decimal(right_bytes as nat)
            + " bytes)"@,
    }
}

impl SiteField {
    /// The name under which the field is reported.
    pub fn name(&self) -> (name: &'static str)
        ensures
            name@ == field_name(*self),
    {
        match self {
            SiteField::Url => "Url",
            SiteField::Name => "Name",
            SiteField::Mail => "Mail",
        }
    }
}

impl Mismatch {
    /// The line of text for this mismatch, where the two stores go by the
    /// labels `left` and `right`.
    pub fn message(&self, left: &str, right: &str) -> (line: String)
        ensures
            line@ == message_text(self@, left@, right@),
    {
        match self {
            Mismatch::Version { left: l, right: r } => {
                let mut line = String::from_str("Version mismatch: ");
                line.append(l.as_str());
                line.append(" != ");
                line.append(r.as_str());
                line
            },
            Mismatch::DefaultMail { left: l, right: r } => {
                let mut line = String::from_str("DefaultMail mismatch: ");
                line.append(l.as_str());
                line.append(" != ");
                line.append(r.as_str());
                line
            },
            Mismatch::MissingProfile { name, absent } => {
                let mut line = String::from_str("Profile ");
                line.append(name.as_str());
                line.append(" not found in ");
                match absent {
                    Side::Left => line.append(left),
                    Side::Right => line.append(right),
                }
                line
            },
            Mismatch::MissingSite { host, absent } => {
                let mut line = String::from_str("Site ");
                line.append(host.as_str());
                line.append(" not found in ");
                match absent {
                    Side::Left => line.append(left),
                    Side::Right => line.append(right),
                }
                line
            },
            Mismatch::Field { field, url, left: l, right: r } => {
                let mut line = String::from_str(field.name());
                line.append(" mismatch at ");
                line.append(url.as_str());
                line.append(": ");
                line.append(l.as_str());
                line.append(" != ");
                line.append(r.as_str());
                line
            },
            Mismatch::Secret { url, left_bytes, right_bytes } => {
                let mut line = String::from_str("EncodedPass mismatch at ");
                line.append(url.as_str());
                line.append(": (");
                line.append(decimal_string(*left_bytes).as_str());
                line.append(" bytes) != (");
                line.append(decimal_string(*right_bytes).as_str());
                line.append(" bytes)");
                line
            },
        }
    }
}

} // verus!
