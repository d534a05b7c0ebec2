//! One credential record.

use crate::diff::{field_diff, secret_diff, site_diff};
use crate::error::Error;
use crate::host::{parse_host, url_host};
use crate::model::{lemma_views_push, views};
use crate::report::{Mismatch, SiteField};
use vstd::prelude::*;

verus! {

/// The credential kept for one URL.
#[allow(non_snake_case)]
#[derive(Debug, PartialEq, Eq)]
pub struct Site {
    /// The address the credential belongs to.
    pub Url: String,
    /// Display name, derived from the host of `Url`.
    pub Name: String,
    /// The encoded secret.
    pub EncodedPass: String,
    /// The account the credential is registered under.
    pub Mail: String,
}

/// What a `Site` holds, as plain text.
pub struct SiteView {
    pub url: Seq<char>,
    pub name: Seq<char>,
    pub encoded_pass: Seq<char>,
    pub mail: Seq<char>,
}

impl SiteView {
    /// The URL parses, and the name is its host.
    pub open spec fn well_formed(self) -> bool {
        url_host(self.url) == Some(self.name)
    }

    /// The site with its secret replaced by `secret`.
    pub open spec fn with_secret(self, secret: Seq<char>) -> SiteView {
        SiteView { encoded_pass: secret, ..self }
    }
}

impl View for Site {
    type V = SiteView;

    open spec fn view(&self) -> SiteView {
        SiteView {
            url: self.Url@,
            name: self.Name@,
            encoded_pass: self.EncodedPass@,
            mail: self.Mail@,
        }
    }
}

impl Clone for Site {
    fn clone(&self) -> (copy: Self)
        ensures
            copy == *self,
    {
        Site {
            Url: self.Url.clone(),
            Name: self.Name.clone(),
            EncodedPass: self.EncodedPass.clone(),
            Mail: self.Mail.clone(),
        }
    }
}

impl Site {
    /// The record for `url`, named after the host of the URL. A URL that
    /// does not parse, or that names no host, is refused.
    pub fn new(url: String, pass: String, mail: String) -> (made: Result<Site, Error>)
        ensures
            match url_host(url@) {
                Some(host) => made matches Ok(site) && site@.well_formed() && site@ == (SiteView {
                    url: url@,
                    name: host,
                    encoded_pass: pass@,
                    mail: mail@,
                }),
                None => made matches Err(e) && e == Error::InvalidUrl,
            },
    {
        match parse_host(url.as_str()) {
            Some(host) => Ok(Site { Url: url, Name: host, EncodedPass: pass, Mail: mail }),
            None => Err(Error::InvalidUrl),
        }
    }

    /// Replaces the secret and hands the record back for further calls.
    pub fn update_pass(&mut self, pass: String) -> (same: &mut Self)
        ensures
            *same == (Site { EncodedPass: pass, ..*old(self) }),
            same@ == old(self)@.with_secret(pass@),
            *final(self) == *final(same),
    {
        self.EncodedPass = pass;
        self
    }

    /// Compares the fields of two sites and appends one record to `report`
    /// for each that differs; returns how many differ.
    pub fn diff(&self, rhs: &Site, report: &mut Vec<Mismatch>) -> (count: usize)
        ensures
            views(final(report)@) == views(old(report)@) + site_diff(self@, rhs@),
            count == site_diff(self@, rhs@).len(),
            self@ == rhs@ ==> count == 0,
    {
        let ghost before = views(report@);
        let mut count: usize = 0;
        if self.Url != rhs.Url {
            let record = Mismatch::Field {
                field: SiteField::Url,
                url: self.Url.clone(),
                left: self.Url.clone(),
                right: rhs.Url.clone(),
            };
            proof {
                lemma_views_push(report@, record);
            }
            report.push(record);
            count += 1;
        }
        let ghost url_part = field_diff(SiteField::Url, self@.url, self@.url, rhs@.url);
        assert(views(report@) == before + url_part);
        if self.Name != rhs.Name {
            let record = Mismatch::Field {
                field: SiteField::Name,
                url: self.Url.clone(),
                left: self.Name.clone(),
                right: rhs.Name.clone(),
            };
            proof {
                lemma_views_push(report@, record);
            }
            report.push(record);
            count += 1;
        }
        let ghost name_part = url_part + field_diff(
            SiteField::Name,
            self@.url,
            self@.name,
            rhs@.name,
        );
        assert(views(report@) == before + name_part);
        if self.EncodedPass != rhs.EncodedPass {
            let record = Mismatch::Secret {
                url: self.Url.clone(),
                left_bytes: self.EncodedPass.as_str().len(),
                right_bytes: rhs.EncodedPass.as_str().len(),
            };
            proof {
                lemma_views_push(report@, record);
            }
            report.push(record);
            count += 1;
        }
        let ghost secret_part = name_part + secret_diff(
            self@.url,
            self@.encoded_pass,
            rhs@.encoded_pass,
        );
        assert(views(report@) == before + secret_part);
        if self.Mail != rhs.Mail {
            let record = Mismatch::Field {
                field: SiteField::Mail,
                url: self.Url.clone(),
                left: self.Mail.clone(),
                right: rhs.Mail.clone(),
            };
            proof {
                lemma_views_push(report@, record);
            }
            report.push(record);
            count += 1;
        }
        assert(views(report@) == before + site_diff(self@, rhs@));
        count
    }
}

} // verus!
