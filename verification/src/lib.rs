//! A local credential store: named profiles of site credentials keyed by host,
//! with fail-closed lookup, replace-in-place updates and a structural diff.

pub mod diff;
pub mod error;
pub mod gateway;
pub mod host;
pub mod laws;
pub mod model;
pub mod order;
pub mod profile;
pub mod report;
pub mod site;
pub mod site_map;
pub mod store;
pub mod text;

pub use error::Error;
pub use profile::Profile;
pub use report::{Mismatch, Side, SiteField};
pub use site::Site;
pub use site_map::SiteMap;
pub use store::Baccounts;
