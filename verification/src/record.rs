use crate::order::{precedes, text_less};
use std::cmp::Ordering;
use vstd::prelude::*;

verus! {

/// The view of an optional string.
pub open spec fn text_opt(s: Option<String>) -> Option<Seq<char>> {
    match s {
        Some(t) => Some(t@),
        None => None,
    }
}

/// The text that an optional field contributes: its content, or nothing.
pub open spec fn text_or_empty(s: Option<Seq<char>>) -> Seq<char> {
    match s {
        Some(t) => t,
        None => Seq::empty(),
    }
}

/// A copy of an optional string.
pub fn clone_opt(s: &Option<String>) -> (copy: Option<String>)
    ensures
        copy == *s,
{
    match s {
        Some(t) => Some(t.clone()),
        None => None,
    }
}

/// One dependency's license entry, in the shape that reports are made from.
#[derive(Debug, Clone)]
pub struct CargoTomlLicense {
    pub name: String,
    pub version: String,
    pub authors: String,
    pub repository: Option<String>,
    pub license: Option<String>,
    pub license_file: Option<String>,
    pub description: Option<String>,
}

/// License entries in the normalized shape, in the order of their source.
pub type CargoTomlLicenses = Vec<CargoTomlLicense>;

/// What a `CargoTomlLicense` holds, as mathematical values.
pub ghost struct LicenseModel {
    pub name: Seq<char>,
    pub version: Seq<char>,
    pub authors: Seq<char>,
    pub repository: Option<Seq<char>>,
    pub license: Option<Seq<char>>,
    pub license_file: Option<Seq<char>>,
    pub description: Option<Seq<char>>,
}

impl View for CargoTomlLicense {
    type V = LicenseModel;

    open spec fn view(&self) -> LicenseModel {
        LicenseModel {
            name: self.name@,
            version: self.version@,
            authors: self.authors@,
            repository: text_opt(self.repository),
            license: text_opt(self.license),
            license_file: text_opt(self.license_file),
            description: text_opt(self.description),
        }
    }
}

/// Two entries stand for the same dependency: name and version agree.
pub open spec fn same_package(a: LicenseModel, b: LicenseModel) -> bool {
    a.name == b.name && a.version == b.version
}

/// Entries are equal when they stand for the same dependency, whatever the
/// other fields hold.
impl PartialEq for CargoTomlLicense {
    fn eq(&self, other: &CargoTomlLicense) -> (equal: bool) {
        self.name == other.name && self.version == other.version
    }
}

impl vstd::std_specs::cmp::PartialEqSpecImpl for CargoTomlLicense {
    open spec fn obeys_eq_spec() -> bool {
        true
    }

    open spec fn eq_spec(&self, other: &CargoTomlLicense) -> bool {
        same_package(self@, other@)
    }
}

/// Entries are ordered by name. The comparison of two names always decides,
/// so the version never does: entries of one name are equivalent in this
/// order, also where their versions differ.
impl PartialOrd for CargoTomlLicense {
    fn partial_cmp(&self, other: &CargoTomlLicense) -> (order: Option<Ordering>) {
        if precedes(self.name.as_str(), other.name.as_str()) {
            Some(Ordering::Less)
        } else if precedes(other.name.as_str(), self.name.as_str()) {
            Some(Ordering::Greater)
        } else {
            Some(Ordering::Equal)
        }
    }
}

impl vstd::std_specs::cmp::PartialOrdSpecImpl for CargoTomlLicense {
    open spec fn obeys_partial_cmp_spec() -> bool {
        true
    }

    open spec fn partial_cmp_spec(&self, other: &CargoTomlLicense) -> Option<Ordering> {
        if text_less(self.name@, other.name@) {
            Some(Ordering::Less)
        } else if text_less(other.name@, self.name@) {
            Some(Ordering::Greater)
        } else {
            Some(Ordering::Equal)
        }
    }
}

/// A license as the alternate shape gives it: one expression, or several.
#[derive(Debug, Clone)]
pub enum PackageJsonLicenseVariant {
    S(String),
    V(Vec<String>),
}

/// One dependency's license entry in the alternate shape, where the key of
/// the entry carries name and version.
#[derive(Debug, Clone)]
pub struct PackageJsonLicense {
    pub licenses: Option<PackageJsonLicenseVariant>,
    pub repository: Option<String>,
    pub publisher: Option<String>,
    pub email: Option<String>,
    pub license_file: Option<String>,
}

} // verus!
