use crate::error::ReportError;
use crate::record::{
    clone_opt, text_opt, CargoTomlLicense, CargoTomlLicenses, LicenseModel, PackageJsonLicense,
    PackageJsonLicenseVariant,
};
use crate::text::{chars_of, find_from, first_index_of, join_texts, joined, push_char, text_of_range, texts};
use vstd::prelude::*;
use vstd::string::StringExecFns;

verus! {

/// The separator between the licenses of a list.
pub const LICENSE_SEPARATOR: &'static str = ",";

/// What a `PackageJsonLicenseVariant` holds, as mathematical values.
pub ghost enum VariantModel {
    S(Seq<char>),
    V(Seq<Seq<char>>),
}

/// What a `PackageJsonLicense` holds, as mathematical values.
pub ghost struct PackageModel {
    pub licenses: Option<VariantModel>,
    pub repository: Option<Seq<char>>,
    pub publisher: Option<Seq<char>>,
    pub email: Option<Seq<char>>,
    pub license_file: Option<Seq<char>>,
}

impl View for PackageJsonLicenseVariant {
    type V = VariantModel;

    open spec fn view(&self) -> VariantModel {
        match self {
            PackageJsonLicenseVariant::S(s) => VariantModel::S(s@),
            PackageJsonLicenseVariant::V(v) => VariantModel::V(texts(v@)),
        }
    }
}

impl View for PackageJsonLicense {
    type V = PackageModel;

    open spec fn view(&self) -> PackageModel {
        PackageModel {
            licenses: match self.licenses {
                Some(l) => Some(l@),
                None => None,
            },
            repository: text_opt(self.repository),
            publisher: text_opt(self.publisher),
            email: text_opt(self.email),
            license_file: text_opt(self.license_file),
        }
    }
}

/// Whether a key names a scoped package: it starts with `@`.
pub open spec fn key_is_scoped(key: Seq<char>) -> bool {
    key.len() > 0 && key[0] == '@'
}

/// The key without the one `@` that marks a scope.
pub open spec fn key_body(key: Seq<char>) -> Seq<char> {
    if key_is_scoped(key) {
        key.skip(1)
    } else {
        key
    }
}

/// Whether a key holds a name and a version: behind the scope mark, if there
/// is one, an `@` is left to split on.
pub open spec fn key_is_composite(key: Seq<char>) -> bool {
    first_index_of(key_body(key), '@') < key_body(key).len()
}

/// The package name in a key: what stands before the first `@` that is not
/// the scope mark, the scope mark included.
pub open spec fn key_name(key: Seq<char>) -> Seq<char> {
    let part = key_body(key).take(first_index_of(key_body(key), '@'));
    if key_is_scoped(key) {
        seq!['@'] + part
    } else {
        part
    }
}

/// The version in a key: all that follows the `@` that ends the name.
pub open spec fn key_version(key: Seq<char>) -> Seq<char> {
    key_body(key).skip(first_index_of(key_body(key), '@') + 1)
}

/// The authors of an entry, from its publisher and that publisher's address.
pub open spec fn authors_of(publisher: Option<Seq<char>>, email: Option<Seq<char>>) -> Seq<char> {
    match (publisher, email) {
        (Some(p), Some(e)) => p + seq![' ', '<'] + e + seq!['>'],
        (Some(p), None) => p,
        (None, Some(e)) => seq!['<'] + e + seq!['>'],
        (None, None) => Seq::empty(),
    }
}

/// The license of an entry: the one expression as it is, or the listed ones
/// joined by commas.
pub open spec fn license_of(licenses: Option<VariantModel>) -> Option<Seq<char>> {
    match licenses {
        Some(VariantModel::S(s)) => Some(s),
        Some(VariantModel::V(v)) => Some(joined(v, LICENSE_SEPARATOR@)),
        None => None,
    }
}

/// The entry that a key and a value of the alternate shape stand for.
pub open spec fn converted(key: Seq<char>, value: PackageModel) -> LicenseModel {
    LicenseModel {
        name: key_name(key),
        version: key_version(key),
        authors: authors_of(value.publisher, value.email),
        repository: value.repository,
        license: license_of(value.licenses),
        license_file: value.license_file,
        description: None,
    }
}

/// The entries of the normalized shape, as mathematical values.
pub open spec fn models(records: Seq<CargoTomlLicense>) -> Seq<LicenseModel> {
    records.map_values(|r: CargoTomlLicense| r@)
}

/// The entries that the keys and values of the alternate shape stand for, one
/// for each and in their order.
pub open spec fn converted_all(entries: Seq<(String, PackageJsonLicense)>) -> Seq<LicenseModel> {
    entries.map_values(|e: (String, PackageJsonLicense)| converted(e.0@, e.1@))
}

/// Whether every key of `entries` holds a name and a version.
pub open spec fn all_composite(entries: Seq<(String, PackageJsonLicense)>) -> bool {
    forall|i: int| 0 <= i < entries.len() ==> key_is_composite((#[trigger] entries[i]).0@)
}

/// Name and version of a key, or `None` for a key that holds no version.
pub fn split_key(key: &str) -> (parts: Option<(String, String)>)
    ensures
        match parts {
            Some((name, version)) => key_is_composite(key@) && name@ == key_name(key@)
                && version@ == key_version(key@),
            None => !key_is_composite(key@),
        },
{
    let chars = chars_of(key);
    let start: usize = if chars.len() > 0 && chars[0] == '@' {
        1
    } else {
        0
    };
    let at = find_from(&chars, start, '@');
    assert(chars@.skip(start as int) =~= key_body(key@));
    if at >= chars.len() {
        return None;
    }
    let name = text_of_range(&chars, 0, at);
    let version = text_of_range(&chars, at + 1, chars.len());
    Some((name, version))
}

/// The authors of an entry, from its publisher and that publisher's address.
pub fn authors_from(publisher: &Option<String>, email: &Option<String>) -> (authors: String)
    ensures
        authors@ == authors_of(text_opt(*publisher), text_opt(*email)),
{
    match (publisher, email) {
        (Some(p), Some(e)) => {
            let mut authors = p.clone();
            push_char(&mut authors, ' ');
            push_char(&mut authors, '<');
            authors.append(e.as_str());
            push_char(&mut authors, '>');
            authors
        },
        (Some(p), None) => p.clone(),
        (None, Some(e)) => {
            let mut authors = String::new();
            push_char(&mut authors, '<');
            authors.append(e.as_str());
            push_char(&mut authors, '>');
            authors
        },
        (None, None) => String::new(),
    }
}

/// The license of an entry: the one expression as it is, or the listed ones
/// joined by commas.
pub fn license_from(licenses: &Option<PackageJsonLicenseVariant>) -> (license: Option<String>)
    ensures
        text_opt(license) == license_of(
            match *licenses {
                Some(l) => Some(l@),
                None => None,
            },
        ),
{
    match licenses {
        Some(PackageJsonLicenseVariant::S(s)) => Some(s.clone()),
        Some(PackageJsonLicenseVariant::V(v)) => Some(join_texts(v, LICENSE_SEPARATOR)),
        None => None,
    }
}

/// The entry that a key and a value of the alternate shape stand for, or
/// `None` for a key that holds no version.
pub fn convert_entry(key: &str, value: &PackageJsonLicense) -> (entry: Option<CargoTomlLicense>)
    ensures
        entry is Some <==> key_is_composite(key@),
        entry is Some ==> entry->0@ == converted(key@, value@),
{
    match split_key(key) {
        None => None,
        Some((name, version)) => Some(
            CargoTomlLicense {
                name,
                version,
                authors: authors_from(&value.publisher, &value.email),
                repository: clone_opt(&value.repository),
                license: license_from(&value.licenses),
                license_file: clone_opt(&value.license_file),
                description: None,
            },
        ),
    }
}

/// The alternate shape: license entries under keys made of a package's name,
/// an `@` and its version. No key occurs twice.
#[derive(Debug, Clone)]
pub struct PackageJsonLicenses {
    entries: Vec<(String, PackageJsonLicense)>,
}

impl PackageJsonLicenses {
    /// Keys and values, in the order in which the keys first came.
    pub closed spec fn entries(&self) -> Seq<(String, PackageJsonLicense)> {
        self.entries@
    }

    /// No key occurs twice.
    pub open spec fn wf(&self) -> bool {
        forall|i: int, j: int|
            0 <= i < j < self.entries().len() ==> (#[trigger] self.entries()[i]).0@ != (
            #[trigger] self.entries()[j]).0@
    }

    /// Whether `key` is among the keys.
    pub open spec fn has_key(&self, key: Seq<char>) -> bool {
        exists|i: int| 0 <= i < self.entries().len() && (#[trigger] self.entries()[i]).0@ == key
    }

    /// A collection without entries.
    pub fn new() -> (licenses: PackageJsonLicenses)
        ensures
            licenses.wf(),
            licenses.entries().len() == 0,
    {
        PackageJsonLicenses { entries: Vec::new() }
    }

    /// The number of entries.
    pub fn len(&self) -> (n: usize)
        ensures
            n == self.entries().len(),
    {
        self.entries.len()
    }

    /// Puts `value` under `key`. Where the key is new, the entry goes to the
    /// end; where it is there already, the value takes the old one's place.
    pub fn insert(&mut self, key: String, value: PackageJsonLicense)
        requires
            old(self).wf(),
        ensures
            final(self).wf(),
            !old(self).has_key(key@) ==> final(self).entries() == old(self).entries().push(
                (key, value),
            ),
            forall|i: int|
                0 <= i < old(self).entries().len() && (#[trigger] old(self).entries()[i]).0@
                    == key@ ==> final(self).entries() == old(self).entries().update(
                    i,
                    (key, value),
                ),
    {
        let mut i: usize = 0;
        while i < self.entries.len()
            invariant
                *self == *old(self),
                old(self).wf(),
                i <= self.entries.len(),
                forall|k: int| 0 <= k < i ==> (#[trigger] self.entries()[k]).0@ != key@,
            decreases self.entries.len() - i,
        {
            if self.entries[i].0 == key {
                self.entries.set(i, (key, value));
                assert forall|k: int|
                    0 <= k < old(self).entries().len() && (#[trigger] old(self).entries()[k]).0@
                        == key@ implies k == i by {
                    if k != i {
                        assert(old(self).entries()[i as int].0@ == key@);
                    }
                }
                return ;
            }
            i += 1;
        }
        self.entries.push((key, value));
    }

    /// The normalized entries that the keys and values stand for, in their
    /// order, or `None` where a key holds no version.
    pub fn convert_checked(&self) -> (records: Option<Vec<CargoTomlLicense>>)
        ensures
            records is Some <==> all_composite(self.entries()),
            records is Some ==> records->0@.len() == self.entries().len() && models(records->0@)
                == converted_all(self.entries()),
    {
        let mut records: Vec<CargoTomlLicense> = Vec::new();
        let mut i: usize = 0;
        while i < self.entries.len()
            invariant
                i <= self.entries.len(),
                records@.len() == i,
                all_composite(self.entries().take(i as int)),
                models(records@) == converted_all(self.entries().take(i as int)),
            decreases self.entries.len() - i,
        {
            let ghost done = self.entries().take(i as int);
            let ghost before = records@;
            match convert_entry(self.entries[i].0.as_str(), &self.entries[i].1) {
                None => {
                    return None;
                },
                Some(entry) => {
                    records.push(entry);
                },
            }
            i += 1;
            proof {
                let now = self.entries().take(i as int);
                assert forall|k: int| 0 <= k < now.len() implies models(records@)[k]
                    == converted_all(now)[k] by {
                    if k < i - 1 {
                        assert(models(before)[k] == converted_all(done)[k]);
                    }
                }
            }
        }
        assert(self.entries().take(i as int) =~= self.entries());
        Some(records)
    }
}

/// The normalized entries that the keys and values of the alternate shape
/// stand for, one for each and in their order.
pub fn convert_source(from: PackageJsonLicenses) -> (records: CargoTomlLicenses)
    requires
        all_composite(from.entries()),
    ensures
        records@.len() == from.entries().len(),
        models(records@) == converted_all(from.entries()),
{
    from.convert_checked().unwrap()
}

/// The entries of an input that was read in both shapes. What was read in
/// the normalized shape is taken as it is. Only where that reading failed
/// does the alternate shape count, converted entry by entry. An input that
/// has neither shape, or whose alternate shape holds a key without a
/// version, is refused.
pub fn normalize(
    as_normalized: Option<CargoTomlLicenses>,
    as_alternate: Option<PackageJsonLicenses>,
) -> (records: Result<CargoTomlLicenses, ReportError>)
    ensures
        match (as_normalized, as_alternate) {
            (Some(given), _) => records == Ok::<Vec<CargoTomlLicense>, ReportError>(given),
            (None, Some(from)) => if all_composite(from.entries()) {
                records is Ok && records->Ok_0@.len() == from.entries().len() && models(
                    records->Ok_0@,
                ) == converted_all(from.entries())
            } else {
                records == Err::<Vec<CargoTomlLicense>, ReportError>(ReportError::FormatParseError)
            },
            (None, None) => records == Err::<Vec<CargoTomlLicense>, ReportError>(
                ReportError::FormatParseError,
            ),
        },
{
    match as_normalized {
        Some(given) => Ok(given),
        None => match as_alternate {
            Some(from) => match from.convert_checked() {
                Some(records) => Ok(records),
                None => Err(ReportError::FormatParseError),
            },
            None => Err(ReportError::FormatParseError),
        },
    }
}

} // verus!
