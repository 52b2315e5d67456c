use crate::convert::models;
use crate::error::ReportError;
use crate::order::{precedes, text_less};
use crate::pattern::{pattern_compiles, pattern_matches, pattern_test, regex_accepts, regex_test};
use crate::record::{text_opt, text_or_empty, CargoTomlLicense, LicenseModel};
use crate::template::{SectionsModel, TemplateSections, EOL};
use crate::text::{chars_of, join_texts, joined, replace_all, replaced, text_of, texts};
use vstd::prelude::*;
use vstd::string::StringExecFns;

verus! {

/// The placeholder for the name of an entry.
pub const TEMPLATE_PATTERN_NAME: &'static str = "{name}";

/// The placeholder for the version of an entry.
pub const TEMPLATE_PATTERN_VERSION: &'static str = "{version}";

/// The placeholder for the authors of an entry.
pub const TEMPLATE_PATTERN_AUTHORS: &'static str = "{authors}";

/// The placeholder for the repository of an entry.
pub const TEMPLATE_PATTERN_REPOSITORY: &'static str = "{repository}";

/// The placeholder for the license of an entry.
pub const TEMPLATE_PATTERN_LICENSE: &'static str = "{license}";

/// The placeholder for the license file of an entry.
pub const TEMPLATE_PATTERN_LICENSE_FILE: &'static str = "{license_file}";

/// The placeholder for the description of an entry.
pub const TEMPLATE_PATTERN_DESCRIPTION: &'static str = "{description}";

/// The pattern that a filter uses where none is given: it matches every
/// text.
pub const REGEX_PATTERN_ANY: &'static str = ".*";

/// The first character that escaping replaces.
pub const LESS_THAN: &'static str = "<";

/// The second character that escaping replaces.
pub const GREATER_THAN: &'static str = ">";

/// What escaping writes for `<`.
pub const ESCAPED_LESS_THAN: &'static str = "&lt;";

/// What escaping writes for `>`.
pub const ESCAPED_GREATER_THAN: &'static str = "&gt;";

/// Authors with every `<` and `>` written as a character reference.
pub open spec fn escaped(authors: Seq<char>) -> Seq<char> {
    replaced(
        replaced(authors, LESS_THAN@, ESCAPED_LESS_THAN@),
        GREATER_THAN@,
        ESCAPED_GREATER_THAN@,
    )
}

/// The authors as a report shows them.
pub open spec fn shown_authors(authors: Seq<char>, escape_authors: bool) -> Seq<char> {
    if escape_authors {
        escaped(authors)
    } else {
        authors
    }
}

/// A body template with the fields of one entry in the place of the
/// placeholders. The placeholders are replaced one kind after the other, in
/// the order name, version, authors, repository, license, license file,
/// description; a field that is absent counts as empty.
pub open spec fn rendered(template: Seq<char>, entry: LicenseModel, escape_authors: bool) -> Seq<
    char,
> {
    let t = replaced(template, TEMPLATE_PATTERN_NAME@, entry.name);
    let t = replaced(t, TEMPLATE_PATTERN_VERSION@, entry.version);
    let t = replaced(t, TEMPLATE_PATTERN_AUTHORS@, shown_authors(entry.authors, escape_authors));
    let t = replaced(t, TEMPLATE_PATTERN_REPOSITORY@, text_or_empty(entry.repository));
    let t = replaced(t, TEMPLATE_PATTERN_LICENSE@, text_or_empty(entry.license));
    let t = replaced(t, TEMPLATE_PATTERN_LICENSE_FILE@, text_or_empty(entry.license_file));
    replaced(t, TEMPLATE_PATTERN_DESCRIPTION@, text_or_empty(entry.description))
}

/// `text` with every occurrence of `token` replaced by `value`.
fn substitute(text: &Vec<char>, token: &str, value: &str) -> (out: Vec<char>)
    ensures
        out@ == replaced(text@, token@, value@),
{
    replace_all(text, &chars_of(token), &chars_of(value))
}

/// `text` with every occurrence of `token` replaced by what `value` holds,
/// or taken out where it holds nothing.
fn substitute_opt(text: &Vec<char>, token: &str, value: &Option<String>) -> (out: Vec<char>)
    ensures
        out@ == replaced(text@, token@, text_or_empty(text_opt(*value))),
{
    match value {
        Some(v) => substitute(text, token, v.as_str()),
        None => replace_all(text, &chars_of(token), &Vec::new()),
    }
}

/// The body template filled with the fields of one entry.
pub fn extrude(from: CargoTomlLicense, template: &String, escape_authors: bool) -> (text: String)
    ensures
        text@ == rendered(template@, from@, escape_authors),
{
    let authors = if escape_authors {
        let a = substitute(&chars_of(from.authors.as_str()), LESS_THAN, ESCAPED_LESS_THAN);
        text_of(&substitute(&a, GREATER_THAN, ESCAPED_GREATER_THAN))
    } else {
        from.authors
    };
    let t = chars_of(template.as_str());
    let t = substitute(&t, TEMPLATE_PATTERN_NAME, from.name.as_str());
    let t = substitute(&t, TEMPLATE_PATTERN_VERSION, from.version.as_str());
    let t = substitute(&t, TEMPLATE_PATTERN_AUTHORS, authors.as_str());
    let t = substitute_opt(&t, TEMPLATE_PATTERN_REPOSITORY, &from.repository);
    let t = substitute_opt(&t, TEMPLATE_PATTERN_LICENSE, &from.license);
    let t = substitute_opt(&t, TEMPLATE_PATTERN_LICENSE_FILE, &from.license_file);
    let t = substitute_opt(&t, TEMPLATE_PATTERN_DESCRIPTION, &from.description);
    text_of(&t)
}

/// Whether the filters keep an entry: its name passes the name filter and
/// its license, taken as empty where it has none, passes the license filter.
/// A filter passes the texts on which its test holds, or, inverted, those on
/// which it does not.
pub open spec fn retained(
    name_test: spec_fn(Seq<char>) -> bool,
    license_test: spec_fn(Seq<char>) -> bool,
    name_invert: bool,
    license_invert: bool,
    entry: LicenseModel,
) -> bool {
    name_test(entry.name) != name_invert && license_test(text_or_empty(entry.license))
        != license_invert
}

/// Whether the filters keep `entry`. The license is not looked at where the
/// name does not pass.
pub fn is_retained(
    entry: &CargoTomlLicense,
    match_name: &regex::Regex,
    match_license: &regex::Regex,
    match_name_invert: bool,
    match_license_invert: bool,
) -> (keep: bool)
    ensures
        keep == retained(
            regex_test(*match_name),
            regex_test(*match_license),
            match_name_invert,
            match_license_invert,
            entry@,
        ),
{
    let result_name = match_name.is_match(entry.name.as_str()) != match_name_invert;
    if result_name {
        let found = match &entry.license {
            Some(license) => match_license.is_match(license.as_str()),
            None => match_license.is_match(String::new().as_str()),
        };
        found != match_license_invert
    } else {
        false
    }
}

/// The entries that the filters keep, in their order.
pub open spec fn kept_records(
    records: Seq<LicenseModel>,
    name_test: spec_fn(Seq<char>) -> bool,
    license_test: spec_fn(Seq<char>) -> bool,
    name_invert: bool,
    license_invert: bool,
) -> Seq<LicenseModel> {
    records.filter(
        |r: LicenseModel| retained(name_test, license_test, name_invert, license_invert, r),
    )
}

/// The entries that the filters keep, in their order.
pub fn filter_records(
    records: Vec<CargoTomlLicense>,
    match_name: &regex::Regex,
    match_license: &regex::Regex,
    match_name_invert: bool,
    match_license_invert: bool,
) -> (kept: Vec<CargoTomlLicense>)
    ensures
        models(kept@) == kept_records(
            models(records@),
            regex_test(*match_name),
            regex_test(*match_license),
            match_name_invert,
            match_license_invert,
        ),
{
    let ghost name_test = regex_test(*match_name);
    let ghost license_test = regex_test(*match_license);
    let mut kept: Vec<CargoTomlLicense> = Vec::new();
    for entry in it: records
        invariant
            it.seq() == records@,
            name_test == regex_test(*match_name),
            license_test == regex_test(*match_license),
            models(kept@) == kept_records(
                models(records@).take(it.index()),
                name_test,
                license_test,
                match_name_invert,
                match_license_invert,
            ),
    {
        proof {
            reveal(Seq::filter);
            let next = models(records@).take(it.index() + 1);
            assert(next.drop_last() =~= models(records@).take(it.index()));
        }
        if is_retained(&entry, match_name, match_license, match_name_invert, match_license_invert) {
            kept.push(entry);
        }
    }
    assert(models(records@).take(records@.len() as int) =~= models(records@));
    kept
}

/// Whether `a` comes before `b` in a report: by name, and between entries of
/// one name by version.
pub open spec fn comes_before(a: LicenseModel, b: LicenseModel) -> bool {
    text_less(a.name, b.name) || (a.name == b.name && text_less(a.version, b.version))
}

/// Where `entry` goes among `records`: in front of the first one that it
/// comes before, or at the end.
pub open spec fn place_of(records: Seq<LicenseModel>, entry: LicenseModel) -> int
    decreases records.len(),
{
    if records.len() == 0 || comes_before(entry, records[0]) {
        0
    } else {
        1 + place_of(records.drop_first(), entry)
    }
}

/// The entries in the order of a report. Each entry, taken in the order
/// given, goes to its place among those that came before it; so entries of
/// one name and version keep the order in which they were given.
pub open spec fn sorted_records(records: Seq<LicenseModel>) -> Seq<LicenseModel>
    decreases records.len(),
{
    if records.len() == 0 {
        records
    } else {
        let front = sorted_records(records.drop_last());
        front.insert(place_of(front, records.last()), records.last())
    }
}

/// `place_of` is the one index before which `entry` comes before nothing and
/// at which, unless it is the length, stands what `entry` comes before.
pub proof fn lemma_place_of(records: Seq<LicenseModel>, entry: LicenseModel, place: int)
    requires
        0 <= place <= records.len(),
        forall|j: int| 0 <= j < place ==> !comes_before(entry, #[trigger] records[j]),
        place < records.len() ==> comes_before(entry, records[place]),
    ensures
        place_of(records, entry) == place,
    decreases records.len(),
{
    if records.len() == 0 || comes_before(entry, records[0]) {
    } else {
        let rest = records.drop_first();
        lemma_place_of(rest, entry, place - 1);
    }
}

/// Whether `a` comes before `b` in a report.
pub fn goes_before(a: &CargoTomlLicense, b: &CargoTomlLicense) -> (before: bool)
    ensures
        before == comes_before(a@, b@),
{
    if precedes(a.name.as_str(), b.name.as_str()) {
        true
    } else if a.name == b.name {
        precedes(a.version.as_str(), b.version.as_str())
    } else {
        false
    }
}

/// The entries in the order of a report.
pub fn sort_records(records: Vec<CargoTomlLicense>) -> (sorted: Vec<CargoTomlLicense>)
    ensures
        models(sorted@) == sorted_records(models(records@)),
{
    let mut sorted: Vec<CargoTomlLicense> = Vec::new();
    for entry in it: records
        invariant
            it.seq() == records@,
            models(sorted@) == sorted_records(models(records@).take(it.index())),
    {
        let ghost before = sorted@;
        let mut place: usize = 0;
        while place < sorted.len() && !goes_before(&entry, &sorted[place])
            invariant
                place <= sorted.len(),
                forall|j: int| 0 <= j < place ==> !comes_before(entry@, #[trigger] sorted@[j]@),
            decreases sorted.len() - place,
        {
            place += 1;
        }
        proof {
            let next = models(records@).take(it.index() + 1);
            assert(next.drop_last() =~= models(records@).take(it.index()));
            lemma_place_of(models(before), entry@, place as int);
        }
        sorted.insert(place, entry);
    }
    assert(models(records@).take(records@.len() as int) =~= models(records@));
    sorted
}

/// The bodies of a report: the body template filled once for each entry.
pub open spec fn bodies_of(records: Seq<LicenseModel>, template: Seq<char>, escape_authors: bool) -> Seq<
    Seq<char>,
> {
    records.map_values(|r: LicenseModel| rendered(template, r, escape_authors))
}

/// A report put together: the header and a line feed, unless the header is
/// empty; the bodies with a line feed between each two; one more line feed;
/// the footer.
pub open spec fn assembled(header: Seq<char>, bodies: Seq<Seq<char>>, footer: Seq<char>) -> Seq<
    char,
> {
    let opening = if header.len() == 0 {
        Seq::empty()
    } else {
        header + EOL@
    };
    opening + joined(bodies, EOL@) + EOL@ + footer
}

/// Puts a report together from its header, the filled bodies and its footer.
pub fn assemble(header: &str, bodies: &Vec<String>, footer: &str) -> (text: String)
    ensures
        text@ == assembled(header@, texts(bodies@), footer@),
{
    let mut text = String::new();
    if !header.is_empty() {
        text.append(header);
        text.append(EOL);
    }
    text.append(join_texts(bodies, EOL).as_str());
    text.append(EOL);
    text.append(footer);
    text
}

/// The report on `records`: those that the filters keep, in the order of a
/// report, each written by the body template, between header and footer.
pub open spec fn report_text(
    records: Seq<LicenseModel>,
    name_test: spec_fn(Seq<char>) -> bool,
    license_test: spec_fn(Seq<char>) -> bool,
    name_invert: bool,
    license_invert: bool,
    escape_authors: bool,
    sections: SectionsModel,
) -> Seq<char> {
    assembled(
        sections.header,
        bodies_of(
            sorted_records(
                kept_records(records, name_test, license_test, name_invert, license_invert),
            ),
            sections.body,
            escape_authors,
        ),
        sections.footer,
    )
}

/// The report on `records` under filters that are compiled already.
pub fn render_records(
    records: Vec<CargoTomlLicense>,
    match_name: &regex::Regex,
    match_license: &regex::Regex,
    match_name_invert: bool,
    match_license_invert: bool,
    escape_authors: bool,
    sections: &TemplateSections,
) -> (text: String)
    ensures
        text@ == report_text(
            models(records@),
            regex_test(*match_name),
            regex_test(*match_license),
            match_name_invert,
            match_license_invert,
            escape_authors,
            sections@,
        ),
{
    let kept = filter_records(
        records,
        match_name,
        match_license,
        match_name_invert,
        match_license_invert,
    );
    let sorted = sort_records(kept);
    let mut bodies: Vec<String> = Vec::new();
    for entry in it: sorted
        invariant
            it.seq() == sorted@,
            bodies@.len() == it.index(),
            texts(bodies@) == bodies_of(
                models(sorted@).take(it.index()),
                sections.body@,
                escape_authors,
            ),
    {
        let ghost before = texts(bodies@);
        let ghost done = models(sorted@).take(it.index());
        bodies.push(extrude(entry, &sections.body, escape_authors));
        proof {
            let next = models(sorted@).take(it.index() + 1);
            assert forall|k: int| 0 <= k < next.len() implies texts(bodies@)[k] == bodies_of(
                next,
                sections.body@,
                escape_authors,
            )[k] by {
                if k < it.index() {
                    assert(before[k] == bodies_of(done, sections.body@, escape_authors)[k]);
                }
            }
        }
    }
    assert(models(sorted@).take(sorted@.len() as int) =~= models(sorted@));
    assemble(sections.header.as_str(), &bodies, sections.footer.as_str())
}

/// How a report is filtered and written.
#[derive(Debug, Clone)]
pub struct ReportOptions {
    /// The pattern that a name must match; every name passes where none is
    /// given.
    pub match_name: Option<String>,
    /// The pattern that a license must match; every license passes where
    /// none is given.
    pub match_license: Option<String>,
    /// Keep the entries whose name does not match, in place of those whose
    /// name does.
    pub match_name_invert: bool,
    /// Keep the entries whose license does not match, in place of those
    /// whose license does.
    pub match_license_invert: bool,
    /// Write `<` and `>` in authors as character references.
    pub escape_authors: bool,
}

/// The pattern that a filter goes by: the one given, or the one that matches
/// every text.
pub open spec fn pattern_or_any(pattern: Option<String>) -> Seq<char> {
    match pattern {
        Some(p) => p@,
        None => REGEX_PATTERN_ANY@,
    }
}

/// Compiles the pattern of a filter: the one given, or the one that matches
/// every text. The compiled expression accepts the texts that the pattern
/// matches.
pub fn compile_filter(pattern: &Option<String>) -> (compiled: Result<regex::Regex, ReportError>)
    ensures
        compiled is Ok <==> pattern_compiles(pattern_or_any(*pattern)),
        compiled is Ok ==> forall|text: Seq<char>| #[trigger]
            regex_accepts(compiled->Ok_0, text) == pattern_matches(pattern_or_any(*pattern), text),
        compiled is Err ==> compiled->Err_0 == ReportError::InvalidPattern,
{
    let made = match pattern {
        Some(p) => regex::Regex::new(p.as_str()),
        None => regex::Regex::new(REGEX_PATTERN_ANY),
    };
    match made {
        Ok(re) => Ok(re),
        Err(_) => Err(ReportError::InvalidPattern),
    }
}

/// An expression that accepts the texts that a pattern matches makes the
/// test of that pattern.
pub proof fn lemma_same_test(re: regex::Regex, pattern: Seq<char>)
    requires
        forall|text: Seq<char>| #[trigger] regex_accepts(re, text) == pattern_matches(pattern, text),
    ensures
        regex_test(re) == pattern_test(pattern),
{
    assert(regex_test(re) =~= pattern_test(pattern));
}

/// The report on `records` under the filters of `options`. Both patterns
/// are compiled before any entry is looked at; where one of them cannot be
/// compiled there is no report.
pub fn render_report(
    records: Vec<CargoTomlLicense>,
    options: &ReportOptions,
    sections: &TemplateSections,
) -> (report: Result<String, ReportError>)
    ensures
        report is Ok <==> pattern_compiles(pattern_or_any(options.match_name))
            && pattern_compiles(pattern_or_any(options.match_license)),
        report is Ok ==> report->Ok_0@ == report_text(
            models(records@),
            pattern_test(pattern_or_any(options.match_name)),
            pattern_test(pattern_or_any(options.match_license)),
            options.match_name_invert,
            options.match_license_invert,
            options.escape_authors,
            sections@,
        ),
        report is Err ==> report->Err_0 == ReportError::InvalidPattern,
{
    let match_name = match compile_filter(&options.match_name) {
        Ok(re) => re,
        Err(e) => {
            return Err(e);
        },
    };
    let match_license = match compile_filter(&options.match_license) {
        Ok(re) => re,
        Err(e) => {
            return Err(e);
        },
    };
    proof {
        lemma_same_test(match_name, pattern_or_any(options.match_name));
        lemma_same_test(match_license, pattern_or_any(options.match_license));
    }
    Ok(
        render_records(
            records,
            &match_name,
            &match_license,
            options.match_name_invert,
            options.match_license_invert,
            options.escape_authors,
            sections,
        ),
    )
}

} // verus!
