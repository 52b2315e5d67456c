use crate::convert::{all_composite, converted_all, models, normalize, PackageJsonLicenses};
use crate::error::ReportError;
use crate::pattern::{pattern_compiles, pattern_test};
use crate::record::{CargoTomlLicense, LicenseModel};
use crate::report::{pattern_or_any, render_report, report_text, ReportOptions};
use crate::template::{lines_of, sections_fit, sections_of, split_template, EOL};
use vstd::prelude::*;
use vstd::string::StringExecFns;

verus! {

/// The entries of an input that was read in both shapes: those read in the
/// normalized shape; where that reading failed, those that the alternate
/// shape stands for; none where both failed or a key holds no version.
pub open spec fn normalized(
    as_normalized: Option<Vec<CargoTomlLicense>>,
    as_alternate: Option<PackageJsonLicenses>,
) -> Option<Seq<LicenseModel>> {
    match (as_normalized, as_alternate) {
        (Some(given), _) => Some(models(given@)),
        (None, Some(from)) => if all_composite(from.entries()) {
            Some(converted_all(from.entries()))
        } else {
            None
        },
        (None, None) => None,
    }
}

/// What `generate` returns: the report, or the first thing that stands in
/// its way. The template's line counts are checked first, then the shape of
/// the input, then the two patterns.
pub open spec fn generated(
    template: Seq<char>,
    header_lines: nat,
    footer_lines: nat,
    entries: Option<Seq<LicenseModel>>,
    options: ReportOptions,
) -> Result<Seq<char>, ReportError> {
    if !sections_fit(lines_of(template).len(), header_lines, footer_lines) {
        Err(ReportError::LineRangeError)
    } else if entries is None {
        Err(ReportError::FormatParseError)
    } else if !pattern_compiles(pattern_or_any(options.match_name)) || !pattern_compiles(
        pattern_or_any(options.match_license),
    ) {
        Err(ReportError::InvalidPattern)
    } else {
        Ok(
            report_text(
                entries->0,
                pattern_test(pattern_or_any(options.match_name)),
                pattern_test(pattern_or_any(options.match_license)),
                options.match_name_invert,
                options.match_license_invert,
                options.escape_authors,
                sections_of(lines_of(template), header_lines, footer_lines),
            ),
        )
    }
}

/// Makes the report: splits the template, takes the entries of the input in
/// whichever shape it was read, filters and orders them, and writes each by
/// the template's body between header and footer.
pub fn generate(
    template: &str,
    header_lines: usize,
    footer_lines: usize,
    as_normalized: Option<Vec<CargoTomlLicense>>,
    as_alternate: Option<PackageJsonLicenses>,
    options: &ReportOptions,
) -> (report: Result<String, ReportError>)
    ensures
        match generated(
            template@,
            header_lines as nat,
            footer_lines as nat,
            normalized(as_normalized, as_alternate),
            *options,
        ) {
            Ok(text) => report is Ok && report->Ok_0@ == text,
            Err(e) => report is Err && report->Err_0 == e,
        },
{
    let sections = match split_template(template, header_lines, footer_lines) {
        Ok(sections) => sections,
        Err(e) => {
            return Err(e);
        },
    };
    let records = match normalize(as_normalized, as_alternate) {
        Ok(records) => records,
        Err(e) => {
            return Err(e);
        },
    };
    render_report(records, options, &sections)
}

/// What is written for a report: to a file the report as it is, to the
/// standard output the report and one line feed.
pub open spec fn written(report: Seq<char>, to_file: bool) -> Seq<char> {
    if to_file {
        report
    } else {
        report + EOL@
    }
}

/// The text to write for `report`, to a file or to the standard output.
pub fn output_text(report: String, to_file: bool) -> (text: String)
    ensures
        text@ == written(report@, to_file),
{
    if to_file {
        report
    } else {
        report.concat(EOL)
    }
}

} // verus!
