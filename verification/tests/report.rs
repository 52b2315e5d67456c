use license_report::convert::{
    authors_from, convert_entry, convert_source, license_from, normalize, split_key,
    PackageJsonLicenses,
};
use license_report::error::ReportError;
use license_report::order::precedes;
use license_report::pipeline::{generate, output_text};
use license_report::record::{CargoTomlLicense, PackageJsonLicense, PackageJsonLicenseVariant};
use license_report::report::{
    assemble, compile_filter, extrude, filter_records, goes_before, is_retained, render_records,
    render_report, sort_records, ReportOptions,
};
use license_report::template::{split_lines, split_template, TemplateSections};
use license_report::text::{
    chars_of, find_from, join_range, join_texts, replace_all, stands_at, text_of, text_of_range,
};
use std::cmp::Ordering;

fn record(name: &str, version: &str) -> CargoTomlLicense {
    CargoTomlLicense {
        name: name.to_string(),
        version: version.to_string(),
        authors: String::new(),
        repository: None,
        license: None,
        license_file: None,
        description: None,
    }
}

fn full_record() -> CargoTomlLicense {
    CargoTomlLicense {
        name: "pkg".to_string(),
        version: "1.0.0".to_string(),
        authors: "It's Me <me@example.com>".to_string(),
        repository: Some("https://example.com/pkg".to_string()),
        license: Some("MIT".to_string()),
        license_file: Some("LICENSE".to_string()),
        description: Some("a package".to_string()),
    }
}

fn package() -> PackageJsonLicense {
    PackageJsonLicense {
        licenses: None,
        repository: None,
        publisher: None,
        email: None,
        license_file: None,
    }
}

fn options() -> ReportOptions {
    ReportOptions {
        match_name: None,
        match_license: None,
        match_name_invert: false,
        match_license_invert: false,
        escape_authors: false,
    }
}

fn sections(header: &str, body: &str, footer: &str) -> TemplateSections {
    TemplateSections {
        header: header.to_string(),
        body: body.to_string(),
        footer: footer.to_string(),
    }
}

fn names(records: &Vec<CargoTomlLicense>) -> Vec<String> {
    records.iter().map(|r| format!("{}@{}", r.name, r.version)).collect()
}

fn replace(text: &str, from: &str, to: &str) -> String {
    text_of(&replace_all(&chars_of(text), &chars_of(from), &chars_of(to)))
}

#[test]
fn chars_and_text_round_trip() {
    let chars = chars_of("a\u{e9}\u{4e16}\u{1f600}z");
    assert_eq!(chars, vec!['a', '\u{e9}', '\u{4e16}', '\u{1f600}', 'z']);
    assert_eq!(text_of(&chars), "a\u{e9}\u{4e16}\u{1f600}z");
    assert_eq!(text_of(&Vec::new()), "");
    assert_eq!(chars_of(""), Vec::<char>::new());
}

#[test]
fn text_of_range_takes_the_characters_between() {
    let chars = chars_of("hello world");
    assert_eq!(text_of_range(&chars, 0, 5), "hello");
    assert_eq!(text_of_range(&chars, 6, 11), "world");
    assert_eq!(text_of_range(&chars, 3, 3), "");
}

#[test]
fn find_from_gives_the_first_index_or_the_length() {
    let chars = chars_of("a@b@c");
    assert_eq!(find_from(&chars, 0, '@'), 1);
    assert_eq!(find_from(&chars, 1, '@'), 1);
    assert_eq!(find_from(&chars, 2, '@'), 3);
    assert_eq!(find_from(&chars, 4, '@'), 5);
    assert_eq!(find_from(&chars, 5, '@'), 5);
}

#[test]
fn stands_at_compares_at_one_index() {
    let text = chars_of("xx{name}");
    let token = chars_of("{name}");
    assert!(stands_at(&text, 2, &token));
    assert!(!stands_at(&text, 1, &token));
    assert!(!stands_at(&text, 3, &token));
    assert!(!stands_at(&text, 8, &token));
    assert!(stands_at(&text, 8, &Vec::new()));
}

#[test]
fn replace_all_replaces_every_occurrence() {
    assert_eq!(replace("{n} and {n}", "{n}", "x"), "x and x");
    assert_eq!(replace("abc", "b", ""), "ac");
    assert_eq!(replace("abc", "d", "x"), "abc");
    assert_eq!(replace("", "a", "x"), "");
    assert_eq!(replace("abab", "ab", "ab"), "abab");
}

#[test]
fn replace_all_takes_occurrences_from_the_left_without_overlap() {
    assert_eq!(replace("aaa", "aa", "b"), "ba");
    assert_eq!(replace("aaaa", "aa", "b"), "bb");
    assert_eq!(replace("ababa", "aba", "x"), "xba");
}

#[test]
fn replace_all_does_not_search_what_it_put_in() {
    assert_eq!(replace("a", "a", "aa"), "aa");
    assert_eq!(replace("xy", "x", "xx"), "xxy");
}

#[test]
fn replace_all_with_an_empty_token_changes_nothing() {
    assert_eq!(replace("abc", "", "x"), "abc");
}

#[test]
fn replace_all_agrees_with_str_replace() {
    let texts = ["", "a", "{name}", "x{name}y{name}", "{{name}}", "{name", "name}", "<<>>"];
    let tokens = ["{name}", "<", ">", "a", "{"];
    for text in texts {
        for token in tokens {
            assert_eq!(replace(text, token, "&lt;"), text.replace(token, "&lt;"));
        }
    }
}

#[test]
fn join_texts_puts_the_separator_between() {
    let parts = vec!["a".to_string(), "b".to_string(), "c".to_string()];
    assert_eq!(join_texts(&parts, ","), "a,b,c");
    assert_eq!(join_texts(&parts, "\n"), "a\nb\nc");
    assert_eq!(join_texts(&vec!["a".to_string()], ","), "a");
    assert_eq!(join_texts(&Vec::new(), ","), "");
    assert_eq!(join_texts(&vec![String::new(), String::new()], ","), ",");
    assert_eq!(join_range(&parts, 1, 3, "-"), "b-c");
    assert_eq!(join_range(&parts, 1, 1, "-"), "");
}

#[test]
fn precedes_is_the_order_of_str() {
    let texts = ["", "a", "ab", "b", "B", "abc", "\u{e9}", "z", "\u{4e16}", "a\u{e9}", "~"];
    for a in texts {
        for b in texts {
            assert_eq!(precedes(a, b), a < b, "{:?} {:?}", a, b);
        }
    }
}

#[test]
fn records_are_equal_by_name_and_version_only() {
    let mut a = full_record();
    let b = record("pkg", "1.0.0");
    assert!(a == b);
    a.version = "1.0.1".to_string();
    assert!(a != b);
    assert!(record("pkg", "1") != record("other", "1"));
}

#[test]
fn records_are_ordered_by_name() {
    assert_eq!(record("a", "2").partial_cmp(&record("b", "1")), Some(Ordering::Less));
    assert_eq!(record("b", "1").partial_cmp(&record("a", "2")), Some(Ordering::Greater));
    assert_eq!(record("a", "1").partial_cmp(&record("a", "2")), Some(Ordering::Equal));
    assert!(record("a", "9") < record("b", "0"));
}

#[test]
fn scoped_name_splitting() {
    assert_eq!(
        split_key("@scope/pkg@1.2.3"),
        Some(("@scope/pkg".to_string(), "1.2.3".to_string()))
    );
    assert_eq!(split_key("plainpkg@2.0.0"), Some(("plainpkg".to_string(), "2.0.0".to_string())));
}

#[test]
fn split_key_splits_at_the_first_separator() {
    assert_eq!(split_key("a@1@2"), Some(("a".to_string(), "1@2".to_string())));
    assert_eq!(split_key("a@"), Some(("a".to_string(), String::new())));
    assert_eq!(split_key("@@x@1"), Some(("@".to_string(), "x@1".to_string())));
    assert_eq!(split_key("@s@"), Some(("@s".to_string(), String::new())));
}

#[test]
fn split_key_refuses_a_key_without_version() {
    assert_eq!(split_key("plainpkg"), None);
    assert_eq!(split_key("@scope/pkg"), None);
    assert_eq!(split_key("@"), None);
    assert_eq!(split_key(""), None);
}

#[test]
fn authors_follow_the_four_cases() {
    let publisher = Some("Jane".to_string());
    let email = Some("jane@example.com".to_string());
    assert_eq!(authors_from(&publisher, &email), "Jane <jane@example.com>");
    assert_eq!(authors_from(&publisher, &None), "Jane");
    assert_eq!(authors_from(&None, &email), "<jane@example.com>");
    assert_eq!(authors_from(&None, &None), "");
}

#[test]
fn license_join() {
    let list = PackageJsonLicenseVariant::V(vec!["MIT".to_string(), "Apache-2.0".to_string()]);
    assert_eq!(license_from(&Some(list)), Some("MIT,Apache-2.0".to_string()));
}

#[test]
fn license_single_absent_and_empty_list() {
    let one = PackageJsonLicenseVariant::S("ISC".to_string());
    assert_eq!(license_from(&Some(one)), Some("ISC".to_string()));
    assert_eq!(license_from(&None), None);
    assert_eq!(license_from(&Some(PackageJsonLicenseVariant::V(Vec::new()))), Some(String::new()));
}

#[test]
fn convert_entry_fills_every_field() {
    let value = PackageJsonLicense {
        licenses: Some(PackageJsonLicenseVariant::V(vec!["MIT".to_string(), "X11".to_string()])),
        repository: Some("https://example.com/r".to_string()),
        publisher: Some("Jane".to_string()),
        email: Some("jane@example.com".to_string()),
        license_file: Some("/tmp/LICENSE".to_string()),
    };
    let entry = convert_entry("@scope/pkg@1.2.3", &value).unwrap();
    assert_eq!(entry.name, "@scope/pkg");
    assert_eq!(entry.version, "1.2.3");
    assert_eq!(entry.authors, "Jane <jane@example.com>");
    assert_eq!(entry.repository, Some("https://example.com/r".to_string()));
    assert_eq!(entry.license, Some("MIT,X11".to_string()));
    assert_eq!(entry.license_file, Some("/tmp/LICENSE".to_string()));
    assert_eq!(entry.description, None);
    assert!(convert_entry("nokey", &value).is_none());
}

#[test]
fn alternate_collection_keeps_one_value_for_a_key() {
    let mut licenses = PackageJsonLicenses::new();
    assert_eq!(licenses.len(), 0);
    licenses.insert("a@1".to_string(), package());
    licenses.insert("b@1".to_string(), package());
    let mut second = package();
    second.publisher = Some("P".to_string());
    licenses.insert("a@1".to_string(), second);
    assert_eq!(licenses.len(), 2);
    let records = convert_source(licenses);
    assert_eq!(names(&records), vec!["a@1", "b@1"]);
    assert_eq!(records[0].authors, "P");
}

#[test]
fn convert_source_converts_each_entry_in_order() {
    let mut licenses = PackageJsonLicenses::new();
    licenses.insert("zeta@2.0.0".to_string(), package());
    licenses.insert("@scope/alpha@1.0.0".to_string(), package());
    let records = convert_source(licenses);
    assert_eq!(names(&records), vec!["zeta@2.0.0", "@scope/alpha@1.0.0"]);
    assert!(records.iter().all(|r| r.description.is_none() && r.authors.is_empty()));
    assert_eq!(convert_source(PackageJsonLicenses::new()).len(), 0);
}

#[test]
fn normalize_takes_the_normalized_shape_as_it_is() {
    let mut other = PackageJsonLicenses::new();
    other.insert("x@1".to_string(), package());
    let given = vec![full_record(), record("b", "2")];
    let records = normalize(Some(given), Some(other)).unwrap();
    assert_eq!(records.len(), 2);
    assert_eq!(records[0].name, "pkg");
    assert_eq!(records[0].version, "1.0.0");
    assert_eq!(records[0].authors, "It's Me <me@example.com>");
    assert_eq!(records[0].repository, Some("https://example.com/pkg".to_string()));
    assert_eq!(records[0].license, Some("MIT".to_string()));
    assert_eq!(records[0].license_file, Some("LICENSE".to_string()));
    assert_eq!(records[0].description, Some("a package".to_string()));
    assert_eq!(names(&records), vec!["pkg@1.0.0", "b@2"]);
}

#[test]
fn normalize_converts_the_alternate_shape() {
    let mut from = PackageJsonLicenses::new();
    let mut value = package();
    value.email = Some("e@example.com".to_string());
    value.licenses = Some(PackageJsonLicenseVariant::S("MIT".to_string()));
    from.insert("pkg@1.0.0".to_string(), value);
    let records = normalize(None, Some(from)).unwrap();
    assert_eq!(records.len(), 1);
    assert_eq!(records[0].name, "pkg");
    assert_eq!(records[0].version, "1.0.0");
    assert_eq!(records[0].authors, "<e@example.com>");
    assert_eq!(records[0].license, Some("MIT".to_string()));
    assert_eq!(records[0].description, None);
}

#[test]
fn normalize_refuses_what_has_neither_shape() {
    assert_eq!(normalize(None, None).unwrap_err(), ReportError::FormatParseError);
    let mut from = PackageJsonLicenses::new();
    from.insert("good@1".to_string(), package());
    from.insert("bad".to_string(), package());
    assert_eq!(normalize(None, Some(from)).unwrap_err(), ReportError::FormatParseError);
}

#[test]
fn split_lines_follows_line_feeds() {
    assert_eq!(split_lines("a\nb\nc"), vec!["a", "b", "c"]);
    assert_eq!(split_lines("a\nb\n"), vec!["a", "b"]);
    assert_eq!(split_lines("a\n\nb"), vec!["a", "", "b"]);
    assert_eq!(split_lines("\n"), vec![""]);
    assert_eq!(split_lines("\n\n"), vec!["", ""]);
    assert_eq!(split_lines(""), Vec::<String>::new());
    assert_eq!(split_lines("one"), vec!["one"]);
}

#[test]
fn split_lines_drops_a_carriage_return_before_a_line_feed() {
    assert_eq!(split_lines("a\r\nb\r\n"), vec!["a", "b"]);
    assert_eq!(split_lines("a\rb\nc"), vec!["a\rb", "c"]);
    assert_eq!(split_lines("a\r\r\nb"), vec!["a\r", "b"]);
    assert_eq!(split_lines("\r\n"), vec![""]);
    assert_eq!(split_lines("a\nb\r"), vec!["a", "b\r"]);
}

#[test]
fn template_split() {
    let s = split_template("l1\nl2\nl3\nl4\nl5", 1, 1).unwrap();
    assert_eq!(s.header, "l1");
    assert_eq!(s.body, "l2\nl3\nl4");
    assert_eq!(s.footer, "l5");
}

#[test]
fn template_split_without_header_and_footer() {
    let s = split_template("l1\nl2\n", 0, 0).unwrap();
    assert_eq!(s.header, "");
    assert_eq!(s.body, "l1\nl2");
    assert_eq!(s.footer, "");
    let s = split_template("", 0, 0).unwrap();
    assert_eq!((s.header.as_str(), s.body.as_str(), s.footer.as_str()), ("", "", ""));
}

#[test]
fn template_split_may_leave_no_body() {
    let s = split_template("l1\nl2\nl3", 2, 1).unwrap();
    assert_eq!(s.header, "l1\nl2");
    assert_eq!(s.body, "");
    assert_eq!(s.footer, "l3");
    let s = split_template("l1\nl2\nl3", 0, 3).unwrap();
    assert_eq!(s.footer, "l1\nl2\nl3");
    assert_eq!(s.body, "");
}

#[test]
fn overflow() {
    assert_eq!(split_template("l1\nl2", 2, 1).unwrap_err(), ReportError::LineRangeError);
}

#[test]
fn overflow_is_never_clamped() {
    assert_eq!(split_template("l1\nl2", 3, 0).unwrap_err(), ReportError::LineRangeError);
    assert_eq!(split_template("l1\nl2", 0, 3).unwrap_err(), ReportError::LineRangeError);
    assert_eq!(split_template("", 1, 0).unwrap_err(), ReportError::LineRangeError);
    assert_eq!(
        split_template("l1\nl2", usize::MAX, usize::MAX).unwrap_err(),
        ReportError::LineRangeError
    );
    assert_eq!(split_template("l1\nl2", usize::MAX, 2).unwrap_err(), ReportError::LineRangeError);
}

#[test]
fn filtering() {
    let any = regex::Regex::new(".*").unwrap();
    let foo = regex::Regex::new("^foo").unwrap();
    let given = || vec![record("foo", "1"), record("bar", "1"), record("foobar", "1")];
    let kept = filter_records(given(), &foo, &any, false, false);
    assert_eq!(names(&kept), vec!["foo@1", "foobar@1"]);
    let kept = filter_records(given(), &foo, &any, true, false);
    assert_eq!(names(&kept), vec!["bar@1"]);
}

#[test]
fn filtering_by_license_takes_an_absent_license_as_empty() {
    let any = regex::Regex::new(".*").unwrap();
    let mit = regex::Regex::new("MIT").unwrap();
    let empty = regex::Regex::new("^$").unwrap();
    let mut a = record("a", "1");
    a.license = Some("MIT OR Apache-2.0".to_string());
    let mut b = record("b", "1");
    b.license = Some("GPL-3.0".to_string());
    let c = record("c", "1");
    let given = || vec![a.clone(), b.clone(), c.clone()];
    assert_eq!(names(&filter_records(given(), &any, &mit, false, false)), vec!["a@1"]);
    assert_eq!(names(&filter_records(given(), &any, &mit, false, true)), vec!["b@1", "c@1"]);
    assert_eq!(names(&filter_records(given(), &any, &empty, false, false)), vec!["c@1"]);
    assert_eq!(names(&filter_records(given(), &any, &any, true, false)), Vec::<String>::new());
    assert_eq!(names(&filter_records(given(), &any, &any, false, true)), Vec::<String>::new());
    assert_eq!(names(&filter_records(given(), &any, &any, true, true)), Vec::<String>::new());
    assert!(is_retained(&a, &any, &mit, false, false));
    assert!(!is_retained(&c, &any, &mit, false, false));
    assert!(!is_retained(&a, &any, &mit, true, false));
}

#[test]
fn compile_filter_takes_the_pattern_or_any() {
    let any = compile_filter(&None).unwrap();
    assert_eq!(any.as_str(), ".*");
    assert!(any.is_match(""));
    let given = compile_filter(&Some("^a+$".to_string())).unwrap();
    assert_eq!(given.as_str(), "^a+$");
    assert!(given.is_match("aaa"));
    assert!(!given.is_match("ab"));
    assert_eq!(compile_filter(&Some("(".to_string())).unwrap_err(), ReportError::InvalidPattern);
}

#[test]
fn sorting_goes_by_name_then_version() {
    let given = vec![
        record("b", "1"),
        record("a", "2"),
        record("c", "0"),
        record("a", "1"),
        record("B", "1"),
        record("ab", "1"),
    ];
    let sorted = sort_records(given);
    assert_eq!(names(&sorted), vec!["B@1", "a@1", "a@2", "ab@1", "b@1", "c@0"]);
    assert_eq!(sort_records(Vec::new()).len(), 0);
}

#[test]
fn sorting_keeps_the_order_of_equal_entries() {
    let mut first = record("a", "1");
    first.authors = "first".to_string();
    let mut second = record("a", "1");
    second.authors = "second".to_string();
    let mut third = record("a", "1");
    third.authors = "third".to_string();
    let sorted = sort_records(vec![record("b", "1"), first, second, record("0", "1"), third]);
    let authors: Vec<&str> = sorted.iter().map(|r| r.authors.as_str()).collect();
    assert_eq!(authors, vec!["", "first", "second", "third", ""]);
    assert_eq!(names(&sorted), vec!["0@1", "a@1", "a@1", "a@1", "b@1"]);
}

#[test]
fn sorting_agrees_with_the_order_of_pairs() {
    let pairs = [("b", "2"), ("a", "10"), ("a", "2"), ("", "x"), ("\u{e9}", "1"), ("z", ""), ("a", "")];
    let sorted = sort_records(pairs.iter().map(|(n, v)| record(n, v)).collect());
    let mut expected = pairs.to_vec();
    expected.sort();
    let got: Vec<(&str, &str)> = sorted.iter().map(|r| (r.name.as_str(), r.version.as_str())).collect();
    assert_eq!(got, expected);
    assert!(goes_before(&record("a", "1"), &record("a", "2")));
    assert!(!goes_before(&record("a", "2"), &record("a", "1")));
    assert!(!goes_before(&record("a", "1"), &record("a", "1")));
    assert!(goes_before(&record("a", "9"), &record("b", "0")));
}

#[test]
fn escaping() {
    let text = extrude(full_record(), &"{authors}".to_string(), true);
    assert_eq!(text, "It's Me &lt;me@example.com&gt;");
}

#[test]
fn without_escaping_authors_stay_as_they_are() {
    let text = extrude(full_record(), &"{authors}".to_string(), false);
    assert_eq!(text, "It's Me <me@example.com>");
}

#[test]
fn escaping_touches_the_authors_only() {
    let mut r = full_record();
    r.name = "<n>".to_string();
    r.authors = "<<a>>".to_string();
    let text = extrude(r, &"<{name}> {authors}".to_string(), true);
    assert_eq!(text, "<<n>> &lt;&lt;a&gt;&gt;");
}

#[test]
fn extrude_fills_every_placeholder() {
    let template =
        "{name}|{version}|{authors}|{repository}|{license}|{license_file}|{description}".to_string();
    assert_eq!(
        extrude(full_record(), &template, false),
        "pkg|1.0.0|It's Me <me@example.com>|https://example.com/pkg|MIT|LICENSE|a package"
    );
}

#[test]
fn extrude_writes_absent_fields_as_empty() {
    let template = "[{repository}][{license}][{license_file}][{description}][{authors}]".to_string();
    assert_eq!(extrude(record("n", "v"), &template, true), "[][][][][]");
}

#[test]
fn extrude_replaces_every_occurrence_of_a_placeholder() {
    let template = "{name} {name}\n{version}{version} {nam} {Name}".to_string();
    assert_eq!(extrude(record("n", "v"), &template, false), "n n\nvv {nam} {Name}");
    assert_eq!(extrude(record("n", "v"), &String::new(), false), "");
}

#[test]
fn extrude_fills_the_placeholders_one_kind_after_the_other() {
    let mut r = record("{version}", "{name}");
    r.authors = "{license}".to_string();
    r.license = Some("L".to_string());
    assert_eq!(extrude(r, &"{name} {version} {authors}".to_string(), false), "{name} {name} L");
}

#[test]
fn assemble_puts_header_bodies_and_footer_together() {
    let bodies = vec!["b1".to_string(), "b2".to_string()];
    assert_eq!(assemble("H", &bodies, "F"), "H\nb1\nb2\nF");
    assert_eq!(assemble("", &bodies, "F"), "b1\nb2\nF");
    assert_eq!(assemble("H", &bodies, ""), "H\nb1\nb2\n");
    assert_eq!(assemble("", &Vec::new(), ""), "\n");
    assert_eq!(assemble("H", &Vec::new(), "F"), "H\n\nF");
}

#[test]
fn end_to_end() {
    let mut r = record("pkg", "1.0.0");
    r.authors = "A".to_string();
    r.license = Some("MIT".to_string());
    let text = generate("{name} {version} {license}", 0, 0, Some(vec![r]), None, &options());
    assert_eq!(output_text(text.unwrap(), false), "pkg 1.0.0 MIT\n\n");
}

#[test]
fn a_report_is_written_to_a_file_as_it_is() {
    let mut r = record("pkg", "1.0.0");
    r.license = Some("MIT".to_string());
    let text = render_report(vec![r], &options(), &sections("", "{name} {version} {license}", ""));
    assert_eq!(text.clone().unwrap(), "pkg 1.0.0 MIT\n");
    assert_eq!(output_text(text.unwrap(), true), "pkg 1.0.0 MIT\n");
    assert_eq!(output_text(String::new(), false), "\n");
}

#[test]
fn render_report_filters_sorts_and_writes() {
    let mut opts = options();
    opts.match_name = Some("^foo".to_string());
    let given = vec![record("foobar", "2"), record("bar", "1"), record("foo", "1")];
    let text = render_report(given, &opts, &sections("HEAD", "{name}-{version}", "FOOT")).unwrap();
    assert_eq!(text, "HEAD\nfoo-1\nfoobar-2\nFOOT");
    opts.match_name_invert = true;
    let given = vec![record("foobar", "2"), record("bar", "1"), record("foo", "1")];
    let text = render_report(given, &opts, &sections("HEAD", "{name}-{version}", "FOOT")).unwrap();
    assert_eq!(text, "HEAD\nbar-1\nFOOT");
}

#[test]
fn render_report_refuses_a_pattern_that_does_not_compile() {
    let mut opts = options();
    opts.match_name = Some("foo(bar".to_string());
    let s = sections("", "{name}", "");
    assert_eq!(render_report(vec![record("a", "1")], &opts, &s).unwrap_err(), ReportError::InvalidPattern);
    let mut opts = options();
    opts.match_license = Some("[".to_string());
    assert_eq!(render_report(Vec::new(), &opts, &s).unwrap_err(), ReportError::InvalidPattern);
}

#[test]
fn render_records_goes_by_the_compiled_filters() {
    let name = regex::Regex::new("a").unwrap();
    let license = regex::Regex::new("^$").unwrap();
    let mut licensed = record("za", "1");
    licensed.license = Some("MIT".to_string());
    let given = vec![record("ca", "1"), licensed, record("b", "1"), record("a", "1")];
    let s = sections("", "{name}", "end");
    assert_eq!(render_records(given, &name, &license, false, false, false, &s), "a\nca\nend");
}

#[test]
fn generate_makes_the_report_from_the_template_text() {
    let mut r = record("pkg", "1.0.0");
    r.authors = "A <a@example.com>".to_string();
    let mut opts = options();
    opts.escape_authors = true;
    let template = "# NOTICES\n{name} {version}\nby {authors}\n-- end\n";
    let text = generate(template, 1, 1, Some(vec![record("zz", "2"), r]), None, &opts).unwrap();
    assert_eq!(
        text,
        "# NOTICES\npkg 1.0.0\nby A &lt;a@example.com&gt;\nzz 2\nby \n-- end"
    );
}

#[test]
fn generate_takes_the_alternate_shape_where_the_normalized_one_failed() {
    let mut from = PackageJsonLicenses::new();
    let mut value = package();
    value.publisher = Some("P".to_string());
    value.licenses = Some(PackageJsonLicenseVariant::V(vec!["MIT".to_string(), "ISC".to_string()]));
    from.insert("b@2".to_string(), package());
    from.insert("@s/a@1".to_string(), value);
    let text = generate("{name} {version} {authors} {license}", 0, 0, None, Some(from), &options());
    assert_eq!(text.unwrap(), "@s/a 1 P MIT,ISC\nb 2  \n");
}

#[test]
fn generate_reports_the_first_error() {
    let mut bad = options();
    bad.match_name = Some("(".to_string());
    assert_eq!(generate("a", 1, 1, None, None, &bad).unwrap_err(), ReportError::LineRangeError);
    assert_eq!(generate("a", 1, 0, None, None, &bad).unwrap_err(), ReportError::FormatParseError);
    assert_eq!(
        generate("a", 1, 0, Some(Vec::new()), None, &bad).unwrap_err(),
        ReportError::InvalidPattern
    );
    assert_eq!(generate("a", 1, 0, Some(Vec::new()), None, &options()).unwrap(), "a\n\n");
}

#[test]
fn split_lines_agrees_with_str_lines() {
    let texts =
        ["", "a", "a\n", "\n", "\n\n", "a\nb", "a\r\nb", "\r\n", "a\r\n\r\nb\n", "a\rb", "\ra\n", "x\n\ny\n\n"];
    for text in texts {
        let expected: Vec<String> = text.lines().map(str::to_string).collect();
        assert_eq!(split_lines(text), expected, "{:?}", text);
    }
}

#[test]
fn a_key_is_its_name_and_its_version() {
    for key in ["a@1", "@s/a@1.0", "@@", "a@@", "@a@b@c", "\u{e9}@\u{4e16}"] {
        let (name, version) = split_key(key).unwrap();
        assert_eq!(format!("{}@{}", name, version), key);
    }
}

#[test]
fn escaped_authors_hold_no_angle_bracket() {
    for authors in ["<>", "a <b@c>", "><><", "&lt;<", "no brackets", ""] {
        let mut r = record("n", "v");
        r.authors = authors.to_string();
        let text = extrude(r, &"{authors}".to_string(), true);
        assert!(!text.contains('<') && !text.contains('>'));
        assert_eq!(text, authors.replace("<", "&lt;").replace(">", "&gt;"));
    }
}

#[test]
fn sorting_keeps_every_entry() {
    let given = vec![record("b", "1"), record("a", "1"), record("b", "1"), record("a", "0")];
    let mut before = names(&given);
    let mut after = names(&sort_records(given));
    assert_eq!(after, vec!["a@0", "a@1", "b@1", "b@1"]);
    before.sort();
    after.sort();
    assert_eq!(before, after);
}

#[test]
fn sorting_does_not_depend_on_the_order_given() {
    let first = vec![record("b", "2"), record("a", "1"), record("b", "1"), record("c", "0")];
    let second = vec![record("c", "0"), record("b", "1"), record("a", "1"), record("b", "2")];
    let expected = vec!["a@1", "b@1", "b@2", "c@0"];
    assert_eq!(names(&sort_records(first)), expected);
    assert_eq!(names(&sort_records(second)), expected);
}

#[test]
fn the_filters_keep_exactly_what_passes_both() {
    let name = regex::Regex::new("^[ab]").unwrap();
    let license = regex::Regex::new("MIT").unwrap();
    let mut given = Vec::new();
    for n in ["a", "b", "c"] {
        for l in [None, Some("MIT"), Some("ISC")] {
            let mut r = record(n, l.unwrap_or("none"));
            r.license = l.map(str::to_string);
            given.push(r);
        }
    }
    for (name_invert, license_invert) in [(false, false), (false, true), (true, false), (true, true)] {
        let kept = filter_records(given.clone(), &name, &license, name_invert, license_invert);
        let expected: Vec<String> = given
            .iter()
            .filter(|r| {
                (name.is_match(&r.name) != name_invert)
                    && (license.is_match(r.license.as_deref().unwrap_or("")) != license_invert)
            })
            .map(|r| format!("{}@{}", r.name, r.version))
            .collect();
        assert_eq!(names(&kept), expected);
        assert_eq!(kept.len(), if name_invert { 1 } else { 2 } * if license_invert { 2 } else { 1 });
    }
}

#[test]
fn the_filters_go_by_the_expression_as_it_was_built() {
    let any = regex::Regex::new(".*").unwrap();
    let exact = regex::Regex::new("a").unwrap();
    let relaxed = regex::RegexBuilder::new("a").case_insensitive(true).build().unwrap();
    assert_eq!(exact.as_str(), relaxed.as_str());
    let given = || vec![record("A", "1"), record("a", "1"), record("b", "1")];
    assert_eq!(names(&filter_records(given(), &exact, &any, false, false)), vec!["a@1"]);
    assert_eq!(names(&filter_records(given(), &relaxed, &any, false, false)), vec!["A@1", "a@1"]);
    assert!(!is_retained(&record("A", "1"), &exact, &any, false, false));
    assert!(is_retained(&record("A", "1"), &relaxed, &any, false, false));
    let s = sections("", "{name}", "");
    assert_eq!(render_records(given(), &relaxed, &any, true, false, false, &s), "b\n");
}

#[test]
fn keys_that_differ_give_entries_that_differ() {
    let mut from = PackageJsonLicenses::new();
    for key in ["a@1", "a@1@", "a@@1", "@a@1", "@a@", "a@", "@@a@1"] {
        from.insert(key.to_string(), package());
    }
    let records = convert_source(from);
    assert_eq!(records.len(), 7);
    for i in 0..records.len() {
        for j in 0..i {
            assert!(records[i] != records[j], "{:?} {:?}", records[i], records[j]);
        }
    }
}
