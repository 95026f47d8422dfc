use unitctl::list::{
    collect_unit_entries, format_table, is_service_candidate, listed_unit_name, pager_command,
    sort_unit_entries, unit_matches_filter, ListArgs, OutputFormat, UnitCandidate, UnitFileEntry,
};

fn entry(name: &str) -> UnitFileEntry {
    UnitFileEntry { unit_file: name.to_string(), state: "enabled".to_string(), vendor_preset: "enabled".to_string() }
}

fn lines(text: &str) -> Vec<String> {
    text.lines().map(|l| l.to_string()).collect()
}

fn cand(path: &str, is_file: bool, text: Option<&str>) -> UnitCandidate {
    UnitCandidate { path: path.to_string(), is_file, name_is_unicode: true, lines: text.map(lines) }
}

fn names(es: &[UnitFileEntry]) -> Vec<String> {
    es.iter().map(|e| e.unit_file.clone()).collect()
}

#[test]
fn only_regular_service_files_are_candidates() {
    assert!(is_service_candidate("./mock_systemd_units/a.service", true));
    assert!(!is_service_candidate("./mock_systemd_units/a.service", false));
    assert!(!is_service_candidate("./mock_systemd_units/a.socket", true));
    assert!(!is_service_candidate("./mock_systemd_units/.service", true));
}

#[test]
fn listed_names() {
    assert_eq!(listed_unit_name("./d/a.service", true), "a.service");
    assert_eq!(listed_unit_name("./d/a.service", false), "unknown.service");
    assert_eq!(listed_unit_name("/", true), "unknown.service");
}

#[test]
fn filter_matching() {
    let tagged = Some(lines("[X-extra]\nTag=web\n"));
    assert!(unit_matches_filter(&None, &None));
    assert!(unit_matches_filter(&Some("web".to_string()), &tagged));
    assert!(!unit_matches_filter(&Some("db".to_string()), &tagged));
    assert!(!unit_matches_filter(&Some("web".to_string()), &None));
}

#[test]
fn sorting_orders_by_name() {
    let sorted = sort_unit_entries(vec![entry("b.service"), entry("a.service"), entry("B.service"), entry("ab.service"), entry("a.service")]);
    assert_eq!(names(&sorted), vec!["B.service", "a.service", "a.service", "ab.service", "b.service"]);
    let mut expected = vec!["zz", "é", "e", "", "z"];
    expected.sort();
    let sorted = sort_unit_entries(vec![entry("zz"), entry("é"), entry("e"), entry(""), entry("z")]);
    assert_eq!(names(&sorted), expected);
}

#[test]
fn collecting_filters_and_sorts() {
    let cands = vec![
        cand("./m/web.service", true, Some("[X-extra]\nTag=web\n")),
        cand("./m/db.service", true, Some("[X-extra]\nTag=db\nTag=web\n")),
        cand("./m/cache.service", true, Some("[Unit]\n")),
        cand("./m/web.socket", true, Some("[X-extra]\nTag=web\n")),
        cand("./m/dir.service", false, None),
        cand("./m", false, None),
    ];
    let all = collect_unit_entries(&cands, &None);
    assert_eq!(names(&all), vec!["cache.service", "db.service", "web.service"]);
    assert!(all.iter().all(|e| e.state == "enabled" && e.vendor_preset == "enabled"));
    let web = collect_unit_entries(&cands, &Some("web".to_string()));
    assert_eq!(names(&web), vec!["db.service", "web.service"]);
    let none = collect_unit_entries(&cands, &Some("nothing".to_string()));
    assert!(none.is_empty());
}

#[test]
fn listing_does_not_depend_on_walk_order() {
    let a = vec![cand("./m/b.service", true, None), cand("./m/a.service", true, None), cand("./m/c.service", true, None)];
    let b = vec![cand("./m/c.service", true, None), cand("./m/b.service", true, None), cand("./m/a.service", true, None)];
    assert_eq!(names(&collect_unit_entries(&a, &None)), names(&collect_unit_entries(&b, &None)));
}

#[test]
fn filter_only_narrows() {
    let cands = vec![
        cand("./m/x.service", true, Some("[X-extra]\nTag=t\n")),
        cand("./m/y.service", true, Some("[X-extra]\nTag=u\n")),
    ];
    let all = names(&collect_unit_entries(&cands, &None));
    let some = names(&collect_unit_entries(&cands, &Some("t".to_string())));
    assert!(some.iter().all(|n| all.contains(n)));
    assert_eq!(some, vec!["x.service"]);
}

#[test]
fn table_layout() {
    let table = format_table(&vec![entry("a.service")]);
    let expected = format!(
        "UNIT FILE                                      STATE           VENDOR PRESET\n{}\n{:<45} {:<15} {:<15}\n",
        "-".repeat(80),
        "a.service",
        "enabled",
        "enabled"
    );
    assert_eq!(table, expected);
    let empty = format_table(&vec![]);
    assert_eq!(empty.lines().count(), 2);
    let long = "x".repeat(50);
    let t = format_table(&vec![entry(&long)]);
    assert!(t.ends_with(&format!("{} enabled         enabled        \n", long)));
}

#[test]
fn pager_choice() {
    assert!(pager_command(true, true, None).is_none());
    assert!(pager_command(false, false, None).is_none());
    let less = pager_command(false, true, None).unwrap();
    assert_eq!(less.program, "less");
    assert_eq!(less.args, vec!["-R".to_string()]);
    let more = pager_command(false, true, Some("more".to_string())).unwrap();
    assert_eq!(more.program, "more");
    assert!(more.args.is_empty());
}

#[test]
fn list_args_hold_their_values() {
    let args = ListArgs { filter: Some("web".to_string()), output: OutputFormat::Json, no_pager: true };
    assert!(matches!(args.output, OutputFormat::Json));
    assert!(args.no_pager);
    assert_eq!(args.filter.as_deref(), Some("web"));
}
