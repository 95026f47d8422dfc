use unitctl::unit_file::{parse_unit_file, unit_has_tag};

fn lines(text: &str) -> Vec<String> {
    text.lines().map(|l| l.to_string()).collect()
}

#[test]
fn parses_sections_keys_and_values() {
    let unit = parse_unit_file(&lines(
        "[Unit]\nDescription = A test unit \n; comment\n# another\n\n[Service]\nExecStart=/bin/true\nEnvironment=A=1\nEnvironment=B=2\n",
    ));
    assert!(unit.has_section("Unit"));
    assert!(unit.has_section("Service"));
    assert!(!unit.has_section("Install"));
    assert_eq!(unit.section_values("Unit", "Description"), Some(&vec!["A test unit".to_string()]));
    assert_eq!(unit.section_values("Service", "ExecStart"), Some(&vec!["/bin/true".to_string()]));
    assert_eq!(
        unit.section_values("Service", "Environment"),
        Some(&vec!["A=1".to_string(), "B=2".to_string()])
    );
    assert_eq!(unit.section_values("Service", "Description"), None);
}

#[test]
fn lines_outside_sections_and_without_equals_are_ignored() {
    let unit = parse_unit_file(&lines("Key=before\n[A]\njust words\n  k  =  v  \n"));
    assert!(!unit.has_section(""));
    assert_eq!(unit.section_values("A", "k"), Some(&vec!["v".to_string()]));
    assert_eq!(unit.section_values("A", "just words"), None);
}

#[test]
fn repeated_header_restarts_the_section() {
    let unit = parse_unit_file(&lines("[A]\nx=1\n[B]\ny=2\n[A]\nz=3\n"));
    assert_eq!(unit.section_values("A", "x"), None);
    assert_eq!(unit.section_values("A", "z"), Some(&vec!["3".to_string()]));
    assert_eq!(unit.section_values("B", "y"), Some(&vec!["2".to_string()]));
}

#[test]
fn header_needs_both_brackets() {
    let unit = parse_unit_file(&lines("[A\nx=1\n[]\ny=2\n"));
    assert!(!unit.has_section("A"));
    assert!(unit.has_section(""));
    assert_eq!(unit.section_values("", "y"), Some(&vec!["2".to_string()]));
}

#[test]
fn comment_lines_do_not_change_the_parse() {
    let plain = lines("[X-extra]\nTag=web\nTag=db\n");
    let commented = lines("[X-extra]\n# Tag=cache\nTag=web\n   ; note\n\nTag=db\n");
    let a = parse_unit_file(&plain);
    let b = parse_unit_file(&commented);
    assert_eq!(a.section_values("X-extra", "Tag"), b.section_values("X-extra", "Tag"));
    assert_eq!(a.section_values("X-extra", "Tag"), Some(&vec!["web".to_string(), "db".to_string()]));
}

#[test]
fn tags_are_found_in_x_extra() {
    let unit = parse_unit_file(&lines("[X-extra]\nTag = web\nTag=db\n[Other]\nTag=cache\n"));
    assert!(unit_has_tag(&unit, "web"));
    assert!(unit_has_tag(&unit, "db"));
    assert!(!unit_has_tag(&unit, "cache"));
    assert!(!unit_has_tag(&unit, "we"));
    let untagged = parse_unit_file(&lines("[Unit]\nDescription=x\n"));
    assert!(!unit_has_tag(&untagged, "web"));
}

#[test]
fn a_section_holds_what_follows_its_last_header() {
    let unit = parse_unit_file(&lines("[A]\nx=1\n[B]\ny=2\n[A]\nz=3\nz = 4\n[C]\nw=5\n[B]\n"));
    assert_eq!(unit.section_values("A", "x"), None);
    assert_eq!(unit.section_values("A", "z"), Some(&vec!["3".to_string(), "4".to_string()]));
    assert_eq!(unit.section_values("A", "w"), None);
    assert_eq!(unit.section_values("B", "y"), None);
    assert_eq!(unit.section_values("C", "w"), Some(&vec!["5".to_string()]));
}

#[test]
fn the_sections_are_those_named_by_headers() {
    let unit = parse_unit_file(&lines("x=1\n[A]\n  [ B ]  \n#[C]\n[D\n"));
    assert!(unit.has_section("A"));
    assert!(unit.has_section(" B "));
    assert!(!unit.has_section("C"));
    assert!(!unit.has_section("D"));
    assert!(!unit.has_section("B"));
}
