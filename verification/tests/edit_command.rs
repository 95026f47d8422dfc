use unitctl::edit::{
    choose_editor, drop_in_dir, drop_in_file_path, drop_in_unit_name, editor_args,
    find_source_path, get_source_path, EditArgs,
};

fn lines(text: &str) -> Vec<String> {
    text.lines().map(|l| l.to_string()).collect()
}

#[test]
fn source_path_is_read_from_the_unit_section() {
    let ls = lines("[Unit]\nDescription=x\nSourcePath= /etc/init.d/nginx \n[Service]\n");
    assert_eq!(find_source_path(&ls), Some("/etc/init.d/nginx".to_string()));
}

#[test]
fn source_path_outside_the_unit_section_is_ignored() {
    let ls = lines("SourcePath=/a\n[Service]\nSourcePath=/b\n[Unit]\nSourcePath=/c\nSourcePath=/d\n");
    assert_eq!(find_source_path(&ls), Some("/c".to_string()));
    let none = lines("[Service]\nSourcePath=/b\n[Unit]\nSource Path=/x\n");
    assert_eq!(find_source_path(&none), None);
}

#[test]
fn get_source_path_results_and_errors() {
    let found = lines("[Unit]\nSourcePath=/etc/rc.local\n");
    assert_eq!(get_source_path(&found, Some("late error".to_string()), "gen.service"), Ok("/etc/rc.local".to_string()));
    let missing = lines("[Unit]\nDescription=x\n");
    assert_eq!(
        get_source_path(&missing, None, "gen.service"),
        Err("SourcePath not found in [Unit] section of gen.service".to_string())
    );
    assert_eq!(
        get_source_path(&missing, Some("Failed to read line from gen.service: bad".to_string()), "gen.service"),
        Err("Failed to read line from gen.service: bad".to_string())
    );
}

#[test]
fn drop_in_names() {
    let plain = drop_in_unit_name("nginx.service", None);
    assert_eq!(plain.name, "nginx.service");
    assert!(!plain.fell_back);
    let from_source = drop_in_unit_name("run/gen.service", Some("/etc/init.d/nginx"));
    assert_eq!(from_source.name, "nginx");
    assert!(!from_source.fell_back);
    let unknown = drop_in_unit_name("gen.service", Some("/"));
    assert_eq!(unknown.name, "unknown_source");
    assert!(unknown.fell_back);
}

#[test]
fn drop_in_paths_live_under_the_base() {
    assert_eq!(drop_in_dir("nginx.service"), ".mycli_units/nginx.service.d");
    assert_eq!(drop_in_file_path("nginx.service"), ".mycli_units/nginx.service.d/override.conf");
    assert_eq!(drop_in_file_path(""), ".mycli_units/.d/override.conf");
    assert_eq!(drop_in_file_path("/etc/x"), "/etc/x.d/override.conf");
}

#[test]
fn editor_choice() {
    assert_eq!(choose_editor(Some("nano".into()), Some("code".into()), false), "nano");
    assert_eq!(choose_editor(None, Some("code".into()), false), "code");
    assert_eq!(choose_editor(None, None, false), "vim");
    assert_eq!(choose_editor(None, None, true), "notepad.exe");
}

#[test]
fn editor_arguments() {
    let f = ".mycli_units/a.d/override.conf";
    assert_eq!(editor_args("vim", f, Some(12)), vec![f.to_string(), "+12".to_string()]);
    assert_eq!(editor_args("nvim", f, Some(0)), vec![f.to_string(), "+0".to_string()]);
    assert_eq!(editor_args("vi", f, Some(3)), vec![f.to_string(), "+3".to_string()]);
    assert_eq!(
        editor_args("code", f, Some(7)),
        vec![f.to_string(), format!("--goto={}:7", f)]
    );
    assert_eq!(editor_args("nano", f, Some(7)), vec![f.to_string()]);
    assert_eq!(editor_args("vim", f, None), vec![f.to_string()]);
}

#[test]
fn edit_args_hold_their_values() {
    let args = EditArgs { target: "x.service".to_string(), line: Some(4), trans: false };
    assert_eq!(args.target, "x.service");
    assert_eq!(args.line, Some(4));
    assert!(!args.trans);
}
