use unitctl::systemd_modes::{
    get_local_unit_paths, get_system_unit_paths, get_unit_file_extensions, get_unit_search_paths,
    get_user_unit_paths, search_report, user_unit_paths, HasPrivilege, MainArgs, UnitPrivilege,
};

fn raw(paths: &[&str]) -> Vec<Vec<u8>> {
    paths.iter().map(|p| p.as_bytes().to_vec()).collect()
}

#[test]
fn system_and_local_paths() {
    assert_eq!(get_system_unit_paths(), raw(&["/etc/systemd/system", "/usr/lib/systemd/system", "/lib/systemd/system"]));
    assert_eq!(get_local_unit_paths(), raw(&["./mock_systemd_units"]));
}

#[test]
fn user_paths_from_directories() {
    assert_eq!(
        user_unit_paths(Some(b"/home/a/.config".to_vec()), Some(b"/home/a/.local/share/".to_vec())),
        raw(&["/home/a/.config/systemd/user", "/home/a/.local/share/systemd/user", "/usr/lib/systemd/user", "/lib/systemd/user"])
    );
    assert_eq!(user_unit_paths(None, None), raw(&["/usr/lib/systemd/user", "/lib/systemd/user"]));
    assert_eq!(user_unit_paths(None, Some(b"/d".to_vec())), raw(&["/d/systemd/user", "/usr/lib/systemd/user", "/lib/systemd/user"]));
}

#[test]
fn user_paths_keep_raw_bytes() {
    let odd = vec![b'/', b'h', 0xff, 0xfe];
    let paths = user_unit_paths(Some(odd.clone()), None);
    let mut expected = odd;
    expected.extend_from_slice(b"/systemd/user");
    assert_eq!(paths[0], expected);
}

#[test]
fn user_paths_from_the_environment() {
    let paths = get_user_unit_paths();
    assert!(paths.len() >= 2 && paths.len() <= 4);
    assert_eq!(&paths[paths.len() - 2..], &raw(&["/usr/lib/systemd/user", "/lib/systemd/user"])[..]);
    if let Some(c) = dirs::config_dir() {
        assert_eq!(paths[0], c.join("systemd/user").into_os_string().into_encoded_bytes());
    }
}

#[test]
fn extensions() {
    assert_eq!(
        get_unit_file_extensions(),
        &["service", "socket", "device", "mount", "automount", "swap", "target", "path", "timer", "slice", "scope"]
    );
}

#[test]
fn search_paths_by_privilege() {
    assert_eq!(get_unit_search_paths(MainArgs { location: UnitPrivilege::System }), get_system_unit_paths());
    assert_eq!(get_unit_search_paths(MainArgs { location: UnitPrivilege::Local }), get_local_unit_paths());
    let user = get_unit_search_paths(MainArgs { location: UnitPrivilege::User });
    assert_eq!(user.last(), Some(&b"/lib/systemd/user".to_vec()));
}

#[test]
fn search_report_lines() {
    let report = search_report(UnitPrivilege::System, &get_system_unit_paths());
    assert_eq!(
        report,
        raw(&[
            "Searching system unit paths:",
            " - /etc/systemd/system",
            " - /usr/lib/systemd/system",
            " - /lib/systemd/system",
        ])
    );
    assert_eq!(search_report(UnitPrivilege::Local, &vec![]), raw(&["Searching local mock unit paths:"]));
}

#[test]
fn main_args_default_and_privilege() {
    let args = MainArgs::default();
    assert_eq!(args.location, UnitPrivilege::System);
    assert_eq!(MainArgs { location: UnitPrivilege::User }.privilege(), UnitPrivilege::User);
}

#[test]
fn privilege_names() {
    assert_eq!(UnitPrivilege::System.display_name(), "System");
    assert_eq!(UnitPrivilege::User.display_name(), "User");
    assert_eq!(UnitPrivilege::Local.display_name(), "Local");
    assert_eq!(UnitPrivilege::Local.search_heading(), "Searching local mock unit paths:");
    assert_eq!(UnitPrivilege::System.search_heading(), "Searching system unit paths:");
    assert_eq!(UnitPrivilege::User.search_heading(), "Searching user unit paths:");
}
