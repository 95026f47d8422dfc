//! Where unit files are searched for, by privilege level.

use vstd::prelude::*;
use vstd::utf8::encode_utf8;
use crate::paths::{path_join_bytes, join_path_bytes};

verus! {

/// Which unit file locations are searched.
#[derive(Clone, Copy, Debug, PartialEq, Eq)]
pub enum UnitPrivilege {
    /// System-wide unit file paths (e.g. `/etc/systemd/system`).
    System,
    /// User-specific unit file paths (e.g. `~/.config/systemd/user`).
    User,
    /// A local, project-specific mock unit file path.
    Local,
}

/// The name a privilege level is shown under.
pub open spec fn privilege_name(p: UnitPrivilege) -> Seq<char> {
    match p {
        UnitPrivilege::System => "System"@,
        UnitPrivilege::User => "User"@,
        UnitPrivilege::Local => "Local"@,
    }
}

/// The line announcing which paths are searched.
pub open spec fn search_heading_of(p: UnitPrivilege) -> Seq<char> {
    match p {
        UnitPrivilege::System => "Searching system unit paths:"@,
        UnitPrivilege::User => "Searching user unit paths:"@,
        UnitPrivilege::Local => "Searching local mock unit paths:"@,
    }
}

impl UnitPrivilege {
    /// The name this level is shown under (`System`, `User`, `Local`).
    pub fn display_name(&self) -> (r: String)
        ensures
            r@ == privilege_name(*self),
    {
        match self {
            UnitPrivilege::System => String::from_str("System"),
            UnitPrivilege::User => String::from_str("User"),
            UnitPrivilege::Local => String::from_str("Local"),
        }
    }

    /// The line announcing which paths are searched at this level.
    pub fn search_heading(&self) -> (r: String)
        ensures
            r@ == search_heading_of(*self),
    {
        match self {
            UnitPrivilege::System => String::from_str("Searching system unit paths:"),
            UnitPrivilege::User => String::from_str("Searching user unit paths:"),
            UnitPrivilege::Local => String::from_str("Searching local mock unit paths:"),
        }
    }
}

/// Something that knows which unit file locations it wants searched.
pub trait HasPrivilege {
    /// The privilege level, as a value.
    spec fn spec_privilege(&self) -> UnitPrivilege;

    /// Returns the privilege level of the unit file location.
    fn privilege(&self) -> (r: UnitPrivilege)
        ensures
            r == self.spec_privilege(),
    ;
}

/// The views of a sequence of raw paths.
pub open spec fn bytes_view(v: Seq<Vec<u8>>) -> Seq<Seq<u8>> {
    v.map_values(|p: Vec<u8>| p@)
}

/// The view of an optional raw path.
pub open spec fn opt_bytes_view(o: Option<Vec<u8>>) -> Option<Seq<u8>> {
    match o {
        Some(p) => Some(p@),
        None => None,
    }
}

/// The raw bytes (UTF-8) of a text.
pub open spec fn text_bytes(s: Seq<char>) -> Seq<u8> {
    encode_utf8(s)
}

/// The standard system unit directories.
pub open spec fn system_unit_paths() -> Seq<Seq<u8>> {
    seq![
        text_bytes("/etc/systemd/system"@),
        text_bytes("/usr/lib/systemd/system"@),
        text_bytes("/lib/systemd/system"@),
    ]
}

/// The local mock unit directory.
pub open spec fn local_unit_paths() -> Seq<Seq<u8>> {
    seq![text_bytes("./mock_systemd_units"@)]
}

/// The user unit directories, given the raw paths of the user's configuration
/// and data directories when they are known: `<config>/systemd/user`,
/// `<data>/systemd/user`, then the system-wide user unit directories.
pub open spec fn user_unit_paths_from(config: Option<Seq<u8>>, data: Option<Seq<u8>>) -> Seq<
    Seq<u8>,
> {
    let from_config = match config {
        Some(c) => seq![path_join_bytes(c, text_bytes("systemd/user"@))],
        None => Seq::empty(),
    };
    let from_data = match data {
        Some(d) => seq![path_join_bytes(d, text_bytes("systemd/user"@))],
        None => Seq::empty(),
    };
    from_config + from_data + seq![
        text_bytes("/usr/lib/systemd/user"@),
        text_bytes("/lib/systemd/user"@),
    ]
}

/// The unit file extensions that systemd knows.
pub open spec fn unit_file_extensions() -> Seq<Seq<char>> {
    seq![
        "service"@,
        "socket"@,
        "device"@,
        "mount"@,
        "automount"@,
        "swap"@,
        "target"@,
        "path"@,
        "timer"@,
        "slice"@,
        "scope"@,
    ]
}

/// Returns a list of standard systemd system unit file directories.
pub fn get_system_unit_paths() -> (r: Vec<Vec<u8>>)
    ensures
        bytes_view(r@) == system_unit_paths(),
{
    let mut v: Vec<Vec<u8>> = Vec::new();
    v.push("/etc/systemd/system".as_bytes_vec());
    v.push("/usr/lib/systemd/system".as_bytes_vec());
    v.push("/lib/systemd/system".as_bytes_vec());
    assert(bytes_view(v@) =~= system_unit_paths());
    v
}

/// The user unit directories, given the raw paths of the user's configuration
/// and data directories.
pub fn user_unit_paths(config_dir: Option<Vec<u8>>, data_dir: Option<Vec<u8>>) -> (r: Vec<Vec<u8>>)
    ensures
        bytes_view(r@) == user_unit_paths_from(opt_bytes_view(config_dir), opt_bytes_view(data_dir)),
{
    let ghost cv = opt_bytes_view(config_dir);
    let ghost dv = opt_bytes_view(data_dir);
    let rel = "systemd/user".as_bytes_vec();
    let mut v: Vec<Vec<u8>> = Vec::new();
    match config_dir {
        Some(c) => v.push(join_path_bytes(c.as_slice(), rel.as_slice())),
        None => {},
    }
    match data_dir {
        Some(d) => v.push(join_path_bytes(d.as_slice(), rel.as_slice())),
        None => {},
    }
    v.push("/usr/lib/systemd/user".as_bytes_vec());
    v.push("/lib/systemd/user".as_bytes_vec());
    assert(bytes_view(v@) =~= user_unit_paths_from(cv, dv));
    v
}

/// The raw bytes of the user's configuration directory (`dirs::config_dir`),
/// converted one for one from the `PathBuf` (`OsString::into_encoded_bytes`).
/// It depends on the environment (`$XDG_CONFIG_HOME`, `$HOME`) and the password
/// database, so nothing is claimed of it.
#[verifier::external_body]
fn user_config_dir() -> Option<Vec<u8>> {
    match dirs::config_dir() {
        Some(p) => Some(p.into_os_string().into_encoded_bytes()),
        None => None,
    }
}

/// The raw bytes of the user's data directory (`dirs::data_dir`), converted one
/// for one from the `PathBuf` (`OsString::into_encoded_bytes`). It depends on the
/// environment (`$XDG_DATA_HOME`, `$HOME`) and the password database, so nothing
/// is claimed of it.
#[verifier::external_body]
fn user_data_dir() -> Option<Vec<u8>> {
    match dirs::data_dir() {
        Some(p) => Some(p.into_os_string().into_encoded_bytes()),
        None => None,
    }
}

/// Returns a list of standard systemd user unit file directories: those under
/// the user's configuration and data directories, where the environment gives
/// them, then the system-wide user unit directories.
pub fn get_user_unit_paths() -> (r: Vec<Vec<u8>>)
    ensures
        exists|config: Option<Seq<u8>>, data: Option<Seq<u8>>|
            bytes_view(r@) == user_unit_paths_from(config, data),
{
    let config = user_config_dir();
    let data = user_data_dir();
    let ghost cv = opt_bytes_view(config);
    let ghost dv = opt_bytes_view(data);
    let r = user_unit_paths(config, data);
    assert(bytes_view(r@) == user_unit_paths_from(cv, dv));
    r
}

/// Returns the path(s) for local, project-specific unit files.
pub fn get_local_unit_paths() -> (r: Vec<Vec<u8>>)
    ensures
        bytes_view(r@) == local_unit_paths(),
{
    let mut v: Vec<Vec<u8>> = Vec::new();
    v.push("./mock_systemd_units".as_bytes_vec());
    assert(bytes_view(v@) =~= local_unit_paths());
    v
}

/// The lines announcing a search, as raw bytes: the heading of the privilege
/// level, then ` - <path>` for each searched path.
pub open spec fn search_report_of(p: UnitPrivilege, paths: Seq<Seq<u8>>) -> Seq<Seq<u8>> {
    seq![text_bytes(search_heading_of(p))] + paths.map_values(|q: Seq<u8>| text_bytes(" - "@) + q)
}

/// The lines announcing the search of `paths` at privilege level `p`.
pub fn search_report(p: UnitPrivilege, paths: &Vec<Vec<u8>>) -> (r: Vec<Vec<u8>>)
    ensures
        bytes_view(r@) == search_report_of(p, bytes_view(paths@)),
{
    let heading = p.search_heading();
    let bullet = " - ".as_bytes_vec();
    let mut r: Vec<Vec<u8>> = Vec::new();
    r.push(heading.as_str().as_bytes_vec());
    let mut i: usize = 0;
    while i < paths.len()
        invariant
            i <= paths.len(),
            bullet@ == text_bytes(" - "@),
            bytes_view(r@) == seq![text_bytes(search_heading_of(p))] + bytes_view(paths@).take(
                i as int,
            ).map_values(|q: Seq<u8>| text_bytes(" - "@) + q),
        decreases paths.len() - i,
    {
        let mut line = bullet.clone();
        let path = &paths[i];
        let mut j: usize = 0;
        while j < path.len()
            invariant
                j <= path@.len(),
                line@ == text_bytes(" - "@) + path@.subrange(0, j as int),
            decreases path@.len() - j,
        {
            line.push(path[j]);
            j = j + 1;
            assert(line@ =~= text_bytes(" - "@) + path@.subrange(0, j as int));
        }
        assert(path@.subrange(0, path@.len() as int) =~= path@);
        let ghost before = bytes_view(r@);
        r.push(line);
        assert(bytes_view(r@) =~= before.push(line@));
        i = i + 1;
        assert(bytes_view(paths@).take(i as int) =~= bytes_view(paths@).take(i - 1).push(paths@[i - 1]@));
        assert(bytes_view(r@) =~= seq![text_bytes(search_heading_of(p))] + bytes_view(paths@).take(
            i as int,
        ).map_values(|q: Seq<u8>| text_bytes(" - "@) + q));
    }
    assert(bytes_view(paths@).take(paths.len() as int) =~= bytes_view(paths@));
    r
}

/// Helper to get all valid unit file extensions.
pub fn get_unit_file_extensions() -> (r: &'static [&'static str])
    ensures
        r@.map_values(|s: &str| s@) == unit_file_extensions(),
{
    let r: &'static [&'static str] = &[
        "service",
        "socket",
        "device",
        "mount",
        "automount",
        "swap",
        "target",
        "path",
        "timer",
        "slice",
        "scope",
    ];
    assert(r@.map_values(|s: &str| s@) =~= unit_file_extensions());
    r
}

/// The unit directories searched for a privilege level; the user directories
/// depend on the environment (see `get_user_unit_paths`).
pub fn get_unit_search_paths<T: HasPrivilege>(args: T) -> (r: Vec<Vec<u8>>)
    ensures
        args.spec_privilege() == UnitPrivilege::System ==> bytes_view(r@) == system_unit_paths(),
        args.spec_privilege() == UnitPrivilege::Local ==> bytes_view(r@) == local_unit_paths(),
        args.spec_privilege() == UnitPrivilege::User ==> exists|
            config: Option<Seq<u8>>,
            data: Option<Seq<u8>>,
        | bytes_view(r@) == user_unit_paths_from(config, data),
{
    match args.privilege() {
        UnitPrivilege::System => get_system_unit_paths(),
        UnitPrivilege::User => get_user_unit_paths(),
        UnitPrivilege::Local => get_local_unit_paths(),
    }
}

/// The global arguments: which unit file locations are searched.
pub struct MainArgs {
    /// The privilege level of the searched locations (default: system).
    pub location: UnitPrivilege,
}

impl Default for MainArgs {
    /// Searches the system locations unless told otherwise.
    fn default() -> (r: MainArgs)
        ensures
            r.location == UnitPrivilege::System,
    {
        MainArgs { location: UnitPrivilege::System }
    }
}

impl HasPrivilege for MainArgs {
    open spec fn spec_privilege(&self) -> UnitPrivilege {
        self.location
    }

    fn privilege(&self) -> (r: UnitPrivilege) {
        self.location
    }
}

} // verus!
