//! The `edit` command: where the drop-in override of a unit lives and how the
//! editor is launched on it.

use vstd::prelude::*;
use crate::text::{opt_view, is_ws, trim_start, trim_end, trim, has_prefix, trim_str, chars_of, strip_prefix_str, str_eq, decimal, decimal_string};
use crate::unit_file::{strings_view, is_header};
use crate::paths::{path_join, file_name, join_path, path_file_name};

verus! {

/// Arguments of the `edit` command.
pub struct EditArgs {
    /// The name of the unit (e.g. `nginx.service`), or the path of a generated
    /// unit file when `trans` is set.
    pub target: String,
    /// The line to open the editor at.
    pub line: Option<usize>,
    /// `target` is a generated unit file whose `SourcePath` names the unit.
    pub trans: bool,
}

/// The `SourcePath` of the `[Unit]` section: scanning the lines in order, a
/// `[...]` line enters (`[Unit]`) or leaves the section; the first line inside
/// it that starts with `SourcePath=` gives the trimmed rest of the line.
pub open spec fn source_path_scan(lines: Seq<Seq<char>>, in_unit: bool) -> Option<Seq<char>>
    decreases lines.len(),
{
    if lines.len() == 0 {
        None
    } else {
        let t = trim(lines[0]);
        if is_header(t) {
            source_path_scan(lines.drop_first(), t == "[Unit]"@)
        } else if in_unit && has_prefix(t, "SourcePath="@) {
            Some(trim(t.skip("SourcePath="@.len() as int)))
        } else {
            source_path_scan(lines.drop_first(), in_unit)
        }
    }
}

/// A `[Unit]` line enters the `[Unit]` section and another header leaves it;
/// inside it, a `SourcePath=<p>` line (`p` without whitespace at its ends) gives
/// `p`, whatever follows; outside it such a line is passed over.
pub proof fn law_source_path_lines(p: Seq<char>, name: Seq<char>, rest: Seq<Seq<char>>, in_unit: bool)
    requires
        p.len() == 0 || (!is_ws(p[0]) && !is_ws(p.last())),
        name != "Unit"@,
    ensures
        source_path_scan(seq!["[Unit]"@] + rest, in_unit) == source_path_scan(rest, true),
        source_path_scan(seq![seq!['['] + name + seq![']']] + rest, in_unit) == source_path_scan(rest, false),
        source_path_scan(seq!["SourcePath="@ + p] + rest, true) == Some(p),
        source_path_scan(seq!["SourcePath="@ + p] + rest, false) == source_path_scan(rest, false),
{
    reveal_strlit("[Unit]");
    reveal_strlit("Unit");
    reveal_strlit("SourcePath=");
    let u = "[Unit]"@;
    assert(trim_start(u) == u);
    assert(trim_end(u) == u);
    assert((seq![u] + rest).drop_first() =~= rest);
    let h = seq!['['] + name + seq![']'];
    assert(h[0] == '[' && h.last() == ']');
    assert(trim_start(h) == h);
    assert(trim_end(h) == h);
    assert((seq![h] + rest).drop_first() =~= rest);
    assert(h != u) by {
        if h == u {
            assert(name =~= h.subrange(1, h.len() - 1));
            assert(name =~= "Unit"@);
        }
    }
    let key = "SourcePath="@;
    let l = key + p;
    assert(l[0] == 'S');
    if p.len() > 0 {
        assert(l.last() == p.last());
    } else {
        assert(l =~= key);
    }
    assert(trim_start(l) == l);
    assert(trim_end(l) == l);
    assert(trim_start(p) == p);
    assert(trim_end(p) == p);
    assert(l.subrange(0, key.len() as int) =~= key);
    assert(l.skip(key.len() as int) =~= p);
    assert((seq![l] + rest).drop_first() =~= rest);
    assert(!is_header(l));
}

/// The `SourcePath` of the `[Unit]` section of a unit file with these lines.
pub fn find_source_path(lines: &Vec<String>) -> (r: Option<String>)
    ensures
        r is Some <==> source_path_scan(strings_view(lines@), false) is Some,
        r matches Some(p) ==> source_path_scan(strings_view(lines@), false) == Some(p@),
{
    let ghost ls = strings_view(lines@);
    let unit_header = String::from_str("[Unit]");
    let key = String::from_str("SourcePath=");
    let mut in_unit = false;
    let mut i: usize = 0;
    assert(ls.skip(0) =~= ls);
    while i < lines.len()
        invariant
            ls == strings_view(lines@),
            i <= lines.len(),
            unit_header@ == "[Unit]"@,
            key@ == "SourcePath="@,
            source_path_scan(ls, false) == source_path_scan(ls.skip(i as int), in_unit),
        decreases lines.len() - i,
    {
        assert(ls.skip(i as int).drop_first() =~= ls.skip(i + 1));
        assert(ls.skip(i as int)[0] == lines@[i as int]@);
        let t = trim_str(lines[i].as_str());
        let cs = chars_of(t.as_str());
        let n = cs.len();
        if n >= 2 && cs[0] == '[' && cs[n - 1] == ']' {
            in_unit = t == unit_header;
        } else if in_unit {
            match strip_prefix_str(t.as_str(), key.as_str()) {
                Some(rest) => {
                    return Some(trim_str(rest.as_str()));
                },
                None => {},
            }
        }
        i = i + 1;
    }
    None
}

/// The text of the error when no `SourcePath` is found in `file`.
pub open spec fn no_source_path_message(file: Seq<char>) -> Seq<char> {
    "SourcePath not found in [Unit] section of "@ + file
}

/// The `SourcePath` of a generated unit file, from the lines read from it before
/// the end of the file or before a read error (`read_error` then holds that
/// error's message). A `SourcePath` among those lines is the answer; otherwise
/// the read error, if any; otherwise the error that none was found in `file`.
pub fn get_source_path(lines: &Vec<String>, read_error: Option<String>, file: &str) -> (r: Result<
    String,
    String,
>)
    ensures
        match source_path_scan(strings_view(lines@), false) {
            Some(p) => r matches Ok(found) && found@ == p,
            None => match read_error {
                Some(e) => r matches Err(msg) && msg@ == e@,
                None => r matches Err(msg) && msg@ == no_source_path_message(file@),
            },
        },
{
    match find_source_path(lines) {
        Some(p) => Ok(p),
        None => match read_error {
            Some(e) => Err(e),
            None => Err(String::from_str("SourcePath not found in [Unit] section of ").concat(file)),
        },
    }
}

/// The unit name under which the drop-in directory is made.
pub struct DropInName {
    /// The name.
    pub name: String,
    /// The source path had no file name, and `unknown_source` stands in for it.
    pub fell_back: bool,
}

/// The unit name of the drop-in: `target` itself, or, for a generated unit with
/// source path `source`, the source's file name (`unknown_source` when it has none).
pub open spec fn drop_in_unit_name_of(target: Seq<char>, source: Option<Seq<char>>) -> Seq<char> {
    match source {
        None => target,
        Some(s) => match file_name(s) {
            Some(n) => n,
            None => "unknown_source"@,
        },
    }
}

/// The unit name of the drop-in (see `drop_in_unit_name_of`); `source` is the
/// resolved source path when `--trans` is given.
pub fn drop_in_unit_name(target: &str, source: Option<&str>) -> (r: DropInName)
    ensures
        r.name@ == drop_in_unit_name_of(
            target@,
            match source {
                Some(s) => Some(s@),
                None => None,
            },
        ),
        r.fell_back == (source matches Some(s) && file_name(s@) is None),
{
    match source {
        None => DropInName { name: String::from_str(target), fell_back: false },
        Some(s) => match path_file_name(s) {
            Some(n) => DropInName { name: n, fell_back: false },
            None => DropInName { name: String::from_str("unknown_source"), fell_back: true },
        },
    }
}

/// The drop-in of a generated unit is named after the full last component of
/// its source path, extension included: for a source path `<dir>/<n>` (or just
/// `<n>`), where `n` is a non-empty name without `/` other than `.` and `..`,
/// the drop-in unit name is `n`. Without a source path it is the target.
pub proof fn law_drop_in_name_is_source_file_name(target: Seq<char>, dir: Seq<char>, n: Seq<char>)
    requires
        n.len() > 0,
        forall|i: int| 0 <= i < n.len() ==> n[i] != '/',
        n != seq!['.'],
        n != seq!['.', '.'],
    ensures
        drop_in_unit_name_of(target, Some(dir + seq!['/'] + n)) == n,
        drop_in_unit_name_of(target, Some(n)) == n,
        drop_in_unit_name_of(target, None) == target,
{
    let p = dir + seq!['/'] + n;
    crate::paths::lemma_after_last(p, '/', dir.len() + 1 as int);
    assert(p.subrange(dir.len() + 1 as int, p.len() as int) =~= n);
    assert(p.last() == n.last());
    crate::paths::lemma_after_last(n, '/', 0);
    assert(n.subrange(0, n.len() as int) =~= n);
}

/// The base directory of all drop-ins.
pub open spec fn drop_in_base() -> Seq<char> {
    ".mycli_units"@
}

/// The drop-in directory of unit `name`: `<base>/<name>.d`.
pub open spec fn drop_in_dir_of(name: Seq<char>) -> Seq<char> {
    path_join(drop_in_base(), name + ".d"@)
}

/// The override file of unit `name`: `<base>/<name>.d/override.conf`.
pub open spec fn drop_in_file_of(name: Seq<char>) -> Seq<char> {
    path_join(drop_in_dir_of(name), "override.conf"@)
}

/// All drop-ins are kept in the base directory: the override file of a unit
/// whose name is not an absolute path is `.mycli_units/<name>.d/override.conf`.
/// (An absolute name replaces the base, as joining an absolute path does.)
pub proof fn law_drop_in_under_base(name: Seq<char>)
    requires
        !(name.len() > 0 && name[0] == '/'),
    ensures
        drop_in_dir_of(name) == ".mycli_units/"@ + name + ".d"@,
        drop_in_file_of(name) == ".mycli_units/"@ + name + ".d/override.conf"@,
{
    reveal_strlit(".mycli_units");
    reveal_strlit(".mycli_units/");
    reveal_strlit(".d");
    reveal_strlit(".d/override.conf");
    reveal_strlit("override.conf");
    let rel = name + ".d"@;
    assert(rel[0] != '/') by {
        if name.len() == 0 {
            assert(rel[0] == '.');
        } else {
            assert(rel[0] == name[0]);
        }
    }
    assert(drop_in_dir_of(name) =~= ".mycli_units/"@ + name + ".d"@);
    let dir = drop_in_dir_of(name);
    assert(dir.last() == 'd');
    assert(drop_in_file_of(name) =~= ".mycli_units/"@ + name + ".d/override.conf"@);
}

/// The drop-in directory of unit `name`.
pub fn drop_in_dir(name: &str) -> (r: String)
    ensures
        r@ == drop_in_dir_of(name@),
{
    let rel = String::from_str(name).concat(".d");
    join_path(".mycli_units", rel.as_str())
}

/// The override file of unit `name`.
pub fn drop_in_file_path(name: &str) -> (r: String)
    ensures
        r@ == drop_in_file_of(name@),
{
    let dir = drop_in_dir(name);
    join_path(dir.as_str(), "override.conf")
}

/// The editor: `$EDITOR`, else `$VISUAL`, else the platform default (`notepad.exe`
/// on Windows, `vim` elsewhere). Unset or non-Unicode variables count as absent.
pub open spec fn editor_of(editor: Option<Seq<char>>, visual: Option<Seq<char>>, on_windows: bool) -> Seq<char> {
    match (editor, visual) {
        (Some(e), _) => e,
        (None, Some(v)) => v,
        (None, None) => if on_windows {
            "notepad.exe"@
        } else {
            "vim"@
        },
    }
}

/// The editor to launch (see `editor_of`).
pub fn choose_editor(editor: Option<String>, visual: Option<String>, on_windows: bool) -> (r: String)
    ensures
        r@ == editor_of(
            opt_view(editor),
            opt_view(visual),
            on_windows,
        ),
{
    match editor {
        Some(e) => e,
        None => match visual {
            Some(v) => v,
            None => if on_windows {
                String::from_str("notepad.exe")
            } else {
                String::from_str("vim")
            },
        },
    }
}

/// Whether the editor takes `+<line>`: `vim`, `nvim` or `vi`.
pub open spec fn takes_plus_line(editor: Seq<char>) -> bool {
    editor == "vim"@ || editor == "nvim"@ || editor == "vi"@
}

/// The arguments of the editor: the override file, then, when a line is given,
/// `+<line>` for vim, nvim and vi, or `--goto=<file>:<line>` for VS Code (`code`);
/// other editors get no line argument.
pub open spec fn editor_args_of(editor: Seq<char>, file: Seq<char>, line: Option<nat>) -> Seq<Seq<char>> {
    match line {
        None => seq![file],
        Some(l) => if takes_plus_line(editor) {
            seq![file, "+"@ + decimal(l)]
        } else if editor == "code"@ {
            seq![file, "--goto="@ + file + ":"@ + decimal(l)]
        } else {
            seq![file]
        },
    }
}

/// The arguments to launch `editor` with on the override file `file`.
pub fn editor_args(editor: &str, file: &str, line: Option<usize>) -> (r: Vec<String>)
    ensures
        strings_view(r@) == editor_args_of(
            editor@,
            file@,
            match line {
                Some(l) => Some(l as nat),
                None => None,
            },
        ),
{
    let mut args: Vec<String> = Vec::new();
    args.push(String::from_str(file));
    match line {
        None => {},
        Some(l) => {
            if str_eq(editor, "vim") || str_eq(editor, "nvim") || str_eq(editor, "vi") {
                let arg = String::from_str("+").concat(decimal_string(l).as_str());
                args.push(arg);
            } else if str_eq(editor, "code") {
                let arg = String::from_str("--goto=").concat(file).concat(":").concat(
                    decimal_string(l).as_str(),
                );
                args.push(arg);
            }
        },
    }
    assert(strings_view(args@) =~= editor_args_of(
        editor@,
        file@,
        match line {
            Some(l) => Some(l as nat),
            None => None,
        },
    ));
    args
}

} // verus!
