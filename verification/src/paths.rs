//! Path text logic: reading the project file's stem out of its path, deriving
//! the editor build target from it, and assembling the build tool invocation.
//! Both `/` and `\` count as separators, as on the platform the build tool
//! targets. Whether the paths exist on disk is the application's business.
use vstd::prelude::*;
use vstd::string::{StrSliceExecFns, StringExecFns};
use crate::text::{lower_of, lowercase};

verus! {

pub open spec fn is_sep(c: char) -> bool {
    c == '/' || c == '\\'
}

/// The index where the file name starts: just after the last separator
/// strictly before `i`, or 0 when there is none.
pub open spec fn spec_name_start(s: Seq<char>, i: int) -> int
    decreases i,
{
    if i <= 0 {
        0
    } else if is_sep(s[i - 1]) {
        i
    } else {
        spec_name_start(s, i - 1)
    }
}

/// The last `.` at an index in `(lo, i)`, if any: a dot that begins the file
/// name does not separate an extension.
pub open spec fn spec_last_dot(s: Seq<char>, lo: int, i: int) -> Option<int>
    decreases i,
{
    if i <= lo + 1 || i <= 0 {
        None
    } else if s[i - 1] == '.' {
        Some(i - 1)
    } else {
        spec_last_dot(s, lo, i - 1)
    }
}

/// The file name of the path: everything after the last separator.
pub open spec fn spec_file_name(s: Seq<char>) -> Seq<char> {
    s.subrange(spec_name_start(s, s.len() as int), s.len() as int)
}

/// The stem of the path's file name: the file name, less an extension after
/// its last dot.
pub open spec fn spec_file_stem(s: Seq<char>) -> Seq<char> {
    let lo = spec_name_start(s, s.len() as int);
    match spec_last_dot(s, lo, s.len() as int) {
        Some(k) => s.subrange(lo, k),
        None => s.subrange(lo, s.len() as int),
    }
}

/// Whether the (already lowercased) text ends in `editor`.
pub open spec fn ends_with_editor(l: Seq<char>) -> bool {
    l.len() >= 6 && l.subrange(l.len() - 6, l.len() as int) == "editor"@
}

fn name_start(path: &str, n: usize, i: usize) -> (r: usize)
    requires
        n == path@.len(),
        i <= n,
    ensures
        r as int == spec_name_start(path@, i as int),
        r <= i,
    decreases i,
{
    if i == 0 {
        0
    } else {
        let c = path.get_char(i - 1);
        if c == '/' || c == '\\' {
            i
        } else {
            name_start(path, n, i - 1)
        }
    }
}

fn last_dot(path: &str, n: usize, lo: usize, i: usize) -> (r: Option<usize>)
    requires
        n == path@.len(),
        lo <= n,
        i <= n,
    ensures
        match r {
            Some(k) => Some(k as int) == spec_last_dot(path@, lo as int, i as int) && lo < k
                && k < i,
            None => spec_last_dot(path@, lo as int, i as int) is None,
        },
    decreases i,
{
    if i == 0 || i - 1 <= lo {
        None
    } else if path.get_char(i - 1) == '.' {
        Some(i - 1)
    } else {
        last_dot(path, n, lo, i - 1)
    }
}

fn has_editor_suffix(lower: &str) -> (r: bool)
    ensures
        r == ends_with_editor(lower@),
{
    let m = lower.unicode_len();
    if m < 6 {
        return false;
    }
    let ok = lower.get_char(m - 6) == 'e' && lower.get_char(m - 5) == 'd' && lower.get_char(
        m - 4,
    ) == 'i' && lower.get_char(m - 3) == 't' && lower.get_char(m - 2) == 'o' && lower.get_char(
        m - 1,
    ) == 'r';
    proof {
        reveal_strlit("editor");
        let s = lower@.subrange(m - 6, m as int);
        if ok {
            assert(s =~= "editor"@);
        }
        if !ok && ends_with_editor(lower@) {
            assert(s[0] == 'e' && s[1] == 'd' && s[2] == 'i' && s[3] == 't' && s[4] == 'o'
                && s[5] == 'r');
            assert(false);
        }
    }
    ok
}

/// The editor build target for a project file: the file's stem, with
/// `Editor` appended unless the stem already ends in `editor` (in any case).
/// A path with no usable file name is rejected.
pub fn derive_editor_target(project_path: &str) -> (r: Result<String, String>)
    ensures
        ({
            let name = spec_file_name(project_path@);
            let stem = spec_file_stem(project_path@);
            if name.len() == 0 || name == "."@ || name == ".."@ {
                r matches Err(e) && e@ == "Project file name is invalid"@
            } else if ends_with_editor(lower_of(stem)) {
                r matches Ok(t) && t@ == stem
            } else {
                r matches Ok(t) && t@ == stem + "Editor"@
            }
        }),
{
    let n = project_path.unicode_len();
    let lo = name_start(project_path, n, n);
    proof {
        reveal_strlit(".");
        reveal_strlit("..");
    }
    if lo == n {
        return Err(String::from_str("Project file name is invalid"));
    }
    if n - lo == 1 && project_path.get_char(lo) == '.' {
        proof {
            assert(spec_file_name(project_path@) =~= "."@);
        }
        return Err(String::from_str("Project file name is invalid"));
    }
    if n - lo == 2 && project_path.get_char(lo) == '.' && project_path.get_char(lo + 1) == '.' {
        proof {
            assert(spec_file_name(project_path@) =~= ".."@);
        }
        return Err(String::from_str("Project file name is invalid"));
    }
    proof {
        let name = spec_file_name(project_path@);
        assert(name.len() > 0);
        if name == "."@ {
            assert(name.len() == 1 && name[0] == '.');
            assert(false);
        }
        if name == ".."@ {
            assert(name.len() == 2 && name[0] == '.' && name[1] == '.');
            assert(false);
        }
    }
    let stem_end = match last_dot(project_path, n, lo, n) {
        Some(k) => k,
        None => n,
    };
    let stem = project_path.substring_char(lo, stem_end).to_owned();
    let lower = lowercase(stem.as_str());
    if has_editor_suffix(lower.as_str()) {
        Ok(stem)
    } else {
        Ok(stem.concat("Editor"))
    }
}

/// Where the build tool lives under an engine install.
pub fn ubt_dll_path(unreal_engine_path: &str) -> (r: String)
    ensures
        r@ == unreal_engine_path@
            + "/Engine/Binaries/DotNET/UnrealBuildTool/UnrealBuildTool.dll"@,
{
    unreal_engine_path.to_owned().concat(
        "/Engine/Binaries/DotNET/UnrealBuildTool/UnrealBuildTool.dll",
    )
}

/// Where the editor executable lives under an engine install.
pub fn editor_exe_path(unreal_engine_path: &str) -> (r: String)
    ensures
        r@ == unreal_engine_path@ + "/Engine/Binaries/Win64/UnrealEditor.exe"@,
{
    unreal_engine_path.to_owned().concat("/Engine/Binaries/Win64/UnrealEditor.exe")
}

/// The argument list handed to `dotnet` for one build.
pub fn build_args(ubt_dll: &str, target: &str, project_path: &str) -> (r: Vec<String>)
    ensures
        r.deep_view() == seq![
            ubt_dll@,
            target@,
            "Win64"@,
            "Development"@,
            "-Project="@ + project_path@,
            "-WaitMutex"@,
        ],
{
    let mut v: Vec<String> = Vec::new();
    v.push(ubt_dll.to_owned());
    v.push(target.to_owned());
    v.push(String::from_str("Win64"));
    v.push(String::from_str("Development"));
    v.push(String::from_str("-Project=").concat(project_path));
    v.push(String::from_str("-WaitMutex"));
    proof {
        assert(v.deep_view() =~= seq![
            ubt_dll@,
            target@,
            "Win64"@,
            "Development"@,
            "-Project="@ + project_path@,
            "-WaitMutex"@,
        ]);
    }
    v
}

/// The human-readable command line recorded in the log buffer's first line.
pub fn build_command_line(ubt_dll: &str, target: &str, project_path: &str) -> (r: String)
    ensures
        r@ == "dotnet \""@ + ubt_dll@ + "\" "@ + target@
            + " Win64 Development -Project=\""@ + project_path@ + "\" -WaitMutex"@,
{
    let r = String::from_str("dotnet \"").concat(ubt_dll).concat("\" ").concat(target).concat(
        " Win64 Development -Project=\"",
    ).concat(project_path).concat("\" -WaitMutex");
    proof {
        assert(r@ =~= "dotnet \""@ + ubt_dll@ + "\" "@ + target@
            + " Win64 Development -Project=\""@ + project_path@ + "\" -WaitMutex"@);
    }
    r
}

} // verus!
