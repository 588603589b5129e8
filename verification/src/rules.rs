//! The naming and file rules of a project: which project names, item
//! names and language/template/runtime choices are accepted, and which
//! files of a project may be listed, edited, written, renamed or deleted.
use vstd::prelude::*;
use crate::path::{
    chars_lit_eq, components, extension_of, file_name, name_extension, parts_eq,
    path_components, path_file_name,
};
use crate::text::{
    ascii_alnum, ascii_lowercase, byte_len, byte_len_at_most, chars_of, control, ends_with,
    is_ascii_alnum, is_control, replace_char, replaced, starts_with, str_eq, to_ascii_lower,
    vec_ends_with, vec_starts_with,
};

verus! {

/// The name of the configuration file at the root of every project.
pub const CONFIG_NAME: &'static str = "psp-project.json";

// ---------------------------------------------------------------------------
// Project names
// ---------------------------------------------------------------------------
/// The characters allowed in a project name.
pub open spec fn is_name_char(c: char) -> bool {
    is_ascii_alnum(c) || c == '_' || c == '-'
}

/// A project name: 1 to 32 bytes of ASCII letters, digits, `_` and `-`.
pub open spec fn is_valid_name(s: Seq<char>) -> bool {
    &&& s.len() > 0
    &&& byte_len(s) <= 32
    &&& forall|i: int| 0 <= i < s.len() ==> is_name_char(#[trigger] s[i])
}

/// Whether `name` may name a project (and the folder that holds it).
pub fn valid_name(name: &str) -> (r: bool)
    ensures
        r == is_valid_name(name@),
{
    if name.is_empty() || !byte_len_at_most(name, 32) {
        return false;
    }
    for c in it: name.chars()
        invariant
            it.seq() == name@,
            forall|i: int| 0 <= i < it.index() ==> is_name_char(#[trigger] name@[i]),
    {
        if !(ascii_alnum(c) || c == '_' || c == '-') {
            return false;
        }
    }
    true
}

// ---------------------------------------------------------------------------
// Names of files and folders inside a project
// ---------------------------------------------------------------------------
/// A name for a new file or folder: 1 to 80 bytes, not `.` or `..`, not
/// hidden, without control characters, `/`, `\` or `:`.
pub open spec fn is_valid_item_name(s: Seq<char>) -> bool {
    &&& s.len() > 0
    &&& byte_len(s) <= 80
    &&& s != seq!['.']
    &&& s != seq!['.', '.']
    &&& s[0] != '.'
    &&& forall|i: int|
        0 <= i < s.len() ==> !is_control(#[trigger] s[i]) && s[i] != '/' && s[i] != '\\' && s[i]
            != ':'
}

pub fn valid_item_name(name: &str) -> (r: bool)
    ensures
        r == is_valid_item_name(name@),
{
    if name.is_empty() || !byte_len_at_most(name, 80) || str_eq(name, ".") || str_eq(name, "..") {
        proof {
            reveal_strlit(".");
            reveal_strlit("..");
        }
        return false;
    }
    proof {
        reveal_strlit(".");
        reveal_strlit("..");
    }
    let mut first = true;
    for c in it: name.chars()
        invariant
            it.seq() == name@,
            name@.len() > 0,
            first == (it.index() == 0),
            it.index() > 0 ==> name@[0] != '.',
            forall|i: int|
                0 <= i < it.index() ==> !is_control(#[trigger] name@[i]) && name@[i] != '/'
                    && name@[i] != '\\' && name@[i] != ':',
    {
        if first && c == '.' {
            return false;
        }
        if control(c) || c == '/' || c == '\\' || c == ':' {
            return false;
        }
        first = false;
    }
    true
}

// ---------------------------------------------------------------------------
// Language, template and runtime choices
// ---------------------------------------------------------------------------
/// The C++ example templates.
pub open spec fn is_cpp_template(t: Seq<char>) -> bool {
    t == "hello"@ || t == "controls"@ || t == "graphics"@ || t == "timer"@ || t == "audio"@ || t
        == "filesystem"@
}

/// The Lua example templates.
pub open spec fn is_lua_template(t: Seq<char>) -> bool {
    t == "hello"@ || t == "controls"@ || t == "image"@ || t == "sprite"@ || t == "timer"@ || t
        == "audio"@
}

/// The catalogued Lua runtimes.
pub open spec fn is_lua_runtime(r: Seq<char>) -> bool {
    r == "hm-v1.7"@ || r == "hm-v2.0.4"@ || r == "hm-v3"@ || r == "hm-v4.0"@ || r == "hm-v6"@ || r
        == "hm-v6.6"@ || r == "hm-v6.9-beta"@ || r == "hm-v7-rc1"@ || r == "hm-v8"@ || r
        == "hm-v8.1-beta"@ || r == "lpp-r163"@
}

/// A C++ project uses a C++ template and no runtime; a Lua project uses a
/// Lua template and a catalogued runtime; nothing else is accepted.
pub open spec fn is_valid_choice(
    language: Seq<char>,
    template: Seq<char>,
    runtime: Option<Seq<char>>,
) -> bool {
    if language == "cpp"@ {
        is_cpp_template(template) && runtime is None
    } else if language == "lua"@ {
        is_lua_template(template) && match runtime {
            Some(r) => is_lua_runtime(r),
            None => false,
        }
    } else {
        false
    }
}

pub open spec fn opt_view(o: Option<&str>) -> Option<Seq<char>> {
    match o {
        Some(s) => Some(s@),
        None => None,
    }
}

fn cpp_template(t: &str) -> (r: bool)
    ensures
        r == is_cpp_template(t@),
{
    str_eq(t, "hello") || str_eq(t, "controls") || str_eq(t, "graphics") || str_eq(t, "timer")
        || str_eq(t, "audio") || str_eq(t, "filesystem")
}

fn lua_template(t: &str) -> (r: bool)
    ensures
        r == is_lua_template(t@),
{
    str_eq(t, "hello") || str_eq(t, "controls") || str_eq(t, "image") || str_eq(t, "sprite")
        || str_eq(t, "timer") || str_eq(t, "audio")
}

fn lua_runtime(r: &str) -> (b: bool)
    ensures
        b == is_lua_runtime(r@),
{
    str_eq(r, "hm-v1.7") || str_eq(r, "hm-v2.0.4") || str_eq(r, "hm-v3") || str_eq(r, "hm-v4.0")
        || str_eq(r, "hm-v6") || str_eq(r, "hm-v6.6") || str_eq(r, "hm-v6.9-beta") || str_eq(
        r,
        "hm-v7-rc1",
    ) || str_eq(r, "hm-v8") || str_eq(r, "hm-v8.1-beta") || str_eq(r, "lpp-r163")
}

/// Whether the project wizard accepts this combination.
pub fn valid_project_choice(language: &str, template: &str, runtime: Option<&str>) -> (r: bool)
    ensures
        r == is_valid_choice(language@, template@, opt_view(runtime)),
{
    if str_eq(language, "cpp") {
        cpp_template(template) && runtime.is_none()
    } else if str_eq(language, "lua") {
        lua_template(template) && match runtime {
            Some(id) => lua_runtime(id),
            None => false,
        }
    } else {
        false
    }
}

// ---------------------------------------------------------------------------
// Files inside a project
// ---------------------------------------------------------------------------
/// Lower-case extensions of the files that the editor opens.
pub open spec fn is_editable_extension(e: Seq<char>) -> bool {
    e == "c"@ || e == "cc"@ || e == "cpp"@ || e == "h"@ || e == "hpp"@ || e == "lua"@ || e
        == "json"@ || e == "txt"@ || e == "md"@ || e == "ini"@ || e == "xml"@ || e == "csv"@ || e
        == "vert"@ || e == "frag"@ || e == "obj"@ || e == "mtl"@
}

/// A file the editor may open: the `Makefile`, or a file whose extension,
/// in ASCII lower case, is one of the text formats above.
pub open spec fn is_editable(p: Seq<char>) -> bool {
    file_name(p) == Some("Makefile"@) || match file_name(p) {
        Some(n) => match extension_of(n) {
            Some(e) => is_editable_extension(ascii_lowercase(e)),
            None => false,
        },
        None => false,
    }
}

/// A file the editor may save: editable, but neither the generated
/// `Makefile` nor the project configuration.
pub open spec fn is_writable(p: Seq<char>) -> bool {
    &&& is_editable(p)
    &&& file_name(p) != Some("Makefile"@)
    &&& components(p) != components(CONFIG_NAME@)
}

fn editable_extension(e: &Vec<char>) -> (r: bool)
    ensures
        r == is_editable_extension(e@),
{
    chars_lit_eq(e, "c") || chars_lit_eq(e, "cc") || chars_lit_eq(e, "cpp") || chars_lit_eq(e, "h")
        || chars_lit_eq(e, "hpp") || chars_lit_eq(e, "lua") || chars_lit_eq(e, "json")
        || chars_lit_eq(e, "txt") || chars_lit_eq(e, "md") || chars_lit_eq(e, "ini")
        || chars_lit_eq(e, "xml") || chars_lit_eq(e, "csv") || chars_lit_eq(e, "vert")
        || chars_lit_eq(e, "frag") || chars_lit_eq(e, "obj") || chars_lit_eq(e, "mtl")
}

pub fn lowercase_chars(e: &Vec<char>) -> (r: Vec<char>)
    ensures
        r@ == ascii_lowercase(e@),
{
    let mut r: Vec<char> = Vec::new();
    let mut i: usize = 0;
    while i < e.len()
        invariant
            i <= e.len(),
            r@ == ascii_lowercase(e@.take(i as int)),
        decreases e.len() - i,
    {
        r.push(to_ascii_lower(e[i]));
        proof {
            assert(r@ =~= ascii_lowercase(e@.take(i + 1)));
        }
        i = i + 1;
    }
    proof {
        assert(e@.take(e@.len() as int) =~= e@);
    }
    r
}

fn is_makefile(n: &Option<Vec<char>>) -> (r: bool)
    ensures
        r == (match n {
            Some(v) => v@ == "Makefile"@,
            None => false,
        }),
{
    match n {
        Some(v) => chars_lit_eq(v, "Makefile"),
        None => false,
    }
}

/// Whether the editor may open the project file at `path`.
pub fn editable_project_file(path: &str) -> (r: bool)
    ensures
        r == is_editable(path@),
{
    let p = chars_of(path);
    let name = path_file_name(&p);
    if is_makefile(&name) {
        return true;
    }
    match name {
        Some(n) => match name_extension(&n) {
            Some(e) => editable_extension(&lowercase_chars(&e)),
            None => false,
        },
        None => false,
    }
}

/// Whether the editor may save the project file at `path`.
pub fn writable_project_file(path: &str) -> (r: bool)
    ensures
        r == is_writable(path@),
{
    let editable = editable_project_file(path);
    let p = chars_of(path);
    let name = path_file_name(&p);
    let config = chars_of(CONFIG_NAME);
    editable && !is_makefile(&name) && !parts_eq(&path_components(&p), &path_components(&config))
}

/// The paths (with `\` read as `/`) that a project cannot do without.
pub open spec fn is_protected(p: Seq<char>) -> bool {
    let q = replace_char(p, '\\', '/');
    q == CONFIG_NAME@ || q == "Makefile"@ || q == "script.lua"@ || q == "src"@ || q
        == "src/main.cpp"@ || q == "assets"@
}

/// Whether the item at `path` is required by the project and so may be
/// neither renamed nor deleted.
pub fn protected_project_path(path: &str) -> (r: bool)
    ensures
        r == is_protected(path@),
{
    let q = replaced(path, '\\', '/');
    let q = q.as_str();
    str_eq(q, CONFIG_NAME) || str_eq(q, "Makefile") || str_eq(q, "script.lua") || str_eq(q, "src")
        || str_eq(q, "src/main.cpp") || str_eq(q, "assets")
}

/// Items left out of the project tree: hidden names, generated outputs,
/// runtime files, the configuration and object files.
pub open spec fn is_hidden(n: Seq<char>) -> bool {
    starts_with(n, "."@) || n == CONFIG_NAME@ || n == "EBOOT.PBP"@ || n == "PARAM.SFO"@ || n
        == "game.elf"@ || n == "Support.prx"@ || n == "License.txt"@ || n == "lpp.ini"@
        || ends_with(n, ".o"@)
}

pub fn hidden_project_item(name: &str) -> (r: bool)
    ensures
        r == is_hidden(name@),
{
    let v = chars_of(name);
    vec_starts_with(&v, ".") || str_eq(name, CONFIG_NAME) || str_eq(name, "EBOOT.PBP") || str_eq(
        name,
        "PARAM.SFO",
    ) || str_eq(name, "game.elf") || str_eq(name, "Support.prx") || str_eq(name, "License.txt")
        || str_eq(name, "lpp.ini") || vec_ends_with(&v, ".o")
}

/// A file the editor may save is one it may open, and is neither the
/// generated `Makefile` nor the project configuration.
pub proof fn lemma_writable_files_are_editable(p: Seq<char>)
    requires
        is_writable(p),
    ensures
        is_editable(p),
        file_name(p) != Some("Makefile"@),
        components(p) != components(CONFIG_NAME@),
{
}

} // verus!
