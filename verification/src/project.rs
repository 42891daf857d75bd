use vstd::prelude::*;
use vstd::string::StringExecFns;

verus! {

/// The suffix of the stores of a directory that belongs to no project.
pub const GLOBAL_SUFFIX: &'static str = "global";

/// The files and directories whose presence marks the root of a project.
pub open spec fn project_markers() -> Seq<&'static str> {
    seq![
        "Cargo.toml",
        "package.json",
        "requirements.txt",
        "Pipfile",
        "pyproject.toml",
        "setup.py",
        "Makefile",
        "CMakeLists.txt",
        "configure.ac",
        "go.mod",
        "Gemfile",
        "composer.json",
        ".git",
    ]
}

/// The files and directories whose presence marks the root of a project.
pub fn project_marker_list() -> (markers: Vec<&'static str>)
    ensures
        markers@ == project_markers(),
{
    let markers = vec![
        "Cargo.toml",
        "package.json",
        "requirements.txt",
        "Pipfile",
        "pyproject.toml",
        "setup.py",
        "Makefile",
        "CMakeLists.txt",
        "configure.ac",
        "go.mod",
        "Gemfile",
        "composer.json",
        ".git",
    ];
    assert(markers@ =~= project_markers());
    markers
}

/// The text of a hexadecimal digit.
pub open spec fn hex_digit_text(digit: int) -> Seq<char> {
    if digit == 0 {
        "0"@
    } else if digit == 1 {
        "1"@
    } else if digit == 2 {
        "2"@
    } else if digit == 3 {
        "3"@
    } else if digit == 4 {
        "4"@
    } else if digit == 5 {
        "5"@
    } else if digit == 6 {
        "6"@
    } else if digit == 7 {
        "7"@
    } else if digit == 8 {
        "8"@
    } else if digit == 9 {
        "9"@
    } else if digit == 10 {
        "a"@
    } else if digit == 11 {
        "b"@
    } else if digit == 12 {
        "c"@
    } else if digit == 13 {
        "d"@
    } else if digit == 14 {
        "e"@
    } else {
        "f"@
    }
}

/// A number in hexadecimal notation, with small letters and without
/// leading zeros.
pub open spec fn lower_hex(n: nat) -> Seq<char>
    decreases n,
{
    if n < 16 {
        hex_digit_text(n as int)
    } else {
        lower_hex(n / 16) + hex_digit_text((n % 16) as int)
    }
}

fn hex_digit_str(digit: u64) -> (text: &'static str)
    requires
        digit < 16,
    ensures
        text@ == hex_digit_text(digit as int),
{
    if digit == 0 {
        "0"
    } else if digit == 1 {
        "1"
    } else if digit == 2 {
        "2"
    } else if digit == 3 {
        "3"
    } else if digit == 4 {
        "4"
    } else if digit == 5 {
        "5"
    } else if digit == 6 {
        "6"
    } else if digit == 7 {
        "7"
    } else if digit == 8 {
        "8"
    } else if digit == 9 {
        "9"
    } else if digit == 10 {
        "a"
    } else if digit == 11 {
        "b"
    } else if digit == 12 {
        "c"
    } else if digit == 13 {
        "d"
    } else if digit == 14 {
        "e"
    } else {
        "f"
    }
}

/// A number in hexadecimal notation, with small letters and without
/// leading zeros.
pub fn lower_hex_string(n: u64) -> (text: String)
    ensures
        text@ == lower_hex(n as nat),
    decreases n,
{
    if n < 16 {
        String::from_str(hex_digit_str(n))
    } else {
        let mut text = lower_hex_string(n / 16);
        text.append(hex_digit_str(n % 16));
        text
    }
}

/// Hashes a text with the standard library's default hasher. The hash is a
/// number that tells texts apart; which number it is, is not laid down.
#[verifier::external_body]
fn default_hash(text: &str) -> (hash: u64) {
    let mut hasher = std::collections::hash_map::DefaultHasher::new();
    std::hash::Hash::hash(text, &mut hasher);
    std::hash::Hasher::finish(&hasher)
}

/// The suffix for a hash of a project's root.
pub fn suffix_for_hash(hash: u64) -> (suffix: String)
    ensures
        suffix@ == lower_hex(hash as nat),
{
    lower_hex_string(hash)
}

/// The suffix that tells the stores of a project apart from those of other
/// projects: a hash of the project's root in hexadecimal notation, or
/// `global` outside any project.
pub fn project_cache_suffix(root: Option<&str>) -> (suffix: String)
    ensures
        root is None ==> suffix@ == GLOBAL_SUFFIX@,
        root is Some ==> exists|hash: u64| suffix@ == lower_hex(hash as nat),
{
    match root {
        Some(path) => suffix_for_hash(default_hash(path)),
        None => String::from_str(GLOBAL_SUFFIX),
    }
}

} // verus!
