//! Conda `environment.yml` projects: which packages carry over to PyPI, under
//! which names and with which version constraints.
use vstd::prelude::*;
use crate::models::{Dependency, DependencyType, DependencyView, DepTypeView};
use crate::models::dependency::deps_view;
use crate::text::{
    chars_of, contains_char, decimal, ends_with, ends_with_chars, eq_lit, parse_u32,
    parse_u32_chars, push_char, push_chars, push_str, replace_char, split_char,
    split_char_chars, starts_with, starts_with_lit, string_of, strip_prefix, trim, trim_chars,
    u32_to_string, vecs_view, starts_with_chars, find_char, strip_front, ws_pred,
};

verus! {

/// A Conda `environment.yml` file.
pub struct CondaEnvironment {
    pub name: Option<String>,
    pub channels: Option<Vec<String>>,
    pub dependencies: Option<Vec<CondaDependency>>,
}

/// One entry of the `dependencies` list of an environment file.
pub enum CondaDependency {
    /// Simple string dependency (e.g., "numpy")
    Simple(String),
    /// Versioned dependency (e.g., "pandas=1.3.0")
    Versioned(String),
    /// Pip dependencies: the entries of a mapping such as `pip: [..]`, each
    /// key once (see `unique_keys`), in any order
    Pip(Vec<(String, Vec<String>)>),
}

pub struct CondaMigrationSource;

/// A character of `[a-zA-Z0-9\-_.]`.
pub open spec fn conda_name_char(c: char) -> bool {
    pip_name_char(c) || c == '.'
}

/// A character of `[><=!]`.
pub open spec fn op_char(c: char) -> bool {
    c == '>' || c == '<' || c == '=' || c == '!'
}

/// The length of the longest run of characters accepted by `p` from `start`.
pub open spec fn run_from(s: Seq<char>, start: int, p: spec_fn(char) -> bool) -> int {
    (s.len() - start) - strip_front(s.skip(start), p).len()
}

/// The captures of `^([a-zA-Z0-9\-_.]+)\s*([><=!]+)\s*(.+)$` on a Conda
/// requirement: the longest non-empty run of name characters; after the
/// spaces that follow it, the longest non-empty run of operator characters;
/// and, after the spaces that follow that, the rest, which `.` matches only
/// where it holds no line break and which holds a character at least. Where
/// only spaces are left, `.+` takes the last of them; where nothing is left,
/// the operator gives up its last character.
pub open spec fn conda_requirement_captures(s: Seq<char>) -> Option<(Seq<char>, Seq<char>, Seq<char>)> {
    let n1 = run_from(s, 0, |c: char| conda_name_char(c));
    let b = n1 + run_from(s, n1, ws_pred());
    let m = run_from(s, b, |c: char| op_char(c));
    let c = b + m;
    let d = c + run_from(s, c, ws_pred());
    if n1 == 0 || m == 0 {
        None
    } else if d < s.len() {
        if s.skip(d).contains('\n') {
            None
        } else {
            Some((s.take(n1), s.subrange(b, c), s.skip(d)))
        }
    } else if c < s.len() {
        if s[s.len() - 1] == '\n' {
            None
        } else {
            Some((s.take(n1), s.subrange(b, c), s.skip(s.len() - 1)))
        }
    } else if m >= 2 {
        Some((s.take(n1), s.subrange(b, c - 1), s.skip(c - 1)))
    } else {
        None
    }
}

/// A character of `[a-zA-Z0-9\-_]`.
pub open spec fn pip_name_char(c: char) -> bool {
    ('a' <= c && c <= 'z') || ('A' <= c && c <= 'Z') || ('0' <= c && c <= '9') || c == '-' || c == '_'
}

/// The length of the longest prefix of `[a-zA-Z0-9\-_]` characters.
pub open spec fn name_prefix_len(s: Seq<char>) -> nat
    decreases s.len(),
{
    if s.len() > 0 && pip_name_char(s[0]) {
        1 + name_prefix_len(s.drop_first())
    } else {
        0
    }
}

/// The captures of `^([a-zA-Z0-9\-_]+)(.*)$` on a pip requirement: the
/// longest non-empty prefix of name characters and the rest, which `.`
/// matches only where it holds no line break.
pub open spec fn pip_name_captures(s: Seq<char>) -> Option<(Seq<char>, Seq<char>)> {
    let n = name_prefix_len(s);
    if n > 0 && !s.skip(n as int).contains('\n') {
        Some((s.take(n as int), s.skip(n as int)))
    } else {
        None
    }
}

/// The captures of `^([a-zA-Z0-9\-_]+)\[([^\]]+)](.*)$` on a pip requirement:
/// the longest non-empty prefix of name characters, which `[` must follow;
/// the non-empty text up to the first `]`; and the rest, without a line
/// break.
pub open spec fn pip_extras_captures(s: Seq<char>) -> Option<(Seq<char>, Seq<char>, Seq<char>)> {
    let n = name_prefix_len(s) as int;
    if n > 0 && n < s.len() && s[n] == '[' {
        let inner = s.skip(n + 1);
        match find_char(inner, ']') {
            Some(k) => if k > 0 && !inner.skip(k + 1).contains('\n') {
                Some((s.take(n), inner.take(k), inner.skip(k + 1)))
            } else {
                None
            },
            None => None,
        }
    } else {
        None
    }
}

/// Matches `^([a-zA-Z0-9\-_.]+)\s*([><=!]+)\s*(.+)$` with `regex::Regex::captures`;
/// the contract states the captures as `conda_requirement_captures`.
#[verifier::external_body]
fn capture_conda_requirement(s: &str) -> (r: Option<(String, String, String)>)
    ensures
        r is Some <==> conda_requirement_captures(s@) is Some,
        r matches Some((a, b, c)) ==> conda_requirement_captures(s@) == Some((a@, b@, c@)),
{
    let re = regex::Regex::new(r"^([a-zA-Z0-9\-_.]+)\s*([><=!]+)\s*(.+)$").unwrap();
    match re.captures(s) {
        Some(c) => Some((c[1].to_string(), c[2].to_string(), c[3].to_string())),
        None => None,
    }
}

/// Matches `^([a-zA-Z0-9\-_]+)\[([^\]]+)](.*)$` with `regex::Regex::captures`;
/// the contract states the captures as `pip_extras_captures`.
#[verifier::external_body]
fn capture_pip_extras(s: &str) -> (r: Option<(String, String, String)>)
    ensures
        r is Some <==> pip_extras_captures(s@) is Some,
        r matches Some((a, b, c)) ==> pip_extras_captures(s@) == Some((a@, b@, c@)),
{
    let re = regex::Regex::new(r"^([a-zA-Z0-9\-_]+)\[([^\]]+)](.*)$").unwrap();
    match re.captures(s) {
        Some(c) => Some((c[1].to_string(), c[2].to_string(), c[3].to_string())),
        None => None,
    }
}

/// Matches `^([a-zA-Z0-9\-_]+)(.*)$` with `regex::Regex::captures`; the
/// contract states the captures as `pip_name_captures`.
#[verifier::external_body]
fn capture_pip_name(s: &str) -> (r: Option<(String, String)>)
    ensures
        r is Some <==> pip_name_captures(s@) is Some,
        r matches Some((a, b)) ==> pip_name_captures(s@) == Some((a@, b@)),
{
    let re = regex::Regex::new(r"^([a-zA-Z0-9\-_]+)(.*)$").unwrap();
    match re.captures(s) {
        Some(c) => Some((c[1].to_string(), c[2].to_string())),
        None => None,
    }
}

/// The Conda package names that have no PyPI counterpart to migrate: the
/// interpreter and installer themselves, Conda's own tooling, and system
/// libraries.
pub open spec fn conda_only_package(n: Seq<char>) -> bool {
    ||| n == "python"@
    ||| n == "pip"@
    ||| n == "setuptools"@
    ||| n == "wheel"@
    ||| n == "anaconda"@
    ||| n == "anaconda-client"@
    ||| n == "anaconda-navigator"@
    ||| n == "anaconda-project"@
    ||| n == "navigator-updater"@
    ||| n == "conda"@
    ||| n == "conda-build"@
    ||| n == "conda-env"@
    ||| n == "conda-pack"@
    ||| n == "conda-verify"@
    ||| n == "conda-package-handling"@
    ||| n == "clyent"@
    ||| n == "console_shortcut"@
    ||| n == "dask-core"@
    ||| n == "get_terminal_size"@
    ||| n == "matplotlib-base"@
    ||| n == "numpy-base"@
    ||| n == "path.py"@
    ||| n == "py-lief"@
    ||| n == "singledispatch"@
    ||| n == "blosc"@
    ||| n == "bkcharts"@
    ||| n == "tbb"@
    ||| n == "zope"@
    ||| n == "backports"@
    ||| n == "bzip2"@
    ||| n == "curl"@
    ||| n == "freetype"@
    ||| n == "hdf5"@
    ||| n == "icu"@
    ||| n == "jpeg"@
    ||| n == "krb5"@
    ||| n == "libarchive"@
    ||| n == "libcurl"@
    ||| n == "libiconv"@
    ||| n == "liblief"@
    ||| n == "libllvm9"@
    ||| n == "libpng"@
    ||| n == "libsodium"@
    ||| n == "libspatialindex"@
    ||| n == "libssh2"@
    ||| n == "libtiff"@
    ||| n == "libxml2"@
    ||| n == "libxslt"@
    ||| n == "lz4-c"@
    ||| n == "lzo"@
    ||| n == "mpc"@
    ||| n == "mpfr"@
    ||| n == "mpir"@
    ||| n == "pandoc"@
    ||| n == "qt"@
    ||| n == "sip"@
    ||| n == "snappy"@
    ||| n == "yaml"@
    ||| n == "zeromq"@
    ||| n == "zstd"@
    ||| n == "libgcc-ng"@
    ||| n == "libstdcxx-ng"@
    ||| n == "libffi"@
    ||| n == "openssl"@
    ||| n == "ca-certificates"@
    ||| n == "certifi"@
    ||| n == "ncurses"@
    ||| n == "readline"@
    ||| n == "sqlite"@
    ||| n == "tk"@
    ||| n == "xz"@
    ||| n == "zlib"@
    ||| n == "libedit"@
    ||| n == "libgomp"@
    ||| n == "_libgcc_mutex"@
    ||| n == "_openmp_mutex"@
    ||| n == "ld_impl_linux-64"@
    ||| n == "libgfortran-ng"@
    ||| n == "libgfortran4"@
    ||| n == "libgfortran5"@
    ||| n == "mkl"@
    ||| n == "mkl-service"@
    ||| n == "mkl_fft"@
    ||| n == "mkl_random"@
    ||| n == "intel-openmp"@
    ||| n == "blas"@
    ||| n == "openblas"@
    ||| n == "libopenblas"@
    ||| n == "r-base"@
    ||| n == "r-essentials"@
    ||| n == "cudatoolkit"@
    ||| n == "cudnn"@
    ||| n == "cuda"@
    ||| n == "make"@
    ||| n == "cmake"@
    ||| n == "gcc"@
    ||| n == "gxx"@
    ||| n == "gfortran"@
    ||| n == "compilers"@
    ||| n == "c-compiler"@
    ||| n == "cxx-compiler"@
    ||| n == "fortran-compiler"@
}

/// The PyPI name of a Conda package whose name differs between the two.
pub open spec fn pypi_name(n: Seq<char>) -> Seq<char> {
    if n == "pytorch"@ {
        "torch"@
    } else if n == "pytorch-cpu"@ {
        "torch"@
    } else if n == "pytorch-gpu"@ {
        "torch"@
    } else if n == "tensorflow-gpu"@ {
        "tensorflow"@
    } else if n == "py-opencv"@ {
        "opencv-python"@
    } else if n == "pillow-simd"@ {
        "pillow"@
    } else if n == "msgpack-python"@ {
        "msgpack"@
    } else if n == "protobuf3"@ {
        "protobuf"@
    } else if n == "pyqt"@ {
        "pyqt5"@
    } else if n == "pyyaml"@ {
        "PyYAML"@
    } else if n == "beautifulsoup4"@ {
        "beautifulsoup4"@
    } else if n == "lxml"@ {
        "lxml"@
    } else if n == "pytables"@ {
        "tables"@
    } else if n == "tensorflow-mkl"@ {
        "tensorflow"@
    } else if n == "ruamel_yaml"@ {
        "ruamel.yaml"@
    } else if n == "importlib_metadata"@ {
        "importlib-metadata"@
    } else if n == "prompt_toolkit"@ {
        "prompt-toolkit"@
    } else {
        n
    }
}

fn listed_conda_only(v: &[char]) -> (r: bool)
    ensures
        r == conda_only_package(v@),
{
    eq_lit(v, "python")
        || eq_lit(v, "pip")
        || eq_lit(v, "setuptools")
        || eq_lit(v, "wheel")
        || eq_lit(v, "anaconda")
        || eq_lit(v, "anaconda-client")
        || eq_lit(v, "anaconda-navigator")
        || eq_lit(v, "anaconda-project")
        || eq_lit(v, "navigator-updater")
        || eq_lit(v, "conda")
        || eq_lit(v, "conda-build")
        || eq_lit(v, "conda-env")
        || eq_lit(v, "conda-pack")
        || eq_lit(v, "conda-verify")
        || eq_lit(v, "conda-package-handling")
        || eq_lit(v, "clyent")
        || eq_lit(v, "console_shortcut")
        || eq_lit(v, "dask-core")
        || eq_lit(v, "get_terminal_size")
        || eq_lit(v, "matplotlib-base")
        || eq_lit(v, "numpy-base")
        || eq_lit(v, "path.py")
        || eq_lit(v, "py-lief")
        || eq_lit(v, "singledispatch")
        || eq_lit(v, "blosc")
        || eq_lit(v, "bkcharts")
        || eq_lit(v, "tbb")
        || eq_lit(v, "zope")
        || eq_lit(v, "backports")
        || eq_lit(v, "bzip2")
        || eq_lit(v, "curl")
        || eq_lit(v, "freetype")
        || eq_lit(v, "hdf5")
        || eq_lit(v, "icu")
        || eq_lit(v, "jpeg")
        || eq_lit(v, "krb5")
        || eq_lit(v, "libarchive")
        || eq_lit(v, "libcurl")
        || eq_lit(v, "libiconv")
        || eq_lit(v, "liblief")
        || eq_lit(v, "libllvm9")
        || eq_lit(v, "libpng")
        || eq_lit(v, "libsodium")
        || eq_lit(v, "libspatialindex")
        || eq_lit(v, "libssh2")
        || eq_lit(v, "libtiff")
        || eq_lit(v, "libxml2")
        || eq_lit(v, "libxslt")
        || eq_lit(v, "lz4-c")
        || eq_lit(v, "lzo")
        || eq_lit(v, "mpc")
        || eq_lit(v, "mpfr")
        || eq_lit(v, "mpir")
        || eq_lit(v, "pandoc")
        || eq_lit(v, "qt")
        || eq_lit(v, "sip")
        || eq_lit(v, "snappy")
        || eq_lit(v, "yaml")
        || eq_lit(v, "zeromq")
        || eq_lit(v, "zstd")
        || eq_lit(v, "libgcc-ng")
        || eq_lit(v, "libstdcxx-ng")
        || eq_lit(v, "libffi")
        || eq_lit(v, "openssl")
        || eq_lit(v, "ca-certificates")
        || eq_lit(v, "certifi")
        || eq_lit(v, "ncurses")
        || eq_lit(v, "readline")
        || eq_lit(v, "sqlite")
        || eq_lit(v, "tk")
        || eq_lit(v, "xz")
        || eq_lit(v, "zlib")
        || eq_lit(v, "libedit")
        || eq_lit(v, "libgomp")
        || eq_lit(v, "_libgcc_mutex")
        || eq_lit(v, "_openmp_mutex")
        || eq_lit(v, "ld_impl_linux-64")
        || eq_lit(v, "libgfortran-ng")
        || eq_lit(v, "libgfortran4")
        || eq_lit(v, "libgfortran5")
        || eq_lit(v, "mkl")
        || eq_lit(v, "mkl-service")
        || eq_lit(v, "mkl_fft")
        || eq_lit(v, "mkl_random")
        || eq_lit(v, "intel-openmp")
        || eq_lit(v, "blas")
        || eq_lit(v, "openblas")
        || eq_lit(v, "libopenblas")
        || eq_lit(v, "r-base")
        || eq_lit(v, "r-essentials")
        || eq_lit(v, "cudatoolkit")
        || eq_lit(v, "cudnn")
        || eq_lit(v, "cuda")
        || eq_lit(v, "make")
        || eq_lit(v, "cmake")
        || eq_lit(v, "gcc")
        || eq_lit(v, "gxx")
        || eq_lit(v, "gfortran")
        || eq_lit(v, "compilers")
        || eq_lit(v, "c-compiler")
        || eq_lit(v, "cxx-compiler")
        || eq_lit(v, "fortran-compiler")
}

fn mapped_name(v: &[char]) -> (r: String)
    ensures
        r@ == pypi_name(v@),
{
    if eq_lit(v, "pytorch") {
        string_of(chars_of("torch").as_slice())
    } else if eq_lit(v, "pytorch-cpu") {
        string_of(chars_of("torch").as_slice())
    } else if eq_lit(v, "pytorch-gpu") {
        string_of(chars_of("torch").as_slice())
    } else if eq_lit(v, "tensorflow-gpu") {
        string_of(chars_of("tensorflow").as_slice())
    } else if eq_lit(v, "py-opencv") {
        string_of(chars_of("opencv-python").as_slice())
    } else if eq_lit(v, "pillow-simd") {
        string_of(chars_of("pillow").as_slice())
    } else if eq_lit(v, "msgpack-python") {
        string_of(chars_of("msgpack").as_slice())
    } else if eq_lit(v, "protobuf3") {
        string_of(chars_of("protobuf").as_slice())
    } else if eq_lit(v, "pyqt") {
        string_of(chars_of("pyqt5").as_slice())
    } else if eq_lit(v, "pyyaml") {
        string_of(chars_of("PyYAML").as_slice())
    } else if eq_lit(v, "beautifulsoup4") {
        string_of(chars_of("beautifulsoup4").as_slice())
    } else if eq_lit(v, "lxml") {
        string_of(chars_of("lxml").as_slice())
    } else if eq_lit(v, "pytables") {
        string_of(chars_of("tables").as_slice())
    } else if eq_lit(v, "tensorflow-mkl") {
        string_of(chars_of("tensorflow").as_slice())
    } else if eq_lit(v, "ruamel_yaml") {
        string_of(chars_of("ruamel.yaml").as_slice())
    } else if eq_lit(v, "importlib_metadata") {
        string_of(chars_of("importlib-metadata").as_slice())
    } else if eq_lit(v, "prompt_toolkit") {
        string_of(chars_of("prompt-toolkit").as_slice())
    } else {
        string_of(v)
    }
}

/// `str::trim_end_matches` with a string pattern: every trailing copy goes.
pub open spec fn strip_suffix_all(s: Seq<char>, p: Seq<char>) -> Seq<char>
    decreases s.len(),
{
    if p.len() > 0 && ends_with(s, p) {
        strip_suffix_all(s.take(s.len() - p.len()), p)
    } else {
        s
    }
}

/// The next version number, as `u32` addition in a release build computes it.
pub open spec fn next_number(n: u32) -> nat {
    if n == u32::MAX { 0 } else { (n + 1) as nat }
}

/// A Conda wildcard version as a pip range: `1.*` is `>=1.0.0,<2.0.0`,
/// `1.2.*` is `>=1.2.0,<1.3.0`, and `*` means any version.
pub open spec fn wildcard_range(v: Seq<char>) -> Option<Seq<char>> {
    if v == seq!['*'] {
        None
    } else if ends_with(v, seq!['.', '*']) {
        let parts = split_char(strip_suffix_all(v, seq!['.', '*']), '.');
        if parts.len() == 1 {
            match parse_u32(parts[0]) {
                Some(m) => Some(">="@ + decimal(m as nat) + ".0.0,<"@ + decimal(next_number(m)) + ".0.0"@),
                None => None,
            }
        } else if parts.len() == 2 {
            match parse_u32(parts[1]) {
                Some(m) => Some(
                    ">="@ + parts[0] + "."@ + decimal(m as nat) + ".0,<"@ + parts[0] + "."@
                        + decimal(next_number(m)) + ".0"@,
                ),
                None => None,
            }
        } else {
            Some(replace_char(v, '*', seq!['0']))
        }
    } else {
        Some(v)
    }
}

/// A Conda requirement as a name and a pip version constraint, given the
/// captures of its pattern: a single `=` pins the version (`==`), a wildcard
/// becomes a range, other operators pass through.
pub open spec fn conda_requirement(s: Seq<char>, caps: Option<(Seq<char>, Seq<char>, Seq<char>)>) -> (Seq<char>, Option<Seq<char>>) {
    match caps {
        Some((name, op, version)) => {
            if op == seq!['='] {
                if version.contains('*') {
                    (name, wildcard_range(version))
                } else {
                    (name, Some(seq!['=', '='] + version))
                }
            } else {
                (name, Some(op + version))
            }
        },
        None => (trim(s), None),
    }
}

/// A Conda requirement string parsed as the regex crate matches it.
pub open spec fn parse_conda_requirement(s: Seq<char>) -> (Seq<char>, Option<Seq<char>>) {
    conda_requirement(s, conda_requirement_captures(s))
}

/// `bokeh==2.1.1` does not build on recent Pythons; it moves to `==2.4.3`.
pub open spec fn compatible_version(name: Seq<char>, version: Option<Seq<char>>) -> Option<Seq<char>> {
    if name == "bokeh"@ && version == Some("==2.1.1"@) {
        Some("==2.4.3"@)
    } else {
        version
    }
}

/// Whether a Conda package is left out of the migration.
pub open spec fn skipped_package(name: Seq<char>) -> bool {
    starts_with(name, seq!['_']) || conda_only_package(name)
}

/// `major.minor` of a Python version requirement such as `==3.9.7`.
pub open spec fn python_major_minor(v: Seq<char>) -> Seq<char> {
    let vs = match strip_prefix(v, seq!['=', '=']) {
        Some(rest) => rest,
        None => v,
    };
    let parts = split_char(vs, '.');
    if parts.len() >= 2 {
        parts[0] + seq!['.'] + parts[1]
    } else {
        vs
    }
}

/// The Python version that the first `python` entry of an environment asks
/// for, as `major.minor`.
pub open spec fn environment_python_version(deps: Seq<CondaDependency>) -> Option<Seq<char>>
    decreases deps.len(),
{
    if deps.len() == 0 {
        None
    } else {
        match deps[0] {
            CondaDependency::Simple(s) | CondaDependency::Versioned(s) => {
                let (name, version) = parse_conda_requirement(s@);
                if name == "python"@ {
                    match version {
                        Some(v) => Some(python_major_minor(v)),
                        None => None,
                    }
                } else {
                    environment_python_version(deps.drop_first())
                }
            },
            CondaDependency::Pip(_) => environment_python_version(deps.drop_first()),
        }
    }
}

/// The extras written between brackets, trimmed, without empty ones.
pub open spec fn extras_list(parts: Seq<Seq<char>>) -> Seq<Seq<char>>
    decreases parts.len(),
{
    if parts.len() == 0 {
        seq![]
    } else {
        let rest = extras_list(parts.drop_last());
        if trim(parts.last()).len() == 0 {
            rest
        } else {
            rest.push(trim(parts.last()))
        }
    }
}

/// The version part of a pip requirement: none when nothing follows the name.
pub open spec fn version_part(rest: Seq<char>) -> Option<Seq<char>> {
    if rest.len() == 0 {
        None
    } else {
        Some(trim(rest))
    }
}

/// A pip requirement inside an environment file as name, version and extras,
/// given the captures of its two patterns.
pub open spec fn pip_requirement(
    s: Seq<char>,
    extras_caps: Option<(Seq<char>, Seq<char>, Seq<char>)>,
    name_caps: Option<(Seq<char>, Seq<char>)>,
) -> (Seq<char>, Option<Seq<char>>, Option<Seq<Seq<char>>>) {
    match extras_caps {
        Some((name, extras, rest)) => (name, version_part(rest), Some(extras_list(split_char(extras, ',')))),
        None => match name_caps {
            Some((name, rest)) => (name, version_part(rest), None),
            None => (s, None, None),
        },
    }
}

pub open spec fn parse_pip_requirement(s: Seq<char>) -> (Seq<char>, Option<Seq<char>>, Option<Seq<Seq<char>>>) {
    pip_requirement(s, pip_extras_captures(s), pip_name_captures(s))
}

/// Whether a line of the pip section names no package: empty, a comment, or
/// an editable install.
pub open spec fn pip_line_skipped(t: Seq<char>) -> bool {
    t.len() == 0 || starts_with(t, seq!['#']) || starts_with(t, "-e"@) || starts_with(t, "--editable"@)
}

pub open spec fn pip_dependency(t: Seq<char>) -> DependencyView {
    let (name, version, extras) = parse_pip_requirement(t);
    DependencyView { name, version, dep_type: DepTypeView::Main, environment_markers: None, extras }
}

/// The dependencies of the pip section of an environment file.
pub open spec fn pip_dependencies(lines: Seq<Seq<char>>) -> Seq<DependencyView>
    decreases lines.len(),
{
    if lines.len() == 0 {
        seq![]
    } else {
        let rest = pip_dependencies(lines.drop_last());
        let t = trim(lines.last());
        if pip_line_skipped(t) {
            rest
        } else {
            rest.push(pip_dependency(t))
        }
    }
}

pub open spec fn conda_dependency(s: Seq<char>) -> Option<DependencyView> {
    let (name, version) = parse_conda_requirement(s);
    if skipped_package(name) {
        None
    } else {
        Some(DependencyView {
            name: pypi_name(name),
            version: compatible_version(pypi_name(name), version),
            dep_type: DepTypeView::Main,
            environment_markers: None,
            extras: None,
        })
    }
}

/// The value of the first entry named `pip` of a mapping.
pub open spec fn pip_entry(m: Seq<(String, Vec<String>)>) -> Option<Seq<Seq<char>>>
    decreases m.len(),
{
    if m.len() == 0 {
        None
    } else if m[0].0@ == "pip"@ {
        Some(m[0].1@.map_values(|s: String| s@))
    } else {
        pip_entry(m.drop_first())
    }
}

/// No key occurs twice among the entries of a mapping, as in the map that
/// the environment file was read into.
pub open spec fn unique_keys(m: Seq<(String, Vec<String>)>) -> bool {
    forall|i: int, j: int| 0 <= i < j < m.len() ==> #[trigger] m[i].0@ != #[trigger] m[j].0@
}

/// Where no key occurs twice, the `pip` entry of a mapping does not depend on
/// the order of its entries: it is the list of the one entry named `pip`.
pub proof fn lemma_pip_entry_of_unique_keys(m: Seq<(String, Vec<String>)>, i: int)
    requires
        unique_keys(m),
        0 <= i < m.len(),
        m[i].0@ == "pip"@,
    ensures
        pip_entry(m) == Some(m[i].1@.map_values(|s: String| s@)),
    decreases m.len(),
{
    if i > 0 {
        assert(m[0].0@ != m[i].0@);
        let rest = m.drop_first();
        assert(rest[i - 1] == m[i]);
        assert(unique_keys(rest)) by {
            assert forall|a: int, b: int| 0 <= a < b < rest.len() implies #[trigger] rest[a].0@ != #[trigger] rest[b].0@ by {
                assert(rest[a] == m[a + 1] && rest[b] == m[b + 1]);
            }
        }
        lemma_pip_entry_of_unique_keys(rest, i - 1);
    }
}

/// Where no key is `pip`, a mapping has no `pip` entry.
pub proof fn lemma_pip_entry_none(m: Seq<(String, Vec<String>)>)
    requires
        forall|i: int| 0 <= i < m.len() ==> (#[trigger] m[i]).0@ != "pip"@,
    ensures
        pip_entry(m) is None,
    decreases m.len(),
{
    if m.len() > 0 {
        let rest = m.drop_first();
        assert forall|i: int| 0 <= i < rest.len() implies (#[trigger] rest[i]).0@ != "pip"@ by {
            assert(rest[i] == m[i + 1]);
        }
        lemma_pip_entry_none(rest);
    }
}

/// The dependencies that a migration takes from an environment's list.
pub open spec fn environment_dependencies(deps: Seq<CondaDependency>) -> Seq<DependencyView>
    decreases deps.len(),
{
    if deps.len() == 0 {
        seq![]
    } else {
        let rest = environment_dependencies(deps.drop_last());
        match deps.last() {
            CondaDependency::Simple(s) | CondaDependency::Versioned(s) => match conda_dependency(s@) {
                Some(d) => rest.push(d),
                None => rest,
            },
            CondaDependency::Pip(m) => match pip_entry(m@) {
                Some(lines) => rest + pip_dependencies(lines),
                None => rest,
            },
        }
    }
}

/// The characters of `s` without every trailing copy of `p`.
fn strip_suffix_all_chars<'a>(s: &'a [char], p: &[char]) -> (r: &'a [char])
    ensures
        r@ == strip_suffix_all(s@, p@),
{
    let mut end: usize = s.len();
    assert(s@.subrange(0, end as int) =~= s@);
    while p.len() > 0 && ends_with_chars(&s[0..end], p)
        invariant
            end <= s@.len(),
            strip_suffix_all(s@, p@) == strip_suffix_all(s@.subrange(0, end as int), p@),
        decreases end,
    {
        assert(s@.subrange(0, end as int).take(end - p@.len()) =~= s@.subrange(0, end - p@.len()));
        end = end - p.len();
    }
    &s[0..end]
}

fn opt_string(o: Option<Vec<char>>) -> (r: Option<String>)
    ensures
        r matches Some(x) ==> o matches Some(y) && x@ == y@,
        r is None <==> o is None,
{
    match o {
        Some(v) => Some(string_of(v.as_slice())),
        None => None,
    }
}

/// `major.minor` of a Python version requirement such as `==3.9.7`.
fn python_major_minor_of(v: &[char]) -> (r: String)
    ensures
        r@ == python_major_minor(v@),
{
    let eqeq = vec!['=', '='];
    assert(eqeq@ =~= seq!['=', '=']);
    let vs: &[char] = if starts_with_chars(v, eqeq.as_slice()) {
        &v[2..v.len()]
    } else {
        v
    };
    assert(starts_with(v@, seq!['=', '=']) ==> vs@ =~= v@.skip(2));
    let parts = split_char_chars(vs, '.');
    if parts.len() >= 2 {
        let mut r = string_of(parts[0].as_slice());
        push_char(&mut r, '.');
        push_chars(&mut r, parts[1].as_slice());
        proof {
            assert(vecs_view(parts@)[0] == parts@[0]@);
            assert(vecs_view(parts@)[1] == parts@[1]@);
        }
        r
    } else {
        string_of(vs)
    }
}

fn extras_of(parts: &Vec<Vec<char>>) -> (r: Vec<String>)
    ensures
        r@.map_values(|s: String| s@) == extras_list(vecs_view(parts@)),
{
    let mut r: Vec<String> = Vec::new();
    let mut i: usize = 0;
    while i < parts.len()
        invariant
            i <= parts@.len(),
            r@.map_values(|s: String| s@) == extras_list(vecs_view(parts@).take(i as int)),
        decreases parts.len() - i,
    {
        let t = trim_chars(parts[i].as_slice());
        let ghost before = r@;
        proof {
            let pv = vecs_view(parts@).take(i + 1);
            assert(pv.drop_last() =~= vecs_view(parts@).take(i as int));
            assert(pv.last() == parts@[i as int]@);
        }
        if t.len() > 0 {
            r.push(string_of(t));
            assert(r@.map_values(|s: String| s@) =~= before.map_values(|s: String| s@).push(t@));
        }
        i = i + 1;
    }
    assert(vecs_view(parts@).take(parts@.len() as int) =~= vecs_view(parts@));
    r
}

fn version_part_of(rest: &String) -> (r: Option<String>)
    ensures
        opt_view(r) == version_part(rest@),
{
    let v = chars_of(rest.as_str());
    if v.len() == 0 {
        None
    } else {
        Some(string_of(trim_chars(v.as_slice())))
    }
}

pub open spec fn opt_view(o: Option<String>) -> Option<Seq<char>> {
    crate::text::opt_view(o)
}

pub open spec fn opt_strs_view(o: Option<Vec<String>>) -> Option<Seq<Seq<char>>> {
    crate::models::dependency::opt_strs_view(o)
}

impl CondaMigrationSource {
    /// A Conda requirement as name and pip version, given the captures of its
    /// pattern (see `conda_requirement_captures`).
    pub fn conda_requirement_from_captures(
        &self,
        dep_str: &str,
        captures: Option<(String, String, String)>,
    ) -> (r: (String, Option<String>))
        ensures
            (r.0@, opt_view(r.1)) == conda_requirement(
                dep_str@,
                match captures {
                    Some((a, b, c)) => Some((a@, b@, c@)),
                    None => None,
                },
            ),
    {
        match captures {
            Some((name, op, version)) => {
                let opv = chars_of(op.as_str());
                let vv = chars_of(version.as_str());
                if opv.len() == 1 && opv[0] == '=' {
                    assert(opv@ =~= seq!['=']);
                    if contains_char(vv.as_slice(), '*') {
                        let w = self.convert_wildcard_version(version.as_str());
                        (name, w)
                    } else {
                        let mut p = String::new();
                        push_char(&mut p, '=');
                        push_char(&mut p, '=');
                        push_str(&mut p, version.as_str());
                        assert(p@ =~= seq!['=', '='] + version@);
                        (name, Some(p))
                    }
                } else {
                    proof {
                        if opv@ == seq!['='] {
                            assert(opv@.len() == 1 && opv@[0] == '=');
                        }
                    }
                    let mut p = op.clone();
                    push_str(&mut p, version.as_str());
                    (name, Some(p))
                }
            },
            None => {
                let v = chars_of(dep_str);
                (string_of(trim_chars(v.as_slice())), None)
            },
        }
    }

    /// Parses a Conda dependency string into name and version
    pub fn parse_conda_dependency(&self, dep_str: &str) -> (r: (String, Option<String>))
        ensures
            (r.0@, opt_view(r.1)) == parse_conda_requirement(dep_str@),
    {
        let caps = capture_conda_requirement(dep_str);
        self.conda_requirement_from_captures(dep_str, caps)
    }

    /// Converts Conda wildcard versions to pip-compatible version ranges
    pub fn convert_wildcard_version(&self, version: &str) -> (r: Option<String>)
        ensures
            opt_view(r) == wildcard_range(version@),
    {
        let v = chars_of(version);
        let star = vec!['*'];
        let dot_star = vec!['.', '*'];
        assert(star@ =~= seq!['*']);
        assert(dot_star@ =~= seq!['.', '*']);
        if crate::text::chars_eq(v.as_slice(), star.as_slice()) {
            return None;
        }
        if !ends_with_chars(v.as_slice(), dot_star.as_slice()) {
            return Some(string_of(v.as_slice()));
        }
        let base = strip_suffix_all_chars(v.as_slice(), dot_star.as_slice());
        let parts = split_char_chars(base, '.');
        proof {
            assert(vecs_view(parts@).len() == parts@.len());
        }
        if parts.len() == 1 {
            assert(vecs_view(parts@)[0] == parts@[0]@);
            match parse_u32_chars(parts[0].as_slice()) {
                Some(m) => {
                    let next: u32 = if m == 4294967295u32 { 0 } else { m + 1 };
                    let mut r = String::new();
                    push_str(&mut r, ">=");
                    push_str(&mut r, u32_to_string(m).as_str());
                    push_str(&mut r, ".0.0,<");
                    push_str(&mut r, u32_to_string(next).as_str());
                    push_str(&mut r, ".0.0");
                    Some(r)
                },
                None => None,
            }
        } else if parts.len() == 2 {
            assert(vecs_view(parts@)[0] == parts@[0]@);
            assert(vecs_view(parts@)[1] == parts@[1]@);
            match parse_u32_chars(parts[1].as_slice()) {
                Some(m) => {
                    let next: u32 = if m == 4294967295u32 { 0 } else { m + 1 };
                    let mut r = String::new();
                    push_str(&mut r, ">=");
                    push_chars(&mut r, parts[0].as_slice());
                    push_str(&mut r, ".");
                    push_str(&mut r, u32_to_string(m).as_str());
                    push_str(&mut r, ".0,<");
                    push_chars(&mut r, parts[0].as_slice());
                    push_str(&mut r, ".");
                    push_str(&mut r, u32_to_string(next).as_str());
                    push_str(&mut r, ".0");
                    Some(r)
                },
                None => None,
            }
        } else {
            let zero = vec!['0'];
            assert(zero@ =~= seq!['0']);
            Some(crate::text::replace_char_chars(v.as_slice(), '*', zero.as_slice()))
        }
    }

    /// Checks if a package should be skipped (non-Python packages)
    pub fn should_skip_package(&self, name: &str) -> (r: bool)
        ensures
            r == skipped_package(name@),
    {
        let v = chars_of(name);
        let under = vec!['_'];
        assert(under@ =~= seq!['_']);
        crate::text::starts_with_chars(v.as_slice(), under.as_slice()) || listed_conda_only(v.as_slice())
    }

    /// Maps Conda package names to their PyPI equivalents
    pub fn map_conda_to_pypi_name(&self, conda_name: &str) -> (r: String)
        ensures
            r@ == pypi_name(conda_name@),
    {
        let v = chars_of(conda_name);
        mapped_name(v.as_slice())
    }

    /// Updates old package versions that are known to have compatibility issues
    pub fn update_problematic_versions(&self, name: &str, version: Option<String>) -> (r: Option<String>)
        ensures
            opt_view(r) == compatible_version(name@, opt_view(version)),
    {
        let n = chars_of(name);
        if eq_lit(n.as_slice(), "bokeh") {
            match &version {
                Some(v) => {
                    let vv = chars_of(v.as_str());
                    if eq_lit(vv.as_slice(), "==2.1.1") {
                        return Some(string_of(chars_of("==2.4.3").as_slice()));
                    }
                },
                None => {},
            }
        }
        version
    }

    /// Extracts Python version requirement from dependencies
    pub fn extract_python_version(&self, dependencies: &Vec<CondaDependency>) -> (r: Option<String>)
        ensures
            opt_view(r) == environment_python_version(dependencies@),
    {
        let mut i: usize = 0;
        assert(dependencies@.skip(0) =~= dependencies@);
        while i < dependencies.len()
            invariant
                i <= dependencies@.len(),
                environment_python_version(dependencies@) == environment_python_version(
                    dependencies@.skip(i as int),
                ),
            decreases dependencies.len() - i,
        {
            assert(dependencies@.skip(i as int).drop_first() =~= dependencies@.skip(i + 1));
            assert(dependencies@.skip(i as int)[0] == dependencies@[i as int]);
            match &dependencies[i] {
                CondaDependency::Simple(s) | CondaDependency::Versioned(s) => {
                    let (name, version) = self.parse_conda_dependency(s.as_str());
                    let nv = chars_of(name.as_str());
                    if eq_lit(nv.as_slice(), "python") {
                        return match version {
                            Some(v) => {
                                let vv = chars_of(v.as_str());
                                Some(python_major_minor_of(vv.as_slice()))
                            },
                            None => None,
                        };
                    }
                },
                CondaDependency::Pip(_) => {},
            }
            i = i + 1;
        }
        assert(dependencies@.skip(i as int).len() == 0);
        None
    }

    /// Parse pip dependency string with potential extras
    pub fn parse_pip_dependency(&self, dep_str: &str) -> (r: (String, Option<String>, Option<Vec<String>>))
        ensures
            (r.0@, opt_view(r.1), opt_strs_view(r.2)) == parse_pip_requirement(dep_str@),
    {
        let extras_caps = capture_pip_extras(dep_str);
        let name_caps = if extras_caps.is_some() { None } else { capture_pip_name(dep_str) };
        self.pip_requirement_from_captures(dep_str, extras_caps, name_caps)
    }

    /// A pip requirement as name, version and extras, given the captures of
    /// its two patterns (see `pip_extras_captures` and `pip_name_captures`).
    pub fn pip_requirement_from_captures(
        &self,
        dep_str: &str,
        extras_captures: Option<(String, String, String)>,
        name_captures: Option<(String, String)>,
    ) -> (r: (String, Option<String>, Option<Vec<String>>))
        ensures
            (r.0@, opt_view(r.1), opt_strs_view(r.2)) == pip_requirement(
                dep_str@,
                match extras_captures {
                    Some((a, b, c)) => Some((a@, b@, c@)),
                    None => None,
                },
                match name_captures {
                    Some((a, b)) => Some((a@, b@)),
                    None => None,
                },
            ),
    {
        match extras_captures {
            Some((name, extras, rest)) => {
                let ev = chars_of(extras.as_str());
                let parts = split_char_chars(ev.as_slice(), ',');
                let list = extras_of(&parts);
                (name, version_part_of(&rest), Some(list))
            },
            None => match name_captures {
                Some((name, rest)) => (name, version_part_of(&rest), None),
                None => (string_of(chars_of(dep_str).as_slice()), None, None),
            },
        }
    }

    /// Process pip dependencies from the environment file
    pub fn process_pip_dependencies(&self, pip_deps: &Vec<String>) -> (r: Vec<Dependency>)
        ensures
            deps_view(r@) == pip_dependencies(pip_deps@.map_values(|s: String| s@)),
    {
        let mut r: Vec<Dependency> = Vec::new();
        let ghost lines = pip_deps@.map_values(|s: String| s@);
        let mut i: usize = 0;
        while i < pip_deps.len()
            invariant
                i <= pip_deps@.len(),
                lines == pip_deps@.map_values(|s: String| s@),
                deps_view(r@) == pip_dependencies(lines.take(i as int)),
            decreases pip_deps.len() - i,
        {
            proof {
                assert(lines.take(i + 1).drop_last() =~= lines.take(i as int));
                assert(lines.take(i + 1).last() == pip_deps@[i as int]@);
            }
            let v = chars_of(pip_deps[i].as_str());
            let t = trim_chars(v.as_slice());
            let skipped = t.len() == 0 || t[0] == '#' || starts_with_lit(t, "-e") || starts_with_lit(t, "--editable");
            proof {
                if t@.len() > 0 {
                    assert(t@.subrange(0, 1) =~= seq![t@[0]]);
                    assert(seq![t@[0]][0] == t@[0]);
                }
            }
            if !skipped {
                let ts = string_of(t);
                let (name, version, extras) = self.parse_pip_dependency(ts.as_str());
                let ghost before = r@;
                r.push(Dependency {
                    name,
                    version,
                    dep_type: DependencyType::Main,
                    environment_markers: None,
                    extras,
                });
                assert(deps_view(r@) =~= deps_view(before).push(pip_dependency(t@)));
            }
            i = i + 1;
        }
        assert(lines.take(pip_deps@.len() as int) =~= lines);
        r
    }

    fn pip_section<'a>(&self, m: &'a Vec<(String, Vec<String>)>) -> (r: Option<&'a Vec<String>>)
        ensures
            match r {
                Some(v) => pip_entry(m@) == Some(v@.map_values(|s: String| s@)),
                None => pip_entry(m@) is None,
            },
    {
        let mut i: usize = 0;
        assert(m@.skip(0) =~= m@);
        while i < m.len()
            invariant
                i <= m@.len(),
                pip_entry(m@) == pip_entry(m@.skip(i as int)),
            decreases m.len() - i,
        {
            assert(m@.skip(i as int).drop_first() =~= m@.skip(i + 1));
            assert(m@.skip(i as int)[0] == m@[i as int]);
            let k = chars_of(m[i].0.as_str());
            if eq_lit(k.as_slice(), "pip") {
                return Some(&m[i].1);
            }
            i = i + 1;
        }
        None
    }

    /// The dependencies that a migration takes from an environment file.
    pub fn extract_dependencies_from_environment(&self, env: &CondaEnvironment) -> (r: Vec<Dependency>)
        ensures
            deps_view(r@) == match env.dependencies {
                Some(d) => environment_dependencies(d@),
                None => seq![],
            },
    {
        let mut r: Vec<Dependency> = Vec::new();
        match &env.dependencies {
            None => {},
            Some(deps) => {
                let mut i: usize = 0;
                while i < deps.len()
                    invariant
                        i <= deps@.len(),
                        deps_view(r@) == environment_dependencies(deps@.take(i as int)),
                    decreases deps.len() - i,
                {
                    proof {
                        assert(deps@.take(i + 1).drop_last() =~= deps@.take(i as int));
                        assert(deps@.take(i + 1).last() == deps@[i as int]);
                    }
                    let ghost before = r@;
                    match &deps[i] {
                        CondaDependency::Simple(s) | CondaDependency::Versioned(s) => {
                            let (name, version) = self.parse_conda_dependency(s.as_str());
                            if !self.should_skip_package(name.as_str()) {
                                let pypi = self.map_conda_to_pypi_name(name.as_str());
                                let updated = self.update_problematic_versions(pypi.as_str(), version);
                                r.push(Dependency {
                                    name: pypi,
                                    version: updated,
                                    dep_type: DependencyType::Main,
                                    environment_markers: None,
                                    extras: None,
                                });
                                assert(deps_view(r@) =~= deps_view(before).push(conda_dependency(s@).unwrap()));
                            }
                        },
                        CondaDependency::Pip(m) => {
                            match self.pip_section(m) {
                                Some(lines) => {
                                    let mut more = self.process_pip_dependencies(lines);
                                    let ghost added = more@;
                                    r.append(&mut more);
                                    assert(r@ =~= before + added);
                                    assert(deps_view(r@) =~= deps_view(before) + pip_dependencies(lines@.map_values(|s: String| s@)));
                                },
                                None => {},
                            }
                        },
                    }
                    i = i + 1;
                }
                assert(deps@.take(deps@.len() as int) =~= deps@);
            },
        }
        r
    }
}


impl CondaMigrationSource {
    /// Whether a project uses Conda: `environment.yml` or `environment.yaml` exists.
    pub fn detect_project_type(has_environment_yml: bool, has_environment_yaml: bool) -> (r: bool)
        ensures
            r == (has_environment_yml || has_environment_yaml),
    {
        has_environment_yml || has_environment_yaml
    }

    /// The Python version of an environment file, `major.minor`.
    pub fn extract_python_version_from_environment(env: &CondaEnvironment) -> (r: Option<String>)
        ensures
            opt_view(r) == match env.dependencies {
                Some(d) => environment_python_version(d@),
                None => None,
            },
    {
        let source = CondaMigrationSource;
        match &env.dependencies {
            Some(d) => source.extract_python_version(d),
            None => None,
        }
    }
}

} // verus!
