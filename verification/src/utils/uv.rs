//! The `uv` command line: its version, and the commands a migration runs.
use vstd::prelude::*;
use crate::text::{chars_of, is_ws, is_ws_char, push_str, string_of, strs_view};

verus! {

/// Minimum required UV version.
pub const MIN_UV_VERSION: &'static str = "0.5.0";

/// Version that supports the --bare flag.
pub const UV_SUPPORT_BARE: &'static str = "0.6.0";

/// What `semver::Version::parse` makes of a text: success, or the text of
/// its error.
pub uninterp spec fn semver_parse(s: Seq<char>) -> Result<(), Seq<char>>;

/// Whether one version precedes another in the order of `semver::Version`
/// (major, minor, patch, pre-release, build metadata).
pub uninterp spec fn semver_lt(a: Seq<char>, b: Seq<char>) -> bool;

/// `semver::Version::parse`; the contract claims only that the outcome is the
/// one named `semver_parse`, the error given by its `Display` text.
#[verifier::external_body]
fn parse_version(s: &str) -> (r: Result<(), String>)
    ensures
        match semver_parse(s@) {
            Ok(()) => r is Ok,
            Err(e) => r matches Err(x) && x@ == e,
        },
{
    match semver::Version::parse(s) {
        Ok(_) => Ok(()),
        Err(e) => Err(e.to_string()),
    }
}

/// `<` on two parsed `semver::Version`s; the contract claims only that the
/// result is the one named `semver_lt`.
#[verifier::external_body]
fn version_precedes(a: &str, b: &str) -> (r: bool)
    requires
        semver_parse(a@) is Ok,
        semver_parse(b@) is Ok,
    ensures
        r == semver_lt(a@, b@),
{
    semver::Version::parse(a).unwrap() < semver::Version::parse(b).unwrap()
}

/// The whitespace-separated words of a text, from the `n`-th on.
pub open spec fn nth_word(s: Seq<char>, n: nat) -> Option<Seq<char>>
    decreases s.len(), n,
{
    if s.len() == 0 {
        None
    } else if is_ws(s[0]) {
        nth_word(s.drop_first(), n)
    } else {
        let end = word_end(s, 0);
        proof { lemma_word_end(s, 0); }
        if n == 0 {
            Some(s.take(end as int))
        } else {
            nth_word(s.skip(end as int), (n - 1) as nat)
        }
    }
}

/// The end of the word that starts at `i`.
pub open spec fn word_end(s: Seq<char>, i: nat) -> nat
    decreases s.len() - i,
{
    if i >= s.len() || (i > 0 && is_ws(s[i as int])) {
        if i > s.len() { s.len() } else { i }
    } else {
        word_end(s, i + 1)
    }
}

/// The UV version in the output of `uv --version`: its second word, which
/// must be a SemVer version.
pub open spec fn uv_version_of(output: Seq<char>) -> Result<Seq<char>, Seq<char>> {
    match nth_word(output, 1) {
        None => Err("Unexpected uv version format: '"@ + output + "'"@),
        Some(v) => match semver_parse(v) {
            Ok(()) => Ok(v),
            Err(e) => Err("Failed to parse uv version '"@ + v + "': "@ + e),
        },
    }
}

pub proof fn lemma_word_end(s: Seq<char>, i: nat)
    requires
        i <= s.len(),
        s.len() > 0,
        !is_ws(s[0]),
    ensures
        1 <= word_end(s, i) <= s.len(),
        i <= word_end(s, i) || i == 0,
    decreases s.len() - i,
{
    if !(i >= s.len() || (i > 0 && is_ws(s[i as int]))) {
        lemma_word_end(s, i + 1);
    }
}

fn nth_word_chars(s: &[char], n: usize) -> (r: Option<Vec<char>>)
    ensures
        match nth_word(s@, n as nat) {
            Some(w) => r matches Some(x) && x@ == w,
            None => r is None,
        },
{
    let mut pos: usize = 0;
    let mut k: usize = n;
    assert(s@.skip(0) =~= s@);
    while pos < s.len()
        invariant
            pos <= s@.len(),
            nth_word(s@, n as nat) == nth_word(s@.skip(pos as int), k as nat),
        decreases s@.len() - pos, k,
    {
        let ghost rest = s@.skip(pos as int);
        if is_ws_char(s[pos]) {
            assert(rest.drop_first() =~= s@.skip(pos + 1));
            pos = pos + 1;
        } else {
            let mut end: usize = pos + 1;
            proof { lemma_word_end(rest, 1); }
            while end < s.len() && !is_ws_char(s[end])
                invariant
                    pos < end <= s@.len(),
                    rest == s@.skip(pos as int),
                    word_end(rest, 1) == word_end(rest, (end - pos) as nat),
                decreases s@.len() - end,
            {
                end = end + 1;
            }
            assert(word_end(rest, (end - pos) as nat) == end - pos);
            if k == 0 {
                let w = &s[pos..end];
                assert(w@ =~= rest.take(end - pos));
                return Some(crate::text::copy_chars(w));
            }
            assert(rest.skip(end - pos) =~= s@.skip(end as int));
            pos = end;
            k = k - 1;
        }
    }
    assert(s@.skip(pos as int).len() == 0);
    None
}

/// Reads the UV version out of the output of `uv --version`.
pub fn get_uv_version(output: &str) -> (r: Result<String, String>)
    ensures
        match uv_version_of(output@) {
            Ok(v) => r matches Ok(x) && x@ == v,
            Err(e) => r matches Err(x) && x@ == e,
        },
{
    let c = chars_of(output);
    match nth_word_chars(c.as_slice(), 1) {
        None => {
            let mut m = String::new();
            push_str(&mut m, "Unexpected uv version format: '");
            push_str(&mut m, output);
            push_str(&mut m, "'");
            Err(m)
        },
        Some(w) => {
            let v = string_of(w.as_slice());
            match parse_version(v.as_str()) {
                Ok(()) => Ok(v),
                Err(e) => {
                    let mut m = String::new();
                    push_str(&mut m, "Failed to parse uv version '");
                    push_str(&mut m, v.as_str());
                    push_str(&mut m, "': ");
                    push_str(&mut m, e.as_str());
                    Err(m)
                },
            }
        },
    }
}

/// The verdict on a UV version, given whether it precedes the minimum one.
pub open spec fn requirement_verdict(version: Seq<char>, too_old: bool) -> Result<(), Seq<char>> {
    if too_old {
        Err("uv version "@ + MIN_UV_VERSION@ + " or higher is required. Found version "@ + version)
    } else {
        Ok(())
    }
}

/// The verdict on a UV version, given whether it precedes `MIN_UV_VERSION`.
pub fn uv_requirement_verdict(version: &str, too_old: bool) -> (r: Result<(), String>)
    ensures
        match requirement_verdict(version@, too_old) {
            Ok(()) => r is Ok,
            Err(e) => r matches Err(x) && x@ == e,
        },
{
    if too_old {
        let mut m = String::new();
        push_str(&mut m, "uv version ");
        push_str(&mut m, MIN_UV_VERSION);
        push_str(&mut m, " or higher is required. Found version ");
        push_str(&mut m, version);
        Err(m)
    } else {
        Ok(())
    }
}

/// The check of a UV version against `MIN_UV_VERSION`.
pub open spec fn minimum_check(version: Seq<char>) -> Result<(), Seq<char>> {
    match semver_parse(MIN_UV_VERSION@) {
        Err(e) => Err("Failed to parse minimum version: "@ + e),
        Ok(()) => requirement_verdict(version, semver_lt(version, MIN_UV_VERSION@)),
    }
}

/// Checks that the UV version in the output of `uv --version` is at least
/// `MIN_UV_VERSION`.
pub fn check_uv_requirements(version_output: &str) -> (r: Result<(), String>)
    ensures
        match uv_version_of(version_output@) {
            Err(e) => r matches Err(x) && x@ == e,
            Ok(v) => match minimum_check(v) {
                Ok(()) => r is Ok,
                Err(e) => r matches Err(x) && x@ == e,
            },
        },
{
    match get_uv_version(version_output) {
        Err(e) => Err(e),
        Ok(v) => meets_minimum(v.as_str()),
    }
}

fn meets_minimum(version: &str) -> (r: Result<(), String>)
    requires
        semver_parse(version@) is Ok,
    ensures
        match semver_parse(MIN_UV_VERSION@) {
            Err(e) => r matches Err(x) && x@ == "Failed to parse minimum version: "@ + e,
            Ok(()) => match requirement_verdict(version@, semver_lt(version@, MIN_UV_VERSION@)) {
                Ok(()) => r is Ok,
                Err(e) => r matches Err(x) && x@ == e,
            },
        },
{
    match parse_version(MIN_UV_VERSION) {
        Err(e) => {
            let mut m = String::new();
            push_str(&mut m, "Failed to parse minimum version: ");
            push_str(&mut m, e.as_str());
            Err(m)
        },
        Ok(()) => {
            let too_old = version_precedes(version, MIN_UV_VERSION);
            uv_requirement_verdict(version, too_old)
        },
    }
}

/// The version from which `--bare` is used: a test override that parses,
/// else `UV_SUPPORT_BARE` (none where that does not parse).
pub open spec fn bare_version(test_version: Option<Seq<char>>) -> Option<Seq<char>> {
    match test_version {
        Some(t) if semver_parse(t) is Ok => Some(t),
        _ => if semver_parse(UV_SUPPORT_BARE@) is Ok {
            Some(UV_SUPPORT_BARE@)
        } else {
            None
        },
    }
}

pub open spec fn opt_str_view(o: Option<&str>) -> Option<Seq<char>> {
    match o {
        Some(s) => Some(s@),
        None => None,
    }
}

/// Whether the UV version in the output of `uv --version` supports `--bare`:
/// it does not precede the version of `bare_version` (the value of
/// `UV_TEST_SUPPORT_BARE` as `test_version`); none where neither version to
/// compare with can be read.
pub fn supports_bare(version_output: &str, test_version: Option<&str>) -> (r: Result<Option<bool>, String>)
    ensures
        match uv_version_of(version_output@) {
            Err(e) => r matches Err(x) && x@ == e,
            Ok(v) => match bare_version(opt_str_view(test_version)) {
                Some(b) => r == Ok::<Option<bool>, String>(Some(!semver_lt(v, b))),
                None => r == Ok::<Option<bool>, String>(None),
            },
        },
{
    match get_uv_version(version_output) {
        Err(e) => Err(e),
        Ok(v) => Ok(bare_supported(v.as_str(), test_version)),
    }
}

fn bare_supported(uv_version: &str, test_version: Option<&str>) -> (r: Option<bool>)
    requires
        semver_parse(uv_version@) is Ok,
    ensures
        match bare_version(opt_str_view(test_version)) {
            Some(b) => r == Some(!semver_lt(uv_version@, b)),
            None => r is None,
        },
{
    let bare: Option<&str> = match test_version {
        Some(t) => match parse_version(t) {
            Ok(()) => Some(t),
            Err(_) => match parse_version(UV_SUPPORT_BARE) {
                Ok(()) => Some(UV_SUPPORT_BARE),
                Err(_) => None,
            },
        },
        None => match parse_version(UV_SUPPORT_BARE) {
            Ok(()) => Some(UV_SUPPORT_BARE),
            Err(_) => None,
        },
    };
    match bare {
        Some(b) => Some(!version_precedes(uv_version, b)),
        None => None,
    }
}

// ----------------------------------------------------------------------
// Commands
// ----------------------------------------------------------------------

/// Command builder for UV operations.
pub struct UvCommandBuilder {
    uv_path: String,
    args: Vec<String>,
    working_dir: Option<String>,
}

pub struct UvCommandView {
    pub uv_path: Seq<char>,
    pub args: Seq<Seq<char>>,
    pub working_dir: Option<Seq<char>>,
}

impl View for UvCommandBuilder {
    type V = UvCommandView;

    closed spec fn view(&self) -> UvCommandView {
        UvCommandView {
            uv_path: self.uv_path@,
            args: strs_view(self.args@),
            working_dir: crate::text::opt_view(self.working_dir),
        }
    }
}

impl UvCommandBuilder {
    /// Creates a new command builder for the UV executable at `uv_path`.
    pub fn new(uv_path: String) -> (r: Self)
        ensures
            r@ == (UvCommandView { uv_path: uv_path@, args: seq![], working_dir: None }),
    {
        let r = UvCommandBuilder { uv_path, args: Vec::new(), working_dir: None };
        assert(strs_view(r.args@) =~= seq![]);
        r
    }

    /// Adds an argument to the command.
    pub fn arg(self, arg: String) -> (r: Self)
        ensures
            r@ == (UvCommandView { args: self@.args.push(arg@), ..self@ }),
    {
        let mut s = self;
        let ghost before = s.args@;
        s.args.push(arg);
        assert(strs_view(s.args@) =~= strs_view(before).push(s.args@.last()@));
        s
    }

    /// Adds arguments to the command.
    pub fn args(self, args: Vec<String>) -> (r: Self)
        ensures
            r@ == (UvCommandView { args: self@.args + strs_view(args@), ..self@ }),
    {
        let mut s = self;
        let ghost before = strs_view(s.args@);
        let mut i: usize = 0;
        while i < args.len()
            invariant
                i <= args@.len(),
                s.uv_path == self.uv_path,
                s.working_dir == self.working_dir,
                strs_view(s.args@) == before + strs_view(args@.take(i as int)),
                before == self@.args,
            decreases args.len() - i,
        {
            let ghost b = s.args@;
            s.args.push(args[i].clone());
            proof {
                assert(strs_view(s.args@) =~= strs_view(b).push(args@[i as int]@));
                assert(strs_view(args@.take(i + 1)) =~= strs_view(args@.take(i as int)).push(args@[i as int]@));
            }
            i = i + 1;
        }
        assert(args@.take(args@.len() as int) =~= args@);
        s
    }

    /// Sets the working directory of the command.
    pub fn working_dir(self, dir: String) -> (r: Self)
        ensures
            r@ == (UvCommandView { working_dir: Some(dir@), ..self@ }),
    {
        let mut s = self;
        s.working_dir = Some(dir);
        s
    }

    /// The executable.
    pub fn program(&self) -> (r: &String)
        ensures
            r@ == self@.uv_path,
    {
        &self.uv_path
    }

    /// The arguments.
    pub fn arguments(&self) -> (r: &Vec<String>)
        ensures
            strs_view(r@) == self@.args,
    {
        &self.args
    }

    /// The working directory, if one was set.
    pub fn directory(&self) -> (r: &Option<String>)
        ensures
            crate::text::opt_view(*r) == self@.working_dir,
    {
        &self.working_dir
    }

    /// The outcome of running the command, given whether it exited with
    /// success and what it wrote to standard error.
    pub fn execute_success(self, success: bool, stderr: &str) -> (r: Result<(), String>)
        ensures
            success ==> r is Ok,
            !success ==> (r matches Err(x) && x@ == "UV command failed: "@ + stderr@),
    {
        if success {
            Ok(())
        } else {
            let mut m = String::new();
            push_str(&mut m, "UV command failed: ");
            push_str(&mut m, stderr);
            Err(m)
        }
    }
}

} // verus!
