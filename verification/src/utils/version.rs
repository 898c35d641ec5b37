//! The version of a project, read from `setup.py`, `__init__.py` or a version file.
use vstd::prelude::*;
use crate::migrators::setup_py::{setup_keyword, SetupPyMigrationSource};
use crate::text::{
    before_first, before_first_chars, chars_of, is_ascii_digit, lines, lines_chars, opt_view,
    split_once, starts_with, starts_with_lit, string_of, trim, trim_chars, trim_set,
    trim_set_chars, vecs_view, find_char_chars, lemma_find_char, strip_front, strip_back,
    lemma_strip_front_suffix, lemma_strip_back_prefix, set_pred, ws_pred,
};

verus! {

/// One round of cleaning: surrounding whitespace, then double quotes, single
/// quotes and commas, then whitespace again.
pub open spec fn clean_step(s: Seq<char>) -> Seq<char> {
    trim(trim_set(trim_set(trim_set(trim(s), seq!['"']), seq!['\'']), seq![',']))
}

/// Rounds of cleaning until one removes nothing.
pub open spec fn cleaned(s: Seq<char>) -> Seq<char>
    decreases s.len(),
{
    let t = clean_step(s);
    if t.len() >= s.len() {
        t
    } else {
        cleaned(t)
    }
}

pub open spec fn has_digit(s: Seq<char>) -> bool {
    exists|i: int| 0 <= i < s.len() && is_ascii_digit(#[trigger] s[i])
}

/// A version string without the quotes, commas and spaces around it, if it
/// holds a digit at all.
pub open spec fn clean_version_spec(v: Seq<char>) -> Option<Seq<char>> {
    let c = cleaned(trim(v));
    if has_digit(c) {
        Some(c)
    } else {
        None
    }
}

/// The version that a `__version__ = ...` line assigns, if it is one.
pub open spec fn init_line_version(t: Seq<char>) -> Option<Seq<char>> {
    if starts_with(t, "__version__"@) {
        match split_once(before_first(t, '#'), '=') {
            Some((_, value)) => clean_version_spec(value),
            None => None,
        }
    } else {
        None
    }
}

/// The first version assigned in an `__init__.py` text.
pub open spec fn init_version_from(ls: Seq<Seq<char>>, i: int) -> Option<Seq<char>>
    decreases ls.len() - i,
{
    if i < 0 || i >= ls.len() {
        None
    } else {
        match init_line_version(trim(ls[i])) {
            Some(v) => Some(v),
            None => init_version_from(ls, i + 1),
        }
    }
}

pub open spec fn init_version(content: Seq<char>) -> Option<Seq<char>> {
    init_version_from(lines(content), 0)
}

/// The version of a `setup.py` text.
pub open spec fn setup_py_version(content: Seq<char>) -> Result<Option<Seq<char>>, Seq<char>> {
    match setup_keyword(content, "version"@) {
        Err(e) => Err(e),
        Ok(Some(v)) => Ok(clean_version_spec(v)),
        Ok(None) => Ok(None),
    }
}

fn clean_step_chars(s: &[char]) -> (r: Vec<char>)
    ensures
        r@ == clean_step(s@),
{
    let dq = vec!['"'];
    let sq = vec!['\''];
    let cm = vec![','];
    assert(dq@ =~= seq!['"']);
    assert(sq@ =~= seq!['\'']);
    assert(cm@ =~= seq![',']);
    let a = trim_chars(s);
    let b = trim_set_chars(a, dq.as_slice());
    let c = trim_set_chars(b, sq.as_slice());
    let d = trim_set_chars(c, cm.as_slice());
    crate::text::copy_chars(trim_chars(d))
}

/// Clean and validate a version string
pub fn clean_version(version: &str) -> (r: Option<String>)
    ensures
        opt_view(r) == clean_version_spec(version@),
{
    let v = chars_of(version);
    let mut cur = crate::text::copy_chars(trim_chars(v.as_slice()));
    let ghost start = cur@;
    loop
        invariant_except_break
            cleaned(start) == cleaned(cur@),
        invariant
            start == trim(version@),
        ensures
            cur@ == cleaned(start),
        decreases cur@.len(),
    {
        let next = clean_step_chars(cur.as_slice());
        if next.len() >= cur.len() {
            cur = next;
            break;
        }
        cur = next;
    }
    let mut i: usize = 0;
    while i < cur.len()
        invariant
            i <= cur@.len(),
            cur@ == cleaned(trim(version@)),
            forall|j: int| 0 <= j < i ==> !is_ascii_digit(#[trigger] cur@[j]),
        decreases cur.len() - i,
    {
        if '0' <= cur[i] && cur[i] <= '9' {
            assert(is_ascii_digit(cur@[i as int]));
            return Some(string_of(cur.as_slice()));
        }
        i = i + 1;
    }
    None
}

/// The version that a (trimmed) `__version__ = ...` line assigns
pub fn version_from_init_line(t: &[char]) -> (r: Option<String>)
    ensures
        opt_view(r) == init_line_version(t@),
{
    if !starts_with_lit(t, "__version__") {
        return None;
    }
    let code = before_first_chars(t, '#');
    match find_char_chars(code, '=') {
        Some(i) => {
            proof { lemma_find_char(code@, '='); }
            let n = code.len();
            let value = &code[i + 1..n];
            assert(value@ =~= code@.skip(i + 1));
            let vs = string_of(value);
            clean_version(vs.as_str())
        },
        None => None,
    }
}

/// The first version assigned in the text of an `__init__.py` file
pub fn version_from_init_content(content: &str) -> (r: Option<String>)
    ensures
        opt_view(r) == init_version(content@),
{
    let c = chars_of(content);
    let ls = lines_chars(c.as_slice());
    let ghost lv = vecs_view(ls@);
    let mut i: usize = 0;
    while i < ls.len()
        invariant
            i <= ls@.len(),
            lv == vecs_view(ls@),
            lv == lines(content@),
            init_version(content@) == init_version_from(lv, i as int),
        decreases ls.len() - i,
    {
        assert(lv[i as int] == ls@[i as int]@);
        let t = trim_chars(ls[i].as_slice());
        match version_from_init_line(t) {
            Some(v) => { return Some(v); },
            None => {},
        }
        i = i + 1;
    }
    None
}

/// The version in the text of a `setup.py` file
pub fn version_from_setup_py_content(content: &str) -> (r: Result<Option<String>, String>)
    ensures
        match setup_py_version(content@) {
            Ok(v) => r matches Ok(x) && opt_view(x) == v,
            Err(e) => r matches Err(x) && x@ == e,
        },
{
    match SetupPyMigrationSource::keyword_from_content(content, "version") {
        Err(e) => Err(e),
        Ok(Some(v)) => Ok(clean_version(v.as_str())),
        Ok(None) => Ok(None),
    }
}

/// The version in the text of a version file
pub fn version_from_version_file_content(content: &str) -> (r: Option<String>)
    ensures
        opt_view(r) == clean_version_spec(content@),
{
    clean_version(content)
}


/// The first version among the texts of `__init__.py` files.
pub open spec fn first_init_version(inits: Seq<Seq<char>>) -> Option<Seq<char>>
    decreases inits.len(),
{
    if inits.len() == 0 {
        None
    } else {
        match init_version(inits[0]) {
            Some(v) => Some(v),
            None => first_init_version(inits.drop_first()),
        }
    }
}

/// The version of a project: from `setup.py`, else from the first
/// `__init__.py` that assigns one, else from the `**version**` file.
pub open spec fn project_version(setup_py: Option<Seq<char>>, inits: Seq<Seq<char>>, version_file: Option<Seq<char>>) -> Result<Option<Seq<char>>, Seq<char>> {
    let rest = match first_init_version(inits) {
        Some(v) => Some(v),
        None => match version_file {
            Some(c) => clean_version_spec(c),
            None => None,
        },
    };
    match setup_py {
        Some(c) => match setup_py_version(c) {
            Err(e) => Err(e),
            Ok(Some(v)) => Ok(Some(v)),
            Ok(None) => Ok(rest),
        },
        None => Ok(rest),
    }
}

pub open spec fn opt_str_view(o: Option<&str>) -> Option<Seq<char>> {
    match o {
        Some(s) => Some(s@),
        None => None,
    }
}

/// Extracts the version of a project from the texts of its `setup.py`, of its
/// `__init__.py` files (the top one first, then those of its package
/// directories) and of its `**version**` file, each where it exists.
pub fn extract_version(setup_py: Option<&str>, init_files: &Vec<String>, version_file: Option<&str>) -> (r: Result<Option<String>, String>)
    ensures
        match project_version(opt_str_view(setup_py), crate::text::strs_view(init_files@), opt_str_view(version_file)) {
            Ok(v) => r matches Ok(x) && opt_view(x) == v,
            Err(e) => r matches Err(x) && x@ == e,
        },
{
    match setup_py {
        Some(c) => match version_from_setup_py_content(c) {
            Err(e) => {
                return Err(e);
            },
            Ok(Some(v)) => {
                return Ok(Some(v));
            },
            Ok(None) => {},
        },
        None => {},
    }
    let ghost iv = crate::text::strs_view(init_files@);
    let mut i: usize = 0;
    assert(iv.skip(0) =~= iv);
    while i < init_files.len()
        invariant
            i <= init_files@.len(),
            iv == crate::text::strs_view(init_files@),
            iv.len() == init_files@.len(),
            first_init_version(iv) == first_init_version(iv.skip(i as int)),
            match opt_str_view(setup_py) {
                Some(c) => setup_py_version(c) == Ok::<Option<Seq<char>>, Seq<char>>(None),
                None => true,
            },
        decreases init_files.len() - i,
    {
        assert(iv.skip(i as int)[0] == init_files@[i as int]@);
        assert(iv.skip(i as int).drop_first() =~= iv.skip(i + 1));
        match version_from_init_content(init_files[i].as_str()) {
            Some(v) => {
                return Ok(Some(v));
            },
            None => {},
        }
        i = i + 1;
    }
    assert(iv.skip(i as int).len() == 0);
    match version_file {
        Some(c) => Ok(version_from_version_file_content(c)),
        None => Ok(None),
    }
}

proof fn lemma_strip_front_same(s: Seq<char>, p: spec_fn(char) -> bool)
    ensures
        strip_front(s, p).len() <= s.len(),
        strip_front(s, p).len() == s.len() ==> strip_front(s, p) == s,
{
    lemma_strip_front_suffix(s, p);
    assert(s.skip(0) =~= s);
}

proof fn lemma_strip_back_same(s: Seq<char>, p: spec_fn(char) -> bool)
    ensures
        strip_back(s, p).len() <= s.len(),
        strip_back(s, p).len() == s.len() ==> strip_back(s, p) == s,
{
    lemma_strip_back_prefix(s, p);
    assert(s.take(s.len() as int) =~= s);
}

proof fn lemma_trim_same(s: Seq<char>, set: Option<Seq<char>>)
    ensures
        (match set { Some(t) => trim_set(s, t), None => trim(s) }).len() <= s.len(),
        (match set { Some(t) => trim_set(s, t), None => trim(s) }).len() == s.len()
            ==> (match set { Some(t) => trim_set(s, t), None => trim(s) }) == s,
{
    let p = match set { Some(t) => set_pred(t), None => ws_pred() };
    lemma_strip_front_same(s, p);
    lemma_strip_back_same(strip_front(s, p), p);
}

/// One round of cleaning removes characters only, and where it removes none
/// it changes nothing.
proof fn lemma_clean_step_same(s: Seq<char>)
    ensures
        clean_step(s).len() <= s.len(),
        clean_step(s).len() == s.len() ==> clean_step(s) == s,
{
    let a = trim(s);
    let b = trim_set(a, seq!['"']);
    let c = trim_set(b, seq!['\'']);
    let d = trim_set(c, seq![',']);
    lemma_trim_same(s, None);
    lemma_trim_same(a, Some(seq!['"']));
    lemma_trim_same(b, Some(seq!['\'']));
    lemma_trim_same(c, Some(seq![',']));
    lemma_trim_same(d, None);
}

proof fn lemma_cleaned_fixed(s: Seq<char>)
    ensures
        clean_step(cleaned(s)) == cleaned(s),
    decreases s.len(),
{
    lemma_clean_step_same(s);
    let t = clean_step(s);
    if t.len() < s.len() {
        lemma_cleaned_fixed(t);
    }
}

/// `trim` of a trimmed text changes nothing.
proof fn lemma_trim_trimmed(x: Seq<char>)
    ensures
        trim(trim(x)) == trim(x),
{
    let f = strip_front(x, ws_pred());
    let y = trim(x);
    lemma_strip_front_suffix(x, ws_pred());
    lemma_strip_back_prefix(f, ws_pred());
    if y.len() > 0 {
        assert(y[0] == f[0]);
        assert(strip_front(y, ws_pred()) == y);
        assert(strip_back(y, ws_pred()) == y);
    } else {
        assert(strip_front(y, ws_pred()) == y);
        assert(strip_back(y, ws_pred()) == y);
    }
}

/// Cleaning a cleaned version gives it back: it has no whitespace, quotes or
/// commas around it any more.
pub proof fn lemma_clean_version_idempotent(v: Seq<char>)
    ensures
        clean_version_spec(v) matches Some(c) ==> {
            &&& clean_version_spec(c) == Some(c)
            &&& trim(c) == c
            &&& clean_step(c) == c
        },
{
    let c = cleaned(trim(v));
    lemma_cleaned_fixed(trim(v));
    let x = trim_set(trim_set(trim_set(trim(c), seq!['"']), seq!['\'']), seq![',']);
    lemma_trim_trimmed(x);
    assert(trim(c) == c);
    assert(cleaned(c) == c);
}

/// There is no `setup.py`, or one that names no version.
pub open spec fn no_setup_version(setup_py: Option<Seq<char>>) -> bool {
    match setup_py {
        Some(c) => setup_py_version(c) == Ok::<Option<Seq<char>>, Seq<char>>(None),
        None => true,
    }
}

/// The sources of a project's version are tried in order: a version in
/// `setup.py` wins over any `__init__.py` or version file; with no version
/// in `setup.py` (or no `setup.py`), a version in an `__init__.py` wins over
/// the version file; where neither has one, the version file decides.
pub proof fn lemma_version_source_order(
    setup_py: Option<Seq<char>>,
    inits: Seq<Seq<char>>,
    version_file: Option<Seq<char>>,
)
    ensures
        match setup_py {
            Some(c) => (setup_py_version(c) matches Ok(Some(v)) ==> project_version(
                setup_py, inits, version_file,
            ) == Ok::<Option<Seq<char>>, Seq<char>>(Some(v))),
            None => true,
        },
        no_setup_version(setup_py) ==> (first_init_version(inits) matches Some(v) ==> project_version(
            setup_py, inits, version_file,
        ) == Ok::<Option<Seq<char>>, Seq<char>>(Some(v))),
        no_setup_version(setup_py)
            && first_init_version(inits) is None ==> project_version(setup_py, inits, version_file) == Ok::<
            Option<Seq<char>>,
            Seq<char>,
        >(
            match version_file {
                Some(c) => clean_version_spec(c),
                None => None,
            },
        ),
{
}

} // verus!
