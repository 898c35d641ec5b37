//! `setup.py` projects: the arguments of the `setup(...)` call, read as text.
use vstd::prelude::*;
use crate::models::{Dependency, DependencyType, DependencyView, DepTypeView};
use crate::models::dependency::deps_view;
use crate::error::Error;
use crate::text::{
    strip_cr,
    after_last, chars_of, contains, contains_char, contains_chars, eq_lit, find, find_chars,
    find_char, find_char_chars, lemma_find_char, lemma_find_from, lines, lines_chars, opt_view, matches_at,
    push_char, push_chars, split_char, split_char_chars, starts_with, starts_with_chars,
    starts_with_lit, string_of, trim, trim_chars, trim_set, trim_set_chars, vecs_view,
};

verus! {

pub struct SetupPyMigrationSource;

/// The text before the first occurrence of `p` (all of it when there is none).
pub open spec fn before_first_str(s: Seq<char>, p: Seq<char>) -> Seq<char> {
    match find(s, p) {
        Some(j) => s.take(j),
        None => s,
    }
}

/// `s.split(p).nth(1)`: the text between the first and the second `p`.
pub open spec fn second_piece(s: Seq<char>, p: Seq<char>) -> Option<Seq<char>> {
    match find(s, p) {
        Some(i) => Some(before_first_str(s.skip(i + p.len()), p)),
        None => None,
    }
}

/// `s.split(c).nth(1)` for a single character.
pub open spec fn second_piece_char(s: Seq<char>, c: char) -> Option<Seq<char>> {
    second_piece(s, seq![c])
}

/// How a bracket changes the nesting depth.
pub open spec fn bracket_delta(c: char) -> int {
    if c == '[' { 1 } else if c == ']' { -1 } else { 0 }
}

/// The position just after the bracket that closes the nesting at `depth`,
/// scanning from `pos`.
pub open spec fn bracket_end(c: Seq<char>, pos: int, depth: int) -> Option<int>
    decreases c.len() - pos,
{
    if depth <= 0 {
        Some(pos)
    } else if pos < 0 || pos >= c.len() {
        None
    } else {
        bracket_end(c, pos + 1, depth + bracket_delta(c[pos]))
    }
}

/// The text between the first `[` at or after `start` and the bracket that
/// closes it.
pub open spec fn bracket_content(content: Seq<char>, start: int) -> Option<Seq<char>> {
    let c = content.skip(start);
    match find_char(c, '[') {
        None => None,
        Some(b) => match bracket_end(c, b + 1, 1) {
            Some(p) => Some(c.subrange(b + 1, p - 1)),
            None => None,
        },
    }
}

/// A requirement of a `setup()` list as name and version.
pub open spec fn dependency_spec(d: Seq<char>) -> Option<(Seq<char>, Option<Seq<char>>)> {
    if d.len() == 0 || d == "setuptools"@ {
        None
    } else if contains(d, ">="@) {
        let i = find(d, ">="@).unwrap();
        Some((trim(d.take(i)), Some(">="@ + trim(before_first_str(d.skip(i + ">="@.len()), ">="@)))))
    } else if contains(d, "=="@) {
        let i = find(d, "=="@).unwrap();
        Some((trim(d.take(i)), Some(trim(before_first_str(d.skip(i + "=="@.len()), "=="@)))))
    } else if d.contains('>') {
        let i = find_char(d, '>').unwrap();
        Some((trim(d.take(i)), Some(">"@ + trim(before_first_str(d.skip(i + 1), seq!['>'])))))
    } else {
        Some((trim(d), None))
    }
}

pub open spec fn quote_chars() -> Seq<char> {
    seq!['\'', '"']
}

/// The dependencies of the items of a `setup()` list, in the given group.
pub open spec fn list_dependencies(items: Seq<Seq<char>>, t: DepTypeView) -> Seq<DependencyView>
    decreases items.len(),
{
    if items.len() == 0 {
        seq![]
    } else {
        let rest = list_dependencies(items.drop_last(), t);
        let line = trim(items.last());
        if line.len() == 0 {
            rest
        } else {
            match dependency_spec(trim_set(line, quote_chars())) {
                Some((name, version)) => rest.push(DependencyView {
                    name,
                    version,
                    dep_type: t,
                    environment_markers: None,
                    extras: None,
                }),
                None => rest,
            }
        }
    }
}

/// The dependencies listed after `<key>=[` in a `setup.py` text.
pub open spec fn keyword_dependencies(content: Seq<char>, key: Seq<char>, t: DepTypeView) -> Option<Seq<DependencyView>> {
    match find(content, key + seq!['=', '[']) {
        None => None,
        Some(i) => match bracket_content(content, i + key.len() + 1) {
            None => None,
            Some(b) => Some(list_dependencies(split_char(b, ','), t)),
        },
    }
}

/// How a parenthesis changes the nesting depth.
pub open spec fn paren_delta(c: char) -> int {
    if c == '(' { 1 } else if c == ')' { -1 } else { 0 }
}

pub open spec fn paren_sum(l: Seq<char>) -> int
    decreases l.len(),
{
    if l.len() == 0 { 0 } else { paren_sum(l.drop_last()) + paren_delta(l.last()) }
}

/// The scan of `setup.py` lines for the body of the `setup(` call, from line
/// `i` on: whether the call was found, the parenthesis depth, and the text
/// collected.
pub open spec fn setup_scan(ls: Seq<Seq<char>>, i: int, in_setup: bool, depth: int, acc: Seq<char>) -> (bool, int, Seq<char>)
    decreases ls.len() - i,
{
    if i < 0 || i >= ls.len() {
        (in_setup, depth, acc)
    } else {
        let line = ls[i];
        let t = trim(line);
        if t.len() == 0 || starts_with(t, "#"@) {
            setup_scan(ls, i + 1, in_setup, depth, acc)
        } else if !in_setup {
            if starts_with(t, "setup("@) {
                let acc2 = match second_piece(line, "setup("@) {
                    Some(rest) => acc + rest + seq!['\n'],
                    None => acc,
                };
                setup_scan(ls, i + 1, true, 1, acc2)
            } else {
                setup_scan(ls, i + 1, in_setup, depth, acc)
            }
        } else {
            let d = depth + paren_sum(line);
            let acc2 = acc + line + seq!['\n'];
            if d == 0 {
                (true, d, acc2)
            } else {
                setup_scan(ls, i + 1, true, d, acc2)
            }
        }
    }
}

/// The body of the `setup(` call in a text that starts with it, or why there is none.
pub open spec fn setup_content(content: Seq<char>) -> Result<Seq<char>, Seq<char>> {
    let (found, depth, acc) = setup_scan(lines(content), 0, false, 0, seq![]);
    if !found {
        Err("Could not find setup() call"@)
    } else if depth > 0 {
        Err("Could not find matching closing parenthesis for setup()"@)
    } else {
        Ok(acc)
    }
}

/// The value of the first string assignment on a line: the quoted text after
/// the first `=`.
pub open spec fn string_value(line: Seq<char>) -> Option<Seq<char>> {
    match second_piece_char(line, '=') {
        None => None,
        Some(piece) => {
            let a = trim(piece);
            if a.len() == 0 || (a[0] != '\'' && a[0] != '"') {
                None
            } else {
                let body = a.skip(1);
                match find_char(body, a[0]) {
                    Some(e) => Some(body.take(e)),
                    None => None,
                }
            }
        },
    }
}

/// The value given to a keyword on one (trimmed) line, if the line assigns it.
pub open spec fn parameter_on_line(t: Seq<char>, name: Seq<char>) -> Option<Seq<char>> {
    if starts_with(t, name + " = "@) || starts_with(t, name + "="@) {
        if t.contains('"') || t.contains('\'') {
            string_value(t)
        } else if name == "description"@ {
            match second_piece_char(t, '=') {
                Some(v) => Some(trim(v)),
                None => None,
            }
        } else {
            None
        }
    } else {
        None
    }
}

/// The value of the first line that gives the keyword a value.
pub open spec fn parameter_from(ls: Seq<Seq<char>>, i: int, name: Seq<char>) -> Option<Seq<char>>
    decreases ls.len() - i,
{
    if i < 0 || i >= ls.len() {
        None
    } else {
        let t = trim(ls[i]);
        if t.len() == 0 || starts_with(t, "#"@) {
            parameter_from(ls, i + 1, name)
        } else {
            match parameter_on_line(t, name) {
                Some(v) => Some(v),
                None => parameter_from(ls, i + 1, name),
            }
        }
    }
}

pub open spec fn parameter(content: Seq<char>, name: Seq<char>) -> Option<Seq<char>> {
    parameter_from(lines(content), 0, name)
}

/// A keyword argument of the `setup(` call of a `setup.py` text.
pub open spec fn setup_keyword(content: Seq<char>, name: Seq<char>) -> Result<Option<Seq<char>>, Seq<char>> {
    match find(content, "setup("@) {
        None => Ok(None),
        Some(i) => match setup_content(content.skip(i)) {
            Err(e) => Err(e),
            Ok(body) => Ok(parameter(body, name)),
        },
    }
}

/// The description of a `setup.py` text: `long_description`, else `description`.
pub open spec fn setup_description(content: Seq<char>) -> Result<Option<Seq<char>>, Seq<char>> {
    match find(content, "setup("@) {
        None => Ok(None),
        Some(i) => match setup_content(content.skip(i)) {
            Err(e) => Err(e),
            Ok(body) => match parameter(body, "long_description"@) {
                Some(d) => Ok(Some(d)),
                None => Ok(parameter(body, "description"@)),
            },
        },
    }
}

/// The number of characters of a list of lines.
pub open spec fn total_len(ls: Seq<Seq<char>>) -> int
    decreases ls.len(),
{
    if ls.len() == 0 { 0 } else { ls[0].len() + total_len(ls.drop_first()) }
}

proof fn lemma_total_len_concat(a: Seq<Seq<char>>, b: Seq<Seq<char>>)
    ensures
        total_len(a + b) == total_len(a) + total_len(b),
        total_len(a) >= 0,
    decreases a.len(),
{
    if a.len() == 0 {
        assert(a + b =~= b);
    } else {
        lemma_total_len_concat(a.drop_first(), b);
        assert((a + b).drop_first() =~= a.drop_first() + b);
    }
}

/// The lines of a text hold no more characters than the text.
proof fn lemma_lines_total(s: Seq<char>)
    ensures
        total_len(lines(s)) <= s.len(),
    decreases s.len(),
{
    if s.len() > 0 {
        lemma_find_char(s, '\n');
        match find_char(s, '\n') {
            None => {
                let l = lines(s);
                assert(l =~= seq![s]);
                assert(l.drop_first() =~= Seq::<Seq<char>>::empty());
                assert(total_len(l.drop_first()) == 0);
            },
            Some(i) => {
                lemma_lines_total(s.skip(i + 1));
                let l = lines(s);
                assert(l =~= seq![strip_cr(s.take(i))] + lines(s.skip(i + 1)));
                assert(l.drop_first() =~= lines(s.skip(i + 1)));
                assert(l[0] == strip_cr(s.take(i)));
            },
        }
    }
}

fn before_first_str_chars<'a>(s: &'a [char], p: &[char]) -> (r: &'a [char])
    ensures
        r@ == before_first_str(s@, p@),
{
    match find_chars(s, p) {
        Some(j) => {
            proof { lemma_find_from(s@, p@, 0); }
            assert(j <= s@.len());
            let r = &s[0..j];
            assert(r@ =~= s@.take(j as int));
            r
        },
        None => s,
    }
}

fn second_piece_chars<'a>(s: &'a [char], p: &[char]) -> (r: Option<&'a [char]>)
    ensures
        match r {
            Some(x) => second_piece(s@, p@) == Some(x@),
            None => second_piece(s@, p@) is None,
        },
{
    match find_chars(s, p) {
        Some(i) => {
            proof { lemma_find_from(s@, p@, 0); }
            let n = s.len();
            assert(i + p@.len() <= n);
            let rest = &s[i + p.len()..n];
            assert(rest@ =~= s@.skip(i + p@.len()));
            Some(before_first_str_chars(rest, p))
        },
        None => None,
    }
}

fn bracket_content_chars(content: &[char], start: usize) -> (r: Option<String>)
    requires
        start <= content@.len(),
    ensures
        opt_view(r) == bracket_content(content@, start as int),
{
    let c = &content[start..content.len()];
    assert(c@ =~= content@.skip(start as int));
    match find_char_chars(c, '[') {
        None => None,
        Some(b) => {
            proof { lemma_find_char(c@, '['); }
            let mut depth: i128 = 1;
            let mut pos: usize = b + 1;
            while depth > 0 && pos < c.len()
                invariant
                    b < pos <= c@.len(),
                    0 <= depth <= pos - b,
                    pos == b + 1 ==> depth == 1,
                    bracket_end(c@, b + 1, 1) == bracket_end(c@, pos as int, depth as int),
                decreases c@.len() - pos,
            {
                let ch = c[pos];
                if ch == '[' {
                    depth = depth + 1;
                } else if ch == ']' {
                    depth = depth - 1;
                }
                pos = pos + 1;
            }
            if depth <= 0 {
                assert(depth == 0);
                let r = &c[b + 1..pos - 1];
                Some(string_of(r))
            } else {
                None
            }
        },
    }
}

fn find_lit(v: &[char], lit: &str) -> (r: Option<usize>)
    ensures
        r matches Some(k) ==> find(v@, lit@) == Some(k as int),
        r is None ==> find(v@, lit@) is None,
{
    let l = chars_of(lit);
    find_chars(v, l.as_slice())
}

fn paren_sum_of(l: &[char]) -> (r: i128)
    ensures
        r == paren_sum(l@),
        -(l@.len() as int) <= r <= l@.len(),
{
    let mut r: i128 = 0;
    let mut i: usize = 0;
    while i < l.len()
        invariant
            i <= l@.len(),
            r == paren_sum(l@.take(i as int)),
            -(i as int) <= r <= i,
        decreases l.len() - i,
    {
        assert(l@.take(i + 1).drop_last() =~= l@.take(i as int));
        if l[i] == '(' {
            r = r + 1;
        } else if l[i] == ')' {
            r = r - 1;
        }
        i = i + 1;
    }
    assert(l@.take(l@.len() as int) =~= l@);
    r
}

impl SetupPyMigrationSource {
    /// A requirement of a `setup()` list as name and version
    pub fn parse_dependency_spec(&self, dep_str: &str) -> (r: Option<(String, Option<String>)>)
        ensures
            match dependency_spec(dep_str@) {
                Some((n, v)) => r matches Some((a, b)) && a@ == n && opt_view(b) == v,
                None => r is None,
            },
    {
        let d = chars_of(dep_str);
        if d.len() == 0 || eq_lit(d.as_slice(), "setuptools") {
            return None;
        }
        let ge = chars_of(">=");
        let eqeq = chars_of("==");
        let gt = vec!['>'];
        assert(gt@ =~= seq!['>']);
        match find_chars(d.as_slice(), ge.as_slice()) {
            Some(i) => {
                proof { lemma_find_from(d@, ge@, 0); }
                let n = d.len();
                let name = string_of(trim_chars(&d[0..i]));
                let rest = &d[i + ge.len()..n];
                let second = trim_chars(before_first_str_chars(rest, ge.as_slice()));
                let mut v = string_of(ge.as_slice());
                push_chars(&mut v, second);
                assert(d@.subrange(0, i as int) =~= d@.take(i as int));
                assert(rest@ =~= d@.skip(i + ge@.len()));
                return Some((name, Some(v)));
            },
            None => {},
        }
        match find_chars(d.as_slice(), eqeq.as_slice()) {
            Some(i) => {
                proof { lemma_find_from(d@, eqeq@, 0); }
                let n = d.len();
                let name = string_of(trim_chars(&d[0..i]));
                let rest = &d[i + eqeq.len()..n];
                let second = trim_chars(before_first_str_chars(rest, eqeq.as_slice()));
                assert(d@.subrange(0, i as int) =~= d@.take(i as int));
                assert(rest@ =~= d@.skip(i + eqeq@.len()));
                return Some((name, Some(string_of(second))));
            },
            None => {},
        }
        match find_char_chars(d.as_slice(), '>') {
            Some(i) => {
                proof {
                    lemma_find_char(d@, '>');
                    crate::text::lemma_find_char_contains(d@, '>');
                }
                let n = d.len();
                let name = string_of(trim_chars(&d[0..i]));
                let rest = &d[i + 1..n];
                let second = trim_chars(before_first_str_chars(rest, gt.as_slice()));
                let mut v = string_of(chars_of(">").as_slice());
                push_chars(&mut v, second);
                assert(d@.subrange(0, i as int) =~= d@.take(i as int));
                assert(rest@ =~= d@.skip(i + 1));
                Some((name, Some(v)))
            },
            None => {
                proof { crate::text::lemma_find_char_contains(d@, '>'); }
                Some((string_of(trim_chars(d.as_slice())), None))
            },
        }
    }

    /// The dependencies of the items of a `setup()` list, in the given group
    pub fn parse_dependencies(&self, content: &str, dep_type: &DependencyType) -> (r: Vec<Dependency>)
        ensures
            deps_view(r@) == list_dependencies(split_char(content@, ','), dep_type@),
    {
        let c = chars_of(content);
        let items = split_char_chars(c.as_slice(), ',');
        let ghost iv = vecs_view(items@);
        let quotes = vec!['\'', '"'];
        assert(quotes@ =~= quote_chars());
        let mut r: Vec<Dependency> = Vec::new();
        let mut i: usize = 0;
        while i < items.len()
            invariant
                i <= items@.len(),
                iv == vecs_view(items@),
                iv == split_char(content@, ','),
                quotes@ == quote_chars(),
                deps_view(r@) == list_dependencies(iv.take(i as int), dep_type@),
            decreases items.len() - i,
        {
            proof {
                assert(iv.take(i + 1).drop_last() =~= iv.take(i as int));
                assert(iv.take(i + 1).last() == items@[i as int]@);
            }
            let line = trim_chars(items[i].as_slice());
            if line.len() > 0 {
                let d = trim_set_chars(line, quotes.as_slice());
                let ds = string_of(d);
                match self.parse_dependency_spec(ds.as_str()) {
                    Some((name, version)) => {
                        let ghost before = r@;
                        r.push(Dependency {
                            name,
                            version,
                            dep_type: dep_type.duplicate(),
                            environment_markers: None,
                            extras: None,
                        });
                        assert(deps_view(r@) =~= deps_view(before).push(deps_view(r@).last()));
                    },
                    None => {},
                }
            }
            i = i + 1;
        }
        assert(iv.take(items@.len() as int) =~= iv);
        r
    }

    fn keyword_list(&self, content: &str, key: &str, dep_type: &DependencyType) -> (r: Option<Vec<Dependency>>)
        ensures
            match keyword_dependencies(content@, key@, dep_type@) {
                Some(ds) => r matches Some(v) && deps_view(v@) == ds,
                None => r is None,
            },
    {
        let c = chars_of(content);
        let mut pat = chars_of(key);
        pat.push('=');
        pat.push('[');
        assert(pat@ =~= key@ + seq!['=', '[']);
        match find_chars(c.as_slice(), pat.as_slice()) {
            None => None,
            Some(i) => {
                proof { lemma_find_from(c@, pat@, 0); }
                let k = chars_of(key);
                assert(pat@.len() == k@.len() + 2);
                let n = c.len();
                assert(i + pat@.len() <= n);
                let start = i + k.len() + 1;
                match bracket_content_chars(c.as_slice(), start) {
                    None => None,
                    Some(b) => Some(self.parse_dependencies(b.as_str(), dep_type)),
                }
            },
        }
    }

    /// The dependencies after `install_requires=[`
    pub fn extract_install_requires(&self, content: &str) -> (r: Option<Vec<Dependency>>)
        ensures
            match keyword_dependencies(content@, "install_requires"@, DepTypeView::Main) {
                Some(ds) => r matches Some(v) && deps_view(v@) == ds,
                None => r is None,
            },
    {
        self.keyword_list(content, "install_requires", &DependencyType::Main)
    }

    /// The dependencies after `tests_require=[`, as dev dependencies
    pub fn extract_tests_require(&self, content: &str) -> (r: Option<Vec<Dependency>>)
        ensures
            match keyword_dependencies(content@, "tests_require"@, DepTypeView::Dev) {
                Some(ds) => r matches Some(v) && deps_view(v@) == ds,
                None => r is None,
            },
    {
        self.keyword_list(content, "tests_require", &DependencyType::Dev)
    }

    /// The text between the first `[` at or after character `start_pos` and
    /// the bracket that closes it
    pub fn extract_bracket_content(&self, content: &str, start_pos: usize) -> (r: Option<String>)
        ensures
            start_pos <= content@.len() ==> opt_view(r) == bracket_content(content@, start_pos as int),
            start_pos > content@.len() ==> r is None,
    {
        let c = chars_of(content);
        if start_pos > c.len() {
            return None;
        }
        bracket_content_chars(c.as_slice(), start_pos)
    }

    /// The dependencies that a `setup.py` text lists: `install_requires`, then
    /// `tests_require` as dev dependencies.
    pub fn parse_setup_py_content(&self, content: &str) -> (r: Vec<Dependency>)
        ensures
            deps_view(r@) == match keyword_dependencies(content@, "install_requires"@, DepTypeView::Main) {
                Some(a) => a,
                None => seq![],
            } + match keyword_dependencies(content@, "tests_require"@, DepTypeView::Dev) {
                Some(b) => b,
                None => seq![],
            },
    {
        let mut r: Vec<Dependency> = Vec::new();
        match self.extract_install_requires(content) {
            Some(mut deps) => r.append(&mut deps),
            None => {},
        }
        let ghost first = r@;
        match self.extract_tests_require(content) {
            Some(mut deps) => {
                let ghost added = deps@;
                r.append(&mut deps);
                assert(r@ =~= first + added);
                assert(deps_view(r@) =~= deps_view(first) + deps_view(added));
            },
            None => {
                assert(deps_view(r@) =~= deps_view(first) + seq![]);
            },
        }
        r
    }

    /// The body of the `setup(` call in a text that starts with it
    pub fn extract_setup_content(content: &str) -> (r: Result<String, String>)
        ensures
            match setup_content(content@) {
                Ok(b) => r matches Ok(x) && x@ == b,
                Err(e) => r matches Err(x) && x@ == e,
            },
    {
        let c = chars_of(content);
        let n = c.len();
        let ls = lines_chars(c.as_slice());
        let ghost lv = vecs_view(ls@);
        proof {
            lemma_lines_total(content@);
            assert(lv.take(0) =~= Seq::<Seq<char>>::empty());
        }
        let setup_open = chars_of("setup(");
        let mut acc = String::new();
        let mut in_setup = false;
        let mut depth: i128 = 0;
        let mut done = false;
        let mut i: usize = 0;
        let ghost mut total: int = 0;
        while i < ls.len() && !done
            invariant
                i <= ls@.len(),
                lv == vecs_view(ls@),
                lv == lines(content@),
                total_len(lv) <= content@.len(),
                content@.len() == n,
                total == total_len(lv.take(i as int)),
                setup_open@ == "setup("@,
                -total <= depth <= total + 1,
                done ==> setup_scan(lv, 0, false, 0, seq![]) == (in_setup, depth as int, acc@),
                !done ==> setup_scan(lv, 0, false, 0, seq![]) == setup_scan(lv, i as int, in_setup, depth as int, acc@),
            decreases ls.len() - i,
        {
            let line = ls[i].as_slice();
            assert(lv[i as int] == line@);
            proof {
                assert(lv.take(i + 1) =~= lv.take(i as int) + seq![line@]);
                lemma_total_len_concat(lv.take(i as int), seq![line@]);
                assert(total_len(seq![line@]) == line@.len()) by {
                    assert(seq![line@].drop_first() =~= Seq::<Seq<char>>::empty());
                    assert(total_len(Seq::<Seq<char>>::empty()) == 0);
                }
                assert(lv =~= lv.take(i + 1) + lv.skip(i + 1));
                lemma_total_len_concat(lv.take(i + 1), lv.skip(i + 1));
                lemma_total_len_concat(lv.skip(i + 1), seq![]);
                assert(total + line@.len() <= n);
            }
            let t = trim_chars(line);
            if t.len() == 0 || starts_with_lit(t, "#") {
            } else if !in_setup {
                if starts_with_chars(t, setup_open.as_slice()) {
                    in_setup = true;
                    depth = 1;
                    let ghost old_acc = acc@;
                    match second_piece_chars(line, setup_open.as_slice()) {
                        Some(rest) => {
                            push_chars(&mut acc, rest);
                            push_char(&mut acc, '\n');
                            assert(acc@ =~= old_acc + rest@ + seq!['\n']);
                        },
                        None => {},
                    }
                }
            } else {
                let d = paren_sum_of(line);
                depth = depth + d;
                let ghost old_acc = acc@;
                push_chars(&mut acc, line);
                push_char(&mut acc, '\n');
                assert(acc@ =~= old_acc + line@ + seq!['\n']);
                if depth == 0 {
                    done = true;
                }
            }
            proof { total = total + line@.len(); }
            i = i + 1;
        }
        if !in_setup {
            return Err(string_of(chars_of("Could not find setup() call").as_slice()));
        }
        if depth > 0 {
            return Err(string_of(chars_of("Could not find matching closing parenthesis for setup()").as_slice()));
        }
        Ok(acc)
    }

    /// The quoted value after the first `=` of a line
    pub fn extract_string_value(line: &str) -> (r: Option<String>)
        ensures
            opt_view(r) == string_value(line@),
    {
        let v = chars_of(line);
        let eq = vec!['='];
        assert(eq@ =~= seq!['=']);
        match second_piece_chars(v.as_slice(), eq.as_slice()) {
            None => None,
            Some(piece) => {
                let a = trim_chars(piece);
                if a.len() == 0 || (a[0] != '\'' && a[0] != '"') {
                    return None;
                }
                let q = a[0];
                let body = &a[1..a.len()];
                assert(body@ =~= a@.skip(1));
                match find_char_chars(body, q) {
                    Some(e) => {
                        proof { lemma_find_char(body@, q); }
                        let value = &body[0..e];
                        assert(value@ =~= body@.take(e as int));
                        Some(string_of(value))
                    },
                    None => None,
                }
            },
        }
    }

    fn parameter_on_line_of(t: &[char], name: &str) -> (r: Option<String>)
        ensures
            opt_view(r) == parameter_on_line(t@, name@),
    {
        let mut p1 = chars_of(name);
        let mut p2 = chars_of(name);
        let sp = chars_of(" = ");
        let eqs = chars_of("=");
        crate::text::push_vec(&mut p1, sp.as_slice());
        crate::text::push_vec(&mut p2, eqs.as_slice());
        if starts_with_chars(t, p1.as_slice()) || starts_with_chars(t, p2.as_slice()) {
            if contains_char(t, '"') || contains_char(t, '\'') {
                let ts = string_of(t);
                Self::extract_string_value(ts.as_str())
            } else {
                let n = chars_of(name);
                if eq_lit(n.as_slice(), "description") {
                    let eq = vec!['='];
                    assert(eq@ =~= seq!['=']);
                    match second_piece_chars(t, eq.as_slice()) {
                        Some(v) => Some(string_of(trim_chars(v))),
                        None => None,
                    }
                } else {
                    None
                }
            }
        } else {
            None
        }
    }

    /// The value that the first line assigning `param_name` gives it
    pub fn extract_parameter(content: &str, param_name: &str) -> (r: Option<String>)
        ensures
            opt_view(r) == parameter(content@, param_name@),
    {
        let c = chars_of(content);
        let ls = lines_chars(c.as_slice());
        let ghost lv = vecs_view(ls@);
        let mut i: usize = 0;
        while i < ls.len()
            invariant
                i <= ls@.len(),
                lv == vecs_view(ls@),
                lv == lines(content@),
                parameter(content@, param_name@) == parameter_from(lv, i as int, param_name@),
            decreases ls.len() - i,
        {
            assert(lv[i as int] == ls@[i as int]@);
            let t = trim_chars(ls[i].as_slice());
            if t.len() > 0 && !starts_with_lit(t, "#") {
                match Self::parameter_on_line_of(t, param_name) {
                    Some(v) => { return Some(v); },
                    None => {},
                }
            }
            i = i + 1;
        }
        None
    }

    fn keyword_of(content: &str, name: &str) -> (r: Result<Option<String>, String>)
        ensures
            match setup_keyword(content@, name@) {
                Ok(v) => r matches Ok(x) && opt_view(x) == v,
                Err(e) => r matches Err(x) && x@ == e,
            },
    {
        let c = chars_of(content);
        match find_lit(c.as_slice(), "setup(") {
            None => Ok(None),
            Some(i) => {
                proof { lemma_find_from(c@, "setup("@, 0); }
                let rest = string_of(&c[i..c.len()]);
                assert(c@.subrange(i as int, c@.len() as int) =~= c@.skip(i as int));
                match Self::extract_setup_content(rest.as_str()) {
                    Err(e) => Err(e),
                    Ok(body) => Ok(Self::extract_parameter(body.as_str(), name)),
                }
            },
        }
    }

    /// The description in a `setup.py` text: `long_description`, else `description`
    pub fn extract_description(content: &str) -> (r: Result<Option<String>, String>)
        ensures
            match setup_description(content@) {
                Ok(v) => r matches Ok(x) && opt_view(x) == v,
                Err(e) => r matches Err(x) && x@ == e,
            },
    {
        let c = chars_of(content);
        match find_lit(c.as_slice(), "setup(") {
            None => Ok(None),
            Some(i) => {
                proof { lemma_find_from(c@, "setup("@, 0); }
                let rest = string_of(&c[i..c.len()]);
                assert(c@.subrange(i as int, c@.len() as int) =~= c@.skip(i as int));
                match Self::extract_setup_content(rest.as_str()) {
                    Err(e) => Err(e),
                    Ok(body) => match Self::extract_parameter(body.as_str(), "long_description") {
                        Some(d) => Ok(Some(d)),
                        None => Ok(Self::extract_parameter(body.as_str(), "description")),
                    },
                }
            },
        }
    }

    /// The project URL in a `setup.py` text
    pub fn extract_url(content: &str) -> (r: Result<Option<String>, String>)
        ensures
            match setup_keyword(content@, "url"@) {
                Ok(v) => r matches Ok(x) && opt_view(x) == v,
                Err(e) => r matches Err(x) && x@ == e,
            },
    {
        Self::keyword_of(content, "url")
    }

    /// A keyword argument of the `setup(` call in a `setup.py` text
    pub fn keyword_from_content(content: &str, name: &str) -> (r: Result<Option<String>, String>)
        ensures
            match setup_keyword(content@, name@) {
                Ok(v) => r matches Ok(x) && opt_view(x) == v,
                Err(e) => r matches Err(x) && x@ == e,
            },
    {
        Self::keyword_of(content, name)
    }
}

impl SetupPyMigrationSource {
    /// The dependencies of a setuptools project: those of its requirements
    /// files, given as (text, group) pairs, where it has any; else those that
    /// its `setup.py` text lists.
    pub fn extract_dependencies(&self, setup_py: &str, requirement_files: &Vec<(String, DependencyType)>) -> (r: Result<Vec<Dependency>, Error>)
        ensures
            requirement_files@.len() > 0 ==> (r matches Ok(v) && deps_view(v@) == crate::migrators::requirements::requirements_of_files(
                crate::migrators::requirements::files_view(requirement_files@))),
            requirement_files@.len() == 0 ==> (r matches Ok(v) && deps_view(v@) == match keyword_dependencies(setup_py@, "install_requires"@, DepTypeView::Main) {
                Some(a) => a,
                None => seq![],
            } + match keyword_dependencies(setup_py@, "tests_require"@, DepTypeView::Dev) {
                Some(b) => b,
                None => seq![],
            }),
    {
        if requirement_files.len() > 0 {
            let source = crate::migrators::requirements::RequirementsMigrationSource;
            return source.extract_dependencies(requirement_files);
        }
        Ok(self.parse_setup_py_content(setup_py))
    }
}

proof fn lemma_pinned_no_ge(name: Seq<char>, version: Seq<char>, k: int)
    requires
        forall|i: int| 0 <= i < name.len() ==> name[i] != '=' && name[i] != '>',
        forall|i: int| 0 <= i < version.len() ==> version[i] != '=',
    ensures
        !matches_at(name + "=="@ + version, ">="@, k),
{
    reveal_strlit("==");
    reveal_strlit(">=");
    let d = name + "=="@ + version;
    let m = name.len() as int;
    if matches_at(d, ">="@, k) {
        assert(d[k] == d.subrange(k, k + 2)[0]);
        assert(d[k + 1] == d.subrange(k, k + 2)[1]);
        if k + 1 < m {
            assert(d[k + 1] == name[k + 1]);
        } else if k + 1 == m {
            assert(d[k] == name[k]);
        } else if k == m || k == m + 1 {
            assert(d[k] == '=');
        } else {
            assert(d[k + 1] == version[k + 1 - m - 2]);
        }
    }
}

proof fn lemma_pinned_first_eq(name: Seq<char>, version: Seq<char>, k: int)
    requires
        forall|i: int| 0 <= i < name.len() ==> name[i] != '=' && name[i] != '>',
        0 <= k < name.len(),
    ensures
        !matches_at(name + "=="@ + version, "=="@, k),
{
    reveal_strlit("==");
    let d = name + "=="@ + version;
    if matches_at(d, "=="@, k) {
        assert(d[k] == d.subrange(k, k + 2)[0]);
        assert(d[k] == name[k]);
    }
}

#[verifier::rlimit(60)]
/// A pinned requirement `name==version` (no `>=`, no other `=` and no `>` in
/// the name, no `=` in the version) keeps its pinned version: the name and
/// the version, each trimmed.
pub proof fn lemma_pinned_requirement(name: Seq<char>, version: Seq<char>)
    requires
        forall|i: int| 0 <= i < name.len() ==> name[i] != '=' && name[i] != '>',
        forall|i: int| 0 <= i < version.len() ==> version[i] != '=',
    ensures
        dependency_spec(name + "=="@ + version) == Some((trim(name), Some(trim(version)))),
{
    let d = name + "=="@ + version;
    let m = name.len() as int;
    lemma_pinned_shape(name, version);
    assert(!contains(d, ">="@));
    assert(contains(d, "=="@));
    assert(find(d, "=="@).unwrap() == m);
    assert(d.take(m) =~= name);
    assert(before_first_str(d.skip(m + 2), "=="@) == version);
}

proof fn lemma_pinned_shape(name: Seq<char>, version: Seq<char>)
    requires
        forall|i: int| 0 <= i < name.len() ==> name[i] != '=' && name[i] != '>',
        forall|i: int| 0 <= i < version.len() ==> version[i] != '=',
    ensures
        (name + "=="@ + version).len() > 0,
        name + "=="@ + version != "setuptools"@,
        find(name + "=="@ + version, ">="@) is None,
        find(name + "=="@ + version, "=="@) == Some(name.len() as int),
        "=="@.len() == 2,
        (name + "=="@ + version).skip(name.len() as int + 2) == version,
        before_first_str(version, "=="@) == version,
{
    reveal_strlit("==");
    let d = name + "=="@ + version;
    let m = name.len() as int;
    assert(d[m] == '=');
    lemma_pinned_not_setuptools(name, version);
    lemma_pinned_no_ge_at_all(name, version);
    lemma_pinned_first_pair(name, version);
    assert(d.skip(m + 2) =~= version);
    lemma_no_pair_in_version(version);
}

proof fn lemma_pinned_not_setuptools(name: Seq<char>, version: Seq<char>)
    requires
        forall|i: int| 0 <= i < name.len() ==> name[i] != '=' && name[i] != '>',
    ensures
        name + "=="@ + version != "setuptools"@,
{
    reveal_strlit("==");
    reveal_strlit("setuptools");
    let d = name + "=="@ + version;
    let m = name.len() as int;
    let st = seq!['s', 'e', 't', 'u', 'p', 't', 'o', 'o', 'l', 's'];
    assert("setuptools"@ =~= st);
    if d == "setuptools"@ {
        assert(d[m] == '=');
        assert(d[m] == st[m]);
        assert(forall|i: int| 0 <= i < 10 ==> st[i] != '=');
    }
}

proof fn lemma_pinned_no_ge_at_all(name: Seq<char>, version: Seq<char>)
    requires
        forall|i: int| 0 <= i < name.len() ==> name[i] != '=' && name[i] != '>',
        forall|i: int| 0 <= i < version.len() ==> version[i] != '=',
    ensures
        find(name + "=="@ + version, ">="@) is None,
{
    let d = name + "=="@ + version;
    lemma_find_from(d, ">="@, 0);
    if find(d, ">="@) is Some {
        lemma_pinned_no_ge(name, version, find(d, ">="@).unwrap());
    }
}

proof fn lemma_pinned_first_pair(name: Seq<char>, version: Seq<char>)
    requires
        forall|i: int| 0 <= i < name.len() ==> name[i] != '=' && name[i] != '>',
    ensures
        find(name + "=="@ + version, "=="@) == Some(name.len() as int),
{
    reveal_strlit("==");
    let d = name + "=="@ + version;
    let m = name.len() as int;
    lemma_find_from(d, "=="@, 0);
    assert(matches_at(d, "=="@, m)) by {
        assert(d.subrange(m, m + 2) =~= "=="@);
    }
    if find(d, "=="@) is Some {
        let k = find(d, "=="@).unwrap();
        if k < m {
            lemma_pinned_first_eq(name, version, k);
        }
    }
}

proof fn lemma_no_pair_in_version(version: Seq<char>)
    requires
        forall|i: int| 0 <= i < version.len() ==> version[i] != '=',
    ensures
        before_first_str(version, "=="@) == version,
{
    reveal_strlit("==");
    lemma_find_from(version, "=="@, 0);
    if find(version, "=="@) is Some {
        let k = find(version, "=="@).unwrap();
        assert(version.subrange(k, k + 2) == "=="@);
        assert(version[k] == version.subrange(k, k + 2)[0]);
    }
}

} // verus!
