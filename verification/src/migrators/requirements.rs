//! `requirements*.txt` files: which files count, and what each line asks for.
use vstd::prelude::*;
use crate::error::{Error, ErrorView};
use crate::models::{Dependency, DependencyType, DependencyView, DepTypeView};
use crate::models::dependency::{deps_view, dep_type_of};
use crate::text::{strs_view, 
    after_last, after_last_chars, before_first, before_first_chars, chars_of, contains,
    contains_char, contains_chars, ends_with, find_char, find_char_chars, find_pred, lemma_find_char,
    lemma_find_pred_from, lines, lines_chars, opt_view, split_once, starts_with, starts_with_lit,
    string_of, strip_prefix, strip_prefix_all, strip_prefix_all_lit, strip_prefix_lit, trim,
    trim_chars, vecs_view, ends_with_chars, eq_lit, rfind_char, lemma_rfind_char,
};

verus! {

pub struct RequirementsMigrationSource;

pub open spec fn is_op_char(c: char) -> bool {
    c == '>' || c == '<' || c == '=' || c == '~' || c == '!'
}

pub open spec fn op_pred() -> spec_fn(char) -> bool {
    |c: char| is_op_char(c)
}

/// A version specifier as `uv` takes it: `==x` becomes `x`, a bare `~x`
/// becomes `~=x`, and the other operators stay as written.
pub open spec fn normalized_version(v0: Seq<char>) -> Seq<char> {
    let v = trim(v0);
    if v.contains(',') {
        v
    } else if starts_with(v, "~="@) || starts_with(v, ">="@) || starts_with(v, "<="@)
        || starts_with(v, ">"@) || starts_with(v, "<"@) || starts_with(v, "!="@) {
        v
    } else if starts_with(v, "=="@) {
        v.skip("=="@.len() as int)
    } else if starts_with(v, "~"@) {
        "~="@ + v.skip("~"@.len() as int)
    } else {
        v
    }
}

/// A package specifier `name<op>version` split at its first operator character.
pub open spec fn regular_requirement(spec: Seq<char>) -> (Seq<char>, Option<Seq<char>>) {
    match find_pred(spec, op_pred()) {
        None => (spec, None),
        Some(i) => (trim(spec.take(i)), Some(normalized_version(trim(spec.skip(i))))),
    }
}

/// The package name that a URL requirement names: its `#egg=` fragment, or the
/// distribution part of a wheel file name.
pub open spec fn url_requirement_name(spec: Seq<char>) -> Option<Seq<char>> {
    let fragment = after_last(spec, '#');
    if starts_with(fragment, "egg="@) {
        Some(strip_prefix_all(fragment, "egg="@))
    } else if ends_with(spec, ".whl"@) {
        Some(before_first(after_last(spec, '/'), '-'))
    } else {
        None
    }
}

/// The requirement that an editable line (`-e target`) stands for.
pub open spec fn editable_target(line: Seq<char>) -> Result<Seq<char>, ErrorView> {
    if starts_with(line, "-e"@) {
        match split_once(line, ' ') {
            Some((_, rest)) => Ok(rest),
            None => Err(ErrorView::DependencyParsing("Invalid editable install format"@)),
        }
    } else {
        Ok(line)
    }
}

/// The package specifier and the environment markers of a requirement line.
pub open spec fn spec_and_markers(l: Seq<char>) -> (Seq<char>, Option<Seq<char>>) {
    match split_once(l, ';') {
        Some((a, b)) => (trim(a), Some(trim(b))),
        None => (trim(l), None),
    }
}

/// What one line of a requirements file asks for: an error for a line that
/// cannot be read, nothing for `python`, or a main dependency.
pub open spec fn requirement_line(line: Seq<char>) -> Result<Option<DependencyView>, ErrorView> {
    match editable_target(line) {
        Err(e) => Err(e),
        Ok(l) => {
            let (spec, markers) = spec_and_markers(l);
            if spec.len() == 0 || contains(spec, "==="@) {
                Err(ErrorView::DependencyParsing("Malformed requirement line"@))
            } else {
                let parsed: Result<(Seq<char>, Option<Seq<char>>), ErrorView> =
                    if starts_with(spec, "git+"@) || starts_with(spec, "http"@) {
                    match url_requirement_name(spec) {
                        Some(n) => Ok((n, None)),
                        None => Err(ErrorView::DependencyParsing("Invalid URL format"@)),
                    }
                } else {
                    Ok(regular_requirement(spec))
                };
                match parsed {
                    Err(e) => Err(e),
                    Ok((name, version)) => if name == "python"@ {
                        Ok(None)
                    } else {
                        Ok(Some(DependencyView {
                            name,
                            version,
                            dep_type: DepTypeView::Main,
                            environment_markers: markers,
                            extras: None,
                        }))
                    },
                }
            }
        },
    }
}

/// The dependencies of the lines of a requirements file, in the given group:
/// blank lines, comments, `python` and lines that cannot be read are left out.
pub open spec fn requirements_from_lines(ls: Seq<Seq<char>>, t: DepTypeView) -> Seq<DependencyView>
    decreases ls.len(),
{
    if ls.len() == 0 {
        seq![]
    } else {
        let rest = requirements_from_lines(ls.drop_last(), t);
        let l = trim(ls.last());
        if l.len() == 0 || starts_with(l, "#"@) {
            rest
        } else {
            match requirement_line(l) {
                Ok(Some(d)) => rest.push(DependencyView { dep_type: t, ..d }),
                _ => rest,
            }
        }
    }
}

/// The dependencies of a requirements file's text, in the given group.
pub open spec fn requirements_in(content: Seq<char>, t: DepTypeView) -> Seq<DependencyView> {
    requirements_from_lines(lines(content), t)
}

/// The group that a requirements file stands for: `requirements.txt` is the
/// main one, `requirements-<group>.txt` a named group (`dev` is the dev one).
pub open spec fn requirements_file_group(name: Seq<char>) -> Option<DepTypeView> {
    if name == "requirements.txt"@ {
        Some(DepTypeView::Main)
    } else if starts_with(name, "requirements-"@) && ends_with(name, ".txt"@) {
        Some(dep_type_of(name.subrange("requirements-"@.len() as int, name.len() - ".txt"@.len())))
    } else {
        None
    }
}

/// The dependencies of requirements files, file after file.
pub open spec fn requirements_of_files(files: Seq<(Seq<char>, DepTypeView)>) -> Seq<DependencyView>
    decreases files.len(),
{
    if files.len() == 0 {
        seq![]
    } else {
        requirements_of_files(files.drop_last()) + requirements_in(files.last().0, files.last().1)
    }
}

/// The requirements files among file names, each with its group.
pub open spec fn requirement_files_of(names: Seq<Seq<char>>) -> Seq<(Seq<char>, DepTypeView)>
    decreases names.len(),
{
    if names.len() == 0 {
        seq![]
    } else {
        let rest = requirement_files_of(names.drop_last());
        match requirements_file_group(names.last()) {
            Some(t) => rest.push((names.last(), t)),
            None => rest,
        }
    }
}

pub open spec fn files_view(files: Seq<(String, DependencyType)>) -> Seq<(Seq<char>, DepTypeView)> {
    files.map_values(|f: (String, DependencyType)| (f.0@, f.1@))
}

impl RequirementsMigrationSource {
    /// The group of a file in a project directory, if it is a requirements file.
    pub fn requirements_file_type(&self, file_name: &str) -> (r: Option<DependencyType>)
        ensures
            match r {
                Some(t) => requirements_file_group(file_name@) == Some(t@),
                None => requirements_file_group(file_name@) is None,
            },
    {
        let v = chars_of(file_name);
        if eq_lit(v.as_slice(), "requirements.txt") {
            return Some(DependencyType::Main);
        }
        let pre = chars_of("requirements-");
        let suf = chars_of(".txt");
        if crate::text::starts_with_chars(v.as_slice(), pre.as_slice())
            && ends_with_chars(v.as_slice(), suf.as_slice()) && pre.len() <= v.len() - suf.len() {
            let g = string_of(&v[pre.len()..v.len() - suf.len()]);
            return Some(DependencyType::parse_str(g.as_str()));
        }
        proof {
            if starts_with(v@, "requirements-"@) && ends_with(v@, ".txt"@) {
                // The two affixes cannot overlap: the 13th character would be both '-' and '.'.
                assert(pre@.len() > v@.len() - suf@.len());
                assert(false) by {
                    let k = pre@.len() - 1;
                    assert(v@[k] == pre@[k]) by {
                        assert(v@.subrange(0, pre@.len() as int)[k] == pre@[k]);
                    }
                    reveal_strlit("requirements-");
                    reveal_strlit(".txt");
                    assert(pre@[k] == '-');
                    let j = k - (v@.len() - suf@.len());
                    assert(v@.subrange(v@.len() - suf@.len(), v@.len() as int)[j] == suf@[j]);
                    assert(suf@[j] != '-');
                }
            }
        }
        None
    }

    /// The requirements files among the files of a project directory (by
    /// name, in the order given), each with its group.
    pub fn find_requirements_files(&self, file_names: &Vec<String>) -> (r: Vec<(String, DependencyType)>)
        ensures
            files_view(r@) == requirement_files_of(strs_view(file_names@)),
    {
        let ghost nv = strs_view(file_names@);
        let mut out: Vec<(String, DependencyType)> = Vec::new();
        let mut i: usize = 0;
        while i < file_names.len()
            invariant
                i <= file_names@.len(),
                nv == strs_view(file_names@),
                files_view(out@) == requirement_files_of(nv.take(i as int)),
            decreases file_names.len() - i,
        {
            proof {
                assert(nv.take(i + 1).drop_last() =~= nv.take(i as int));
                assert(nv.take(i + 1).last() == file_names@[i as int]@);
            }
            match self.requirements_file_type(file_names[i].as_str()) {
                Some(t) => {
                    let ghost before = out@;
                    out.push((file_names[i].clone(), t));
                    assert(files_view(out@) =~= files_view(before).push((out@.last().0@, out@.last().1@)));
                },
                None => {},
            }
            i = i + 1;
        }
        assert(nv.take(file_names@.len() as int) =~= nv);
        out
    }

    /// Whether any of the given file names is a requirements file.
    pub fn has_requirements_files(&self, file_names: &Vec<String>) -> (r: bool)
        ensures
            r == exists|i: int| 0 <= i < file_names@.len() && requirements_file_group(#[trigger] file_names@[i]@) is Some,
    {
        let mut i: usize = 0;
        while i < file_names.len()
            invariant
                i <= file_names@.len(),
                forall|j: int| 0 <= j < i ==> requirements_file_group(#[trigger] file_names@[j]@) is None,
            decreases file_names.len() - i,
        {
            if self.requirements_file_type(file_names[i].as_str()).is_some() {
                return true;
            }
            i = i + 1;
        }
        false
    }

    /// Normalizes a version specifier for `uv`
    pub fn process_version_spec(&self, version_spec: &str) -> (r: String)
        ensures
            r@ == normalized_version(version_spec@),
    {
        let v0 = chars_of(version_spec);
        let v = trim_chars(v0.as_slice());
        if contains_char(v, ',') {
            return string_of(v);
        }
        if starts_with_lit(v, "~=") || starts_with_lit(v, ">=") || starts_with_lit(v, "<=")
            || starts_with_lit(v, ">") || starts_with_lit(v, "<") || starts_with_lit(v, "!=") {
            return string_of(v);
        }
        match strip_prefix_lit(v, "==") {
            Some(rest) => { return string_of(rest); },
            None => {},
        }
        match strip_prefix_lit(v, "~") {
            Some(rest) => {
                let mut r = string_of(chars_of("~=").as_slice());
                crate::text::push_chars(&mut r, rest);
                r
            },
            None => string_of(v),
        }
    }

    /// Splits `name<op>version` at its first operator character
    pub fn parse_regular_requirement(&self, package_spec: &str) -> (r: Result<(String, Option<String>), Error>)
        ensures
            r matches Ok((n, v)) && (n@, opt_view(v)) == regular_requirement(package_spec@),
    {
        let s = chars_of(package_spec);
        let mut i: usize = 0;
        while i < s.len()
            invariant
                i <= s@.len(),
                s@ == package_spec@,
                find_pred(s@, op_pred()) == crate::text::find_pred_from(s@, op_pred(), i as int),
            decreases s.len() - i,
        {
            let c = s[i];
            if c == '>' || c == '<' || c == '=' || c == '~' || c == '!' {
                assert(op_pred()(s@[i as int]));
                assert(crate::text::find_pred_from(s@, op_pred(), i as int) == Some(i as int));
                assert(find_pred(s@, op_pred()) == Some(i as int));
                let name = string_of(trim_chars(&s[0..i]));
                let rest = string_of(trim_chars(&s[i..s.len()]));
                assert(s@.subrange(0, i as int) =~= s@.take(i as int));
                assert(s@.subrange(i as int, s@.len() as int) =~= s@.skip(i as int));
                let version = self.process_version_spec(rest.as_str());
                assert(name@ == trim(s@.take(i as int)));
                assert(version@ == normalized_version(trim(s@.skip(i as int))));
                assert((name@, opt_view(Some(version))) == regular_requirement(package_spec@));
                return Ok((name, Some(version)));
            }
            i = i + 1;
        }
        Ok((string_of(s.as_slice()), None))
    }

    /// The package name of a URL or Git requirement
    pub fn parse_url_requirement(&self, package_spec: &str) -> (r: Result<(String, Option<String>), Error>)
        ensures
            match url_requirement_name(package_spec@) {
                Some(n) => r matches Ok((name, v)) && name@ == n && v is None,
                None => r matches Err(e) && e@ == ErrorView::DependencyParsing("Invalid URL format"@),
            },
    {
        let s = chars_of(package_spec);
        let fragment = after_last_chars(s.as_slice(), '#');
        if starts_with_lit(fragment, "egg=") {
            let name = strip_prefix_all_lit(fragment, "egg=");
            return Ok((string_of(name), None));
        }
        let whl = chars_of(".whl");
        if ends_with_chars(s.as_slice(), whl.as_slice()) {
            let file = after_last_chars(s.as_slice(), '/');
            let name = before_first_chars(file, '-');
            return Ok((string_of(name), None));
        }
        Err(Error::DependencyParsing(string_of(chars_of("Invalid URL format").as_slice())))
    }

    /// Parses one line of a requirements file
    pub fn parse_requirement(&self, line: &str) -> (r: Result<Option<Dependency>, Error>)
        ensures
            match requirement_line(line@) {
                Ok(Some(d)) => r matches Ok(Some(x)) && x@ == d,
                Ok(None) => r matches Ok(None),
                Err(e) => r matches Err(x) && x@ == e,
            },
    {
        let full = chars_of(line);
        let l: &[char] = if starts_with_lit(full.as_slice(), "-e") {
            match find_char_chars(full.as_slice(), ' ') {
                Some(i) => {
                    proof { lemma_find_char(full@, ' '); }
                    let rest = &full[i + 1..full.len()];
                    assert(rest@ =~= full@.skip(i + 1));
                    rest
                },
                None => {
                    return Err(Error::DependencyParsing(
                        string_of(chars_of("Invalid editable install format").as_slice()),
                    ));
                },
            }
        } else {
            full.as_slice()
        };
        assert(editable_target(line@) == Ok::<Seq<char>, ErrorView>(l@));
        let (spec, markers): (&[char], Option<String>) = match find_char_chars(l, ';') {
            Some(i) => {
                proof { lemma_find_char(l@, ';'); }
                let n = l.len();
                assert(i < n);
                let a = &l[0..i];
                let b = &l[i + 1..n];
                assert(a@ =~= l@.take(i as int));
                assert(b@ =~= l@.skip(i + 1));
                (trim_chars(a), Some(string_of(trim_chars(b))))
            },
            None => (trim_chars(l), None),
        };
        assert(spec_and_markers(l@) == (spec@, opt_view(markers)));
        let triple = chars_of("===");
        if spec.len() == 0 || contains_chars(spec, triple.as_slice()) {
            return Err(Error::DependencyParsing(
                string_of(chars_of("Malformed requirement line").as_slice()),
            ));
        }
        let spec_str = string_of(spec);
        let parsed = if starts_with_lit(spec, "git+") || starts_with_lit(spec, "http") {
            self.parse_url_requirement(spec_str.as_str())
        } else {
            self.parse_regular_requirement(spec_str.as_str())
        };
        match parsed {
            Err(e) => Err(e),
            Ok((name, version)) => {
                let nv = chars_of(name.as_str());
                if eq_lit(nv.as_slice(), "python") {
                    Ok(None)
                } else {
                    Ok(Some(Dependency {
                        name,
                        version,
                        dep_type: DependencyType::Main,
                        environment_markers: markers,
                        extras: None,
                    }))
                }
            },
        }
    }

    /// The dependencies of the text of a requirements file, in the given group.
    pub fn parse_requirements_content(&self, contents: &str, dep_type: &DependencyType) -> (r: Vec<Dependency>)
        ensures
            deps_view(r@) == requirements_in(contents@, dep_type@),
    {
        let c = chars_of(contents);
        let ls = lines_chars(c.as_slice());
        let ghost lv = vecs_view(ls@);
        let mut r: Vec<Dependency> = Vec::new();
        let mut i: usize = 0;
        while i < ls.len()
            invariant
                i <= ls@.len(),
                lv == vecs_view(ls@),
                lv == lines(contents@),
                deps_view(r@) == requirements_from_lines(lv.take(i as int), dep_type@),
            decreases ls.len() - i,
        {
            proof {
                assert(lv.take(i + 1).drop_last() =~= lv.take(i as int));
                assert(lv.take(i + 1).last() == ls@[i as int]@);
            }
            let t = trim_chars(ls[i].as_slice());
            if t.len() > 0 && !starts_with_lit(t, "#") {
                let ts = string_of(t);
                match self.parse_requirement(ts.as_str()) {
                    Ok(Some(dep)) => {
                        let ghost before = r@;
                        let ghost dv = dep@;
                        r.push(Dependency {
                            name: dep.name,
                            version: dep.version,
                            dep_type: dep_type.duplicate(),
                            environment_markers: dep.environment_markers,
                            extras: dep.extras,
                        });
                        assert(deps_view(r@) =~= deps_view(before).push(DependencyView { dep_type: dep_type@, ..dv }));
                    },
                    _ => {},
                }
            }
            i = i + 1;
        }
        assert(lv.take(ls@.len() as int) =~= lv);
        r
    }

    /// The dependencies of requirements files given as (text, group) pairs, or
    /// an error when there are none.
    pub fn extract_dependencies(&self, files: &Vec<(String, DependencyType)>) -> (r: Result<Vec<Dependency>, Error>)
        ensures
            files@.len() == 0 ==> (r matches Err(e) && e@ == ErrorView::ProjectDetection("No requirements files found."@)),
            files@.len() > 0 ==> (r matches Ok(v) && deps_view(v@) == requirements_of_files(files_view(files@))),
    {
        if files.len() == 0 {
            return Err(Error::ProjectDetection(string_of(chars_of("No requirements files found.").as_slice())));
        }
        let mut r: Vec<Dependency> = Vec::new();
        let mut i: usize = 0;
        while i < files.len()
            invariant
                i <= files@.len(),
                deps_view(r@) == requirements_of_files(files_view(files@).take(i as int)),
            decreases files.len() - i,
        {
            let mut more = self.parse_requirements_content(files[i].0.as_str(), &files[i].1);
            let ghost before = r@;
            let ghost added = more@;
            r.append(&mut more);
            proof {
                assert(files_view(files@).take(i + 1).drop_last() =~= files_view(files@).take(i as int));
                assert(files_view(files@).take(i + 1).last() == (files@[i as int].0@, files@[i as int].1@));
                assert(r@ =~= before + added);
                assert(deps_view(r@) =~= deps_view(before) + deps_view(added));
            }
            i = i + 1;
        }
        assert(files_view(files@).take(files@.len() as int) =~= files_view(files@));
        Ok(r)
    }
}

/// `n` is the start of the last path segment of `spec`, which begins at `k`,
/// up to (not including) the first `-` of that segment; it holds no `-`.
pub open spec fn wheel_distribution_at(spec: Seq<char>, n: Seq<char>, k: int) -> bool {
    &&& 0 <= k <= spec.len()
    &&& (k == 0 || spec[k - 1] == '/')
    &&& (forall|j: int| k <= j < spec.len() ==> spec[j] != '/')
    &&& k + n.len() <= spec.len()
    &&& spec.subrange(k, k + n.len()) == n
    &&& (forall|j: int| 0 <= j < n.len() ==> n[j] != '-')
    &&& (k + n.len() < spec.len() ==> spec[k + n.len()] == '-')
}

/// A wheel URL (ending in `.whl`, with no `#` fragment, and not itself an
/// `egg=` fragment) names the distribution of its file: the name is the start
/// of the last path segment, up to (not including) its first `-`, and holds
/// no `-` itself.
pub proof fn lemma_wheel_name(spec: Seq<char>)
    requires
        ends_with(spec, ".whl"@),
        !spec.contains('#'),
        !starts_with(spec, "egg="@),
    ensures
        url_requirement_name(spec) is Some,
        exists|k: int| wheel_distribution_at(spec, url_requirement_name(spec).unwrap(), k),
{
    lemma_rfind_char(spec, '#');
    assert(rfind_char(spec, '#') is None) by {
        if rfind_char(spec, '#') is Some {
            let i = rfind_char(spec, '#').unwrap();
            assert(spec[i] == '#');
            assert(spec.contains('#'));
        }
    }
    assert(after_last(spec, '#') == spec);
    lemma_rfind_char(spec, '/');
    let k: int = match rfind_char(spec, '/') {
        Some(i) => i + 1,
        None => 0,
    };
    let f = after_last(spec, '/');
    assert(f == spec.skip(k));
    lemma_find_char(f, '-');
    let n = before_first(f, '-');
    assert(url_requirement_name(spec) == Some(n));
    assert(n == f.take(n.len() as int));
    assert(spec.subrange(k, k + n.len()) =~= n);
    assert(forall|j: int| 0 <= j < n.len() ==> n[j] == f[j]);
    assert(k + n.len() < spec.len() ==> spec[k + n.len()] == f[n.len() as int]);
    assert(wheel_distribution_at(spec, n, k));
    assert(url_requirement_name(spec).unwrap() == n);
    assert(wheel_distribution_at(spec, url_requirement_name(spec).unwrap(), k));
}

} // verus!
