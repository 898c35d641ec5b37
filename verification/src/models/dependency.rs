use vstd::prelude::*;
use crate::text::{chars_of, chars_eq, string_of, opt_view, strs_view};

verus! {

/// The group a dependency belongs to.
#[derive(Debug, Clone, PartialEq, Eq, Hash)]
pub enum DependencyType {
    /// Main project dependency
    Main,
    /// Development dependency
    Dev,
    /// Dependency in a named group (e.g. "docs", "test")
    Group(String),
}

pub enum DepTypeView {
    Main,
    Dev,
    Group(Seq<char>),
}

impl View for DependencyType {
    type V = DepTypeView;

    open spec fn view(&self) -> DepTypeView {
        match self {
            DependencyType::Main => DepTypeView::Main,
            DependencyType::Dev => DepTypeView::Dev,
            DependencyType::Group(g) => DepTypeView::Group(g@),
        }
    }
}

/// A project dependency with its group, version constraint, markers and extras.
#[derive(Debug, Clone)]
pub struct Dependency {
    /// The name of the dependency package
    pub name: String,
    /// Optional version constraint
    pub version: Option<String>,
    /// Group of the dependency (main, dev, or a named group)
    pub dep_type: DependencyType,
    /// Optional environment markers (e.g. "python_version > '3.7'")
    pub environment_markers: Option<String>,
    /// Optional extras (e.g. ["standard"] for "uvicorn[standard]")
    pub extras: Option<Vec<String>>,
}

pub struct DependencyView {
    pub name: Seq<char>,
    pub version: Option<Seq<char>>,
    pub dep_type: DepTypeView,
    pub environment_markers: Option<Seq<char>>,
    pub extras: Option<Seq<Seq<char>>>,
}

pub open spec fn opt_strs_view(o: Option<Vec<String>>) -> Option<Seq<Seq<char>>> {
    match o {
        Some(v) => Some(strs_view(v@)),
        None => None,
    }
}

impl View for Dependency {
    type V = DependencyView;

    open spec fn view(&self) -> DependencyView {
        DependencyView {
            name: self.name@,
            version: opt_view(self.version),
            dep_type: self.dep_type@,
            environment_markers: opt_view(self.environment_markers),
            extras: opt_strs_view(self.extras),
        }
    }
}

pub open spec fn deps_view(v: Seq<Dependency>) -> Seq<DependencyView> {
    v.map_values(|d: Dependency| d@)
}

/// The group that a group name stands for: "dev" and "main" are the two fixed ones.
pub open spec fn dep_type_of(s: Seq<char>) -> DepTypeView {
    if s == seq!['d', 'e', 'v'] {
        DepTypeView::Dev
    } else if s == seq!['m', 'a', 'i', 'n'] {
        DepTypeView::Main
    } else {
        DepTypeView::Group(s)
    }
}

/// A Git source of a dependency.
#[derive(Debug, Clone)]
pub struct GitDependency {
    pub name: String,
    pub git_url: String,
    pub branch: Option<String>,
    pub tag: Option<String>,
    pub rev: Option<String>,
}

impl DependencyType {
    /// Converts a string representation to a DependencyType
    pub fn parse_str(dep_type: &str) -> (r: Self)
        ensures
            r@ == dep_type_of(dep_type@),
    {
        let v = chars_of(dep_type);
        let dev = vec!['d', 'e', 'v'];
        let main = vec!['m', 'a', 'i', 'n'];
        if chars_eq(v.as_slice(), dev.as_slice()) {
            DependencyType::Dev
        } else if chars_eq(v.as_slice(), main.as_slice()) {
            DependencyType::Main
        } else {
            DependencyType::Group(string_of(v.as_slice()))
        }
    }

    /// An equal copy of this group.
    pub fn duplicate(&self) -> (r: Self)
        ensures
            r@ == self@,
    {
        match self {
            DependencyType::Main => DependencyType::Main,
            DependencyType::Dev => DependencyType::Dev,
            DependencyType::Group(g) => DependencyType::Group(g.clone()),
        }
    }

    /// Whether this is a named group.
    pub fn is_group(&self) -> (r: bool)
        ensures
            r == (self@ is Group),
    {
        match self {
            DependencyType::Group(_) => true,
            _ => false,
        }
    }
}

impl Dependency {
    /// Creates a new dependency with the given name and dependency type
    pub fn new(name: String, dep_type: DependencyType) -> (r: Self)
        ensures
            r@ == (DependencyView {
                name: name@,
                version: None,
                dep_type: dep_type@,
                environment_markers: None,
                extras: None,
            }),
    {
        Self { name, version: None, dep_type, environment_markers: None, extras: None }
    }

    /// Creates a new dependency with the given name, version, and dependency type
    pub fn with_version(name: String, version: String, dep_type: DependencyType) -> (r: Self)
        ensures
            r@ == (DependencyView {
                name: name@,
                version: Some(version@),
                dep_type: dep_type@,
                environment_markers: None,
                extras: None,
            }),
    {
        Self { name, version: Some(version), dep_type, environment_markers: None, extras: None }
    }

    /// Adds environment markers to the dependency
    pub fn with_markers(self, markers: String) -> (r: Self)
        ensures
            r@ == (DependencyView { environment_markers: Some(markers@), ..self@ }),
    {
        let mut d = self;
        d.environment_markers = Some(markers);
        d
    }
}

impl std::str::FromStr for DependencyType {
    type Err = String;

    /// Converts a string representation to a DependencyType
    fn from_str(dep_type: &str) -> (r: Result<Self, Self::Err>)
        ensures
            r matches Ok(t) && t@ == dep_type_of(dep_type@),
    {
        Ok(DependencyType::parse_str(dep_type))
    }
}

} // verus!
