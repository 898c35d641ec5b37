//! The command line of the migrator.
use vstd::prelude::*;
use crate::text::{chars_of, starts_with, starts_with_lit, str_eq, strs_view};

verus! {

/// Command line arguments for UV migrator.
pub struct Args {
    /// Path to the project directory
    pub path: String,
    /// Whether to merge dependency groups
    pub merge_groups: bool,
    /// Whether to import global pip.conf
    pub import_global_pip_conf: bool,
    /// Additional index URLs to import
    pub import_index: Vec<String>,
    /// Whether to disable automatic restore on error
    pub disable_restore: bool,
}

pub struct ArgsView {
    pub path: Seq<char>,
    pub merge_groups: bool,
    pub import_global_pip_conf: bool,
    pub import_index: Seq<Seq<char>>,
    pub disable_restore: bool,
}

impl View for Args {
    type V = ArgsView;

    open spec fn view(&self) -> ArgsView {
        ArgsView {
            path: self.path@,
            merge_groups: self.merge_groups,
            import_global_pip_conf: self.import_global_pip_conf,
            import_index: strs_view(self.import_index@),
            disable_restore: self.disable_restore,
        }
    }
}

pub open spec fn default_args() -> ArgsView {
    ArgsView {
        path: "."@,
        merge_groups: false,
        import_global_pip_conf: false,
        import_index: seq![],
        disable_restore: false,
    }
}

/// The arguments read from position `i` on: the three flags, `--import-index`
/// with the next argument (if any), and a path (the last argument that does
/// not start with `-`); other options are ignored.
pub open spec fn parsed_from(args: Seq<Seq<char>>, i: int, acc: ArgsView) -> ArgsView
    decreases args.len() - i,
{
    if i < 1 || i >= args.len() {
        acc
    } else {
        let a = args[i];
        if a == "--merge-groups"@ {
            parsed_from(args, i + 1, ArgsView { merge_groups: true, ..acc })
        } else if a == "--import-global-pip-conf"@ {
            parsed_from(args, i + 1, ArgsView { import_global_pip_conf: true, ..acc })
        } else if a == "--disable-restore"@ {
            parsed_from(args, i + 1, ArgsView { disable_restore: true, ..acc })
        } else if a == "--import-index"@ {
            if i + 1 < args.len() {
                parsed_from(args, i + 2, ArgsView { import_index: acc.import_index.push(args[i + 1]), ..acc })
            } else {
                parsed_from(args, i + 1, acc)
            }
        } else if !starts_with(a, "-"@) {
            parsed_from(args, i + 1, ArgsView { path: a, ..acc })
        } else {
            parsed_from(args, i + 1, acc)
        }
    }
}

impl Args {
    /// Reads the arguments of a command line (the program's name first).
    pub fn from_command_line(args: &Vec<String>) -> (r: Args)
        ensures
            r@ == parsed_from(strs_view(args@), 1, default_args()),
    {
        let ghost av = strs_view(args@);
        let mut r = Args {
            path: ".".to_string(),
            merge_groups: false,
            import_global_pip_conf: false,
            import_index: Vec::new(),
            disable_restore: false,
        };
        assert(strs_view(r.import_index@) =~= seq![]);
        let mut i: usize = 1;
        while i < args.len()
            invariant
                1 <= i,
                av == strs_view(args@),
                av.len() == args@.len(),
                parsed_from(av, i as int, r@) == parsed_from(av, 1, default_args()),
            decreases args.len() - i,
        {
            let ghost before = r@;
            let a = args[i].as_str();
            assert(av[i as int] == a@);
            if str_eq(a, "--merge-groups") {
                r.merge_groups = true;
                i = i + 1;
            } else if str_eq(a, "--import-global-pip-conf") {
                r.import_global_pip_conf = true;
                i = i + 1;
            } else if str_eq(a, "--disable-restore") {
                r.disable_restore = true;
                i = i + 1;
            } else if str_eq(a, "--import-index") {
                if i + 1 < args.len() {
                    let ghost b = r.import_index@;
                    r.import_index.push(args[i + 1].clone());
                    assert(strs_view(r.import_index@) =~= strs_view(b).push(av[i + 1]));
                    i = i + 2;
                } else {
                    i = i + 1;
                }
            } else {
                let c = chars_of(a);
                if !starts_with_lit(c.as_slice(), "-") {
                    r.path = a.to_string();
                }
                i = i + 1;
            }
        }
        assert(parsed_from(av, i as int, r@) == r@);
        r
    }
}

} // verus!
