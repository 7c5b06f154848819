//! The minimal recompilation plan: which packages to clean and which source
//! files to touch so that every package that may use the query macros is
//! compiled again, and nothing else.

use crate::ident::PackageId;
use crate::metadata::Metadata;
use vstd::prelude::*;
use vstd::string::*;

verus! {

/// What has to be done before the build so that the dependents of the macro
/// package are recompiled.
#[derive(Debug, PartialEq, Eq)]
pub struct ProjectRecompileAction {
    /// The names of the packages to clean: the dependents outside the
    /// workspace.
    pub clean_packages: Vec<String>,
    /// The source files to touch: those of the dependents inside the
    /// workspace.
    pub touch_paths: Vec<String>,
}

/// Whether `id` is among `members`.
fn is_member(members: &[PackageId], id: &PackageId) -> (r: bool)
    ensures
        r == members.deep_view().contains(id@),
{
    let mut i: usize = 0;
    while i < members.len()
        invariant
            i <= members.len(),
            forall|j: int| 0 <= j < i ==> (#[trigger] members[j])@ != id@,
        decreases members.len() - i,
    {
        if members[i].repr == id.repr {
            assert(members.deep_view()[i as int] == id@);
            return true;
        }
        i = i + 1;
    }
    assert forall|j: int| 0 <= j < members.len() implies members.deep_view()[j] != id@ by {
        assert(members[j]@ != id@);
    }
    false
}

/// Computes which packages have to be cleaned and which files touched so
/// that all dependents of the packages named `marker` are recompiled.
///
/// The dependents inside the workspace give their source files, those
/// outside it their names, both in the order of package identities. Where no
/// package is named `marker` there is nothing to do and the action is empty.
pub fn minimal_project_recompile_action(metadata: &Metadata, marker: &str) -> (r:
    ProjectRecompileAction)
    ensures
        r.clean_packages.deep_view() == metadata@.clean_packages(marker@),
        r.touch_paths.deep_view() == metadata@.touch_paths(marker@),
{
    let dependents = metadata.dependents_of_named(marker);
    let members = metadata.workspace_members();
    let ghost graph = metadata@;
    let ghost all = graph.dependents_of_named(marker@);
    let ghost name_of = |d: Seq<char>| graph.package_of(d).name;
    let ghost paths_of = |d: Seq<char>| graph.package_of(d).src_paths;
    let mut clean_packages: Vec<String> = Vec::new();
    let mut touch_paths: Vec<String> = Vec::new();
    let mut i: usize = 0;
    proof {
        assert(all.take(0) =~= Seq::empty());
        reveal(Seq::filter);
        assert(all.take(0).filter(graph.is_member()) =~= Seq::empty());
        assert(all.take(0).filter(graph.is_outsider()) =~= Seq::empty());
        assert(clean_packages.deep_view() =~= all.take(0).filter(graph.is_outsider()).map_values(name_of));
        assert(all.take(0).filter(graph.is_member()).map_values(paths_of) =~= Seq::empty());
        assert(touch_paths.deep_view() =~= all.take(0).filter(graph.is_member()).map_values(
            paths_of,
        ).flatten());
    }
    while i < dependents.len()
        invariant
            i <= dependents.len(),
            graph == metadata@,
            graph.wf(),
            all == dependents.deep_view(),
            all == graph.dependents_of_named(marker@),
            members.deep_view() == graph.workspace_members,
            name_of == |d: Seq<char>| graph.package_of(d).name,
            paths_of == |d: Seq<char>| graph.package_of(d).src_paths,
            clean_packages.deep_view() == all.take(i as int).filter(graph.is_outsider()).map_values(
                name_of,
            ),
            touch_paths.deep_view() == all.take(i as int).filter(graph.is_member()).map_values(
                paths_of,
            ).flatten(),
        decreases dependents.len() - i,
    {
        let id = &dependents[i];
        let ghost d = all[i as int];
        let ghost seen = all.take(i as int);
        proof {
            assert(d == id@);
            assert(all.take(i + 1) =~= seen.push(d));
            seen.lemma_filter_push(d, graph.is_member());
            seen.lemma_filter_push(d, graph.is_outsider());
            assert(all.contains(d));
            graph.ids.lemma_filter_contains_rev(graph.is_dependent_of_named(marker@), d);
        }
        let package = metadata.package(id);
        assert(package is Some);
        let inside = is_member(members, id);
        if let Some(package) = package {
            if inside {
                let paths = package.src_paths();
                let ghost base = touch_paths.deep_view();
                let ghost kept = seen.filter(graph.is_member());
                proof {
                    assert(kept.push(d).map_values(paths_of) =~= kept.map_values(paths_of).push(
                        paths_of(d),
                    ));
                    kept.map_values(paths_of).lemma_flatten_push(paths_of(d));
                    assert(paths.deep_view() == paths_of(d));
                }
                let mut k: usize = 0;
                while k < paths.len()
                    invariant
                        k <= paths.len(),
                        touch_paths.deep_view() == base + paths.deep_view().take(k as int),
                    decreases paths.len() - k,
                {
                    let ghost before = touch_paths.deep_view();
                    touch_paths.push(paths[k].clone());
                    proof {
                        assert(touch_paths.deep_view() =~= before.push(paths[k as int]@));
                        assert(paths.deep_view().take(k + 1) =~= paths.deep_view().take(k as int).push(
                            paths[k as int]@,
                        ));
                    }
                    k = k + 1;
                }
                proof {
                    assert(paths.deep_view().take(paths.len() as int) =~= paths.deep_view());
                }
            } else {
                let ghost before = clean_packages.deep_view();
                let ghost kept = seen.filter(graph.is_outsider());
                clean_packages.push(package.name().to_owned());
                proof {
                    assert(clean_packages.deep_view() =~= before.push(name_of(d)));
                    assert(kept.push(d).map_values(name_of) =~= kept.map_values(name_of).push(name_of(d)));
                }
            }
        }
        i = i + 1;
    }
    proof {
        assert(all.take(dependents.len() as int) =~= all);
    }
    ProjectRecompileAction { clean_packages, touch_paths }
}

/// What a preparation pass works on.
#[derive(Debug)]
pub struct PrepareCtx {
    /// Whether the whole workspace is prepared, or the current package.
    pub workspace: bool,
    /// The build tool.
    pub cargo: String,
    /// Extra arguments that are handed on to the build tool.
    pub cargo_args: Vec<String>,
    pub manifest_dir: String,
    pub target_dir: String,
    pub workspace_root: String,
    /// The connection string of the database.
    pub database_url: String,
}

/// A variable of the environment of the build.
#[derive(Debug, PartialEq, Eq)]
pub struct EnvVar {
    pub name: String,
    pub value: String,
}

pub struct EnvVarView {
    pub name: Seq<char>,
    pub value: Seq<char>,
}

impl View for EnvVar {
    type V = EnvVarView;

    open spec fn view(&self) -> EnvVarView {
        EnvVarView { name: self.name@, value: self.value@ }
    }
}

impl DeepView for EnvVar {
    type V = EnvVarView;

    open spec fn deep_view(&self) -> EnvVarView {
        self@
    }
}

/// The arguments and the environment of the build that regenerates the
/// query data.
#[derive(Debug, PartialEq, Eq)]
pub struct CheckCommand {
    pub args: Vec<String>,
    pub env: Vec<EnvVar>,
}

/// The arguments of the build. A workspace is checked as a whole, after its
/// plan has been carried out. A single package is compiled alone, with a
/// configuration value that changes from run to run, so that it is always
/// compiled again.
pub open spec fn check_args(workspace: bool, cargo_args: Seq<Seq<char>>, trigger: Seq<char>) -> Seq<
    Seq<char>,
> {
    if workspace {
        seq!["check"@] + cargo_args
    } else {
        seq!["rustc"@] + cargo_args + seq![
            "--"@,
            "--emit"@,
            "dep-info,metadata"@,
            "--cfg"@,
            "__sqlx_recompile_trigger=\""@ + trigger + "\""@,
        ]
    }
}

/// The environment of the build: the compiler flags of the caller, where a
/// workspace is checked and there are any, or else the build-output
/// directory; then the connection string, the online mode, and the
/// directory for the query data.
pub open spec fn check_env(
    workspace: bool,
    rustflags: Option<Seq<char>>,
    target_directory: Seq<char>,
    database_url: Seq<char>,
    cache_dir: Seq<char>,
) -> Seq<EnvVarView> {
    let first = if workspace {
        match rustflags {
            Some(flags) => seq![EnvVarView { name: "RUSTFLAGS"@, value: flags }],
            None => Seq::empty(),
        }
    } else {
        seq![EnvVarView { name: "CARGO_TARGET_DIR"@, value: target_directory }]
    };
    first + seq![
        EnvVarView { name: "DATABASE_URL"@, value: database_url },
        EnvVarView { name: "SQLX_OFFLINE"@, value: "false"@ },
        EnvVarView { name: "SQLX_OFFLINE_DIR"@, value: cache_dir },
    ]
}

fn env_var(name: &str, value: &str) -> (r: EnvVar)
    ensures
        r@ == (EnvVarView { name: name@, value: value@ }),
{
    EnvVar { name: name.to_owned(), value: value.to_owned() }
}

impl PrepareCtx {
    /// The directory under which the query data of a run is kept: the root
    /// of the workspace, or the directory of the current package.
    pub fn root(&self) -> (r: &str)
        ensures
            r@ == if self.workspace {
                self.workspace_root@
            } else {
                self.manifest_dir@
            },
    {
        if self.workspace {
            self.workspace_root.as_str()
        } else {
            self.manifest_dir.as_str()
        }
    }

    /// The build that regenerates the query data into `cache_dir`.
    /// `trigger` is a value that changes from run to run; `rustflags` are
    /// the compiler flags of the caller's environment, if it has any.
    pub fn check_command(
        &self,
        cache_dir: &str,
        target_directory: &str,
        trigger: &str,
        rustflags: Option<&str>,
    ) -> (r: CheckCommand)
        ensures
            r.args.deep_view() == check_args(self.workspace, self.cargo_args.deep_view(), trigger@),
            r.env.deep_view() == check_env(
                self.workspace,
                match rustflags {
                    Some(flags) => Some(flags@),
                    None => None,
                },
                target_directory@,
                self.database_url@,
                cache_dir@,
            ),
    {
        let mut args: Vec<String> = Vec::new();
        let mut env: Vec<EnvVar> = Vec::new();
        if self.workspace {
            args.push("check".to_owned());
        } else {
            args.push("rustc".to_owned());
        }
        let ghost head = args.deep_view();
        proof {
            assert(head =~= if self.workspace {
                seq!["check"@]
            } else {
                seq!["rustc"@]
            });
        }
        let mut i: usize = 0;
        while i < self.cargo_args.len()
            invariant
                i <= self.cargo_args.len(),
                head.len() == 1,
                args.deep_view() == head + self.cargo_args.deep_view().take(i as int),
            decreases self.cargo_args.len() - i,
        {
            let ghost before = args.deep_view();
            args.push(self.cargo_args[i].clone());
            proof {
                assert(args.deep_view() =~= before.push(self.cargo_args[i as int]@));
                assert(self.cargo_args.deep_view().take(i + 1) =~= self.cargo_args.deep_view().take(
                    i as int,
                ).push(self.cargo_args[i as int]@));
            }
            i = i + 1;
        }
        proof {
            assert(self.cargo_args.deep_view().take(i as int) =~= self.cargo_args.deep_view());
        }
        let ghost body = args.deep_view();
        if self.workspace {
            match rustflags {
                Some(flags) => {
                    env.push(env_var("RUSTFLAGS", flags));
                },
                None => {},
            }
        } else {
            args.push("--".to_owned());
            args.push("--emit".to_owned());
            args.push("dep-info,metadata".to_owned());
            args.push("--cfg".to_owned());
            args.push("__sqlx_recompile_trigger=\"".to_owned().concat(trigger).concat("\""));
            proof {
                assert(args.deep_view() =~= body + seq![
                    "--"@,
                    "--emit"@,
                    "dep-info,metadata"@,
                    "--cfg"@,
                    "__sqlx_recompile_trigger=\""@ + trigger@ + "\""@,
                ]);
            }
            env.push(env_var("CARGO_TARGET_DIR", target_directory));
        }
        env.push(env_var("DATABASE_URL", self.database_url.as_str()));
        env.push(env_var("SQLX_OFFLINE", "false"));
        env.push(env_var("SQLX_OFFLINE_DIR", cache_dir));
        proof {
            assert(args.deep_view() =~= check_args(
                self.workspace,
                self.cargo_args.deep_view(),
                trigger@,
            ));
            assert(env.deep_view() =~= check_env(
                self.workspace,
                match rustflags {
                    Some(flags) => Some(flags@),
                    None => None,
                },
                target_directory@,
                self.database_url@,
                cache_dir@,
            ));
        }
        CheckCommand { args, env }
    }
}

} // verus!
