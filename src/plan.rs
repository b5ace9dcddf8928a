use vstd::prelude::*;

verus! {

/// A rewrite applied to a file of a fresh checkout.
pub enum PatchOp {
    /// Give every call to the deserialization function in the file the marker argument.
    TorchLoad { path: String },
    /// Make the build script's version accessor return `version`.
    GetVersion { path: String, version: String },
}

/// What a `PatchOp` stands for.
pub enum PatchModel {
    TorchLoad(Seq<char>),
    GetVersion(Seq<char>, Seq<char>),
}

impl View for PatchOp {
    type V = PatchModel;

    open spec fn view(&self) -> PatchModel {
        match self {
            PatchOp::TorchLoad { path } => PatchModel::TorchLoad(path@),
            PatchOp::GetVersion { path, version } => PatchModel::GetVersion(path@, version@),
        }
    }
}

impl PatchOp {
    /// A copy of this operation.
    pub fn duplicate(&self) -> (r: PatchOp)
        ensures
            r@ == self@,
    {
        match self {
            PatchOp::TorchLoad { path } => PatchOp::TorchLoad { path: path.clone() },
            PatchOp::GetVersion { path, version } => PatchOp::GetVersion {
                path: path.clone(),
                version: version.clone(),
            },
        }
    }
}

/// A package that is built from source: its name, pinned version, repository, local
/// checkout directory, and the rewrites applied after each fresh checkout.
pub struct PackageSpec {
    pub name: String,
    pub version: String,
    pub repo_url: String,
    pub checkout: String,
    pub patches: Vec<PatchOp>,
}

/// What a `PackageSpec` stands for.
pub struct PackageModel {
    pub name: Seq<char>,
    pub version: Seq<char>,
    pub repo_url: Seq<char>,
    pub checkout: Seq<char>,
    pub patches: Seq<PatchModel>,
}

impl View for PackageSpec {
    type V = PackageModel;

    open spec fn view(&self) -> PackageModel {
        PackageModel {
            name: self.name@,
            version: self.version@,
            repo_url: self.repo_url@,
            checkout: self.checkout@,
            patches: self.patches@.map_values(|p: PatchOp| p@),
        }
    }
}

/// One unit of work of a package build.
pub enum BuildAction {
    /// Remove a directory and everything below it, where it exists.
    RemoveDir { path: String },
    /// Shallow clone of the single revision `tag` of `url` into `dest`.
    Clone { url: String, tag: String, dest: String },
    /// Rewrite a file of the checkout.
    Patch { op: PatchOp },
    /// Build a wheel from the source directory into the wheelhouse.
    BuildWheel { source: String },
    /// Install the exact requirement from the wheelhouse, with no package index.
    Install { requirement: String },
}

/// What a `BuildAction` stands for.
pub enum ActionModel {
    RemoveDir(Seq<char>),
    Clone(Seq<char>, Seq<char>, Seq<char>),
    Patch(PatchModel),
    BuildWheel(Seq<char>),
    Install(Seq<char>),
}

impl View for BuildAction {
    type V = ActionModel;

    open spec fn view(&self) -> ActionModel {
        match self {
            BuildAction::RemoveDir { path } => ActionModel::RemoveDir(path@),
            BuildAction::Clone { url, tag, dest } => ActionModel::Clone(url@, tag@, dest@),
            BuildAction::Patch { op } => ActionModel::Patch(op@),
            BuildAction::BuildWheel { source } => ActionModel::BuildWheel(source@),
            BuildAction::Install { requirement } => ActionModel::Install(requirement@),
        }
    }
}

/// The directory that holds built wheels.
pub open spec fn wheelhouse() -> Seq<char> {
    ".wheelhouse"@
}

/// The revision that a version is cloned at.
pub open spec fn tag_of(version: Seq<char>) -> Seq<char> {
    "v"@ + version
}

/// The version-control directory inside a checkout.
pub open spec fn vcs_dir_of(checkout: Seq<char>) -> Seq<char> {
    checkout + "/.git"@
}

/// The exact requirement that installs a package version.
pub open spec fn requirement_of(name: Seq<char>, version: Seq<char>) -> Seq<char> {
    name + "=="@ + version
}

/// The pattern of the wheel files of a package version inside the wheelhouse.
pub open spec fn wheel_pattern_of(name: Seq<char>, version: Seq<char>) -> Seq<char> {
    wheelhouse() + "/"@ + name + "-"@ + version + "-*"@
}

/// The work for one package. Where its wheel is already built, only the install;
/// else a fresh checkout, its patches, a build, and the install.
pub open spec fn plan_of(p: PackageModel, artifact_present: bool) -> Seq<ActionModel> {
    if artifact_present {
        seq![ActionModel::Install(requirement_of(p.name, p.version))]
    } else {
        seq![
            ActionModel::RemoveDir(p.checkout),
            ActionModel::Clone(p.repo_url, tag_of(p.version), p.checkout),
            ActionModel::RemoveDir(vcs_dir_of(p.checkout)),
        ] + p.patches.map_values(|op: PatchModel| ActionModel::Patch(op)) + seq![
            ActionModel::BuildWheel(p.checkout),
            ActionModel::Install(requirement_of(p.name, p.version)),
        ]
    }
}

/// The views of a list of actions.
pub open spec fn action_views(v: Seq<BuildAction>) -> Seq<ActionModel> {
    v.map_values(|a: BuildAction| a@)
}

/// Whether an action clones or builds.
pub open spec fn is_clone_or_build(a: ActionModel) -> bool {
    a is Clone || a is BuildWheel
}

/// `a` followed by `b`.
fn concat(a: &str, b: &str) -> (r: String)
    ensures
        r@ == a@ + b@,
{
    let mut r = String::from_str(a);
    r.append(b);
    r
}

/// The pattern that matches the built wheels of a package version.
pub fn wheel_pattern(name: &str, version: &str) -> (r: String)
    ensures
        r@ == wheel_pattern_of(name@, version@),
{
    let mut r = String::from_str(".wheelhouse");
    r.append("/");
    r.append(name);
    r.append("-");
    r.append(version);
    r.append("-*");
    r
}

/// The exact requirement that installs a package version.
pub fn requirement(name: &str, version: &str) -> (r: String)
    ensures
        r@ == requirement_of(name@, version@),
{
    let mut r = concat(name, "==");
    r.append(version);
    r
}

/// The list of actions that builds (where needed) and installs one package.
pub fn build_plan(pkg: &PackageSpec, artifact_present: bool) -> (r: Vec<BuildAction>)
    ensures
        action_views(r@) == plan_of(pkg@, artifact_present),
{
    let mut r: Vec<BuildAction> = Vec::new();
    if !artifact_present {
        r.push(BuildAction::RemoveDir { path: pkg.checkout.clone() });
        r.push(
            BuildAction::Clone {
                url: pkg.repo_url.clone(),
                tag: concat("v", pkg.version.as_str()),
                dest: pkg.checkout.clone(),
            },
        );
        r.push(BuildAction::RemoveDir { path: concat(pkg.checkout.as_str(), "/.git") });
        let mut k: usize = 0;
        while k < pkg.patches.len()
            invariant
                k <= pkg.patches@.len(),
                action_views(r@) == seq![
                    ActionModel::RemoveDir(pkg@.checkout),
                    ActionModel::Clone(pkg@.repo_url, tag_of(pkg@.version), pkg@.checkout),
                    ActionModel::RemoveDir(vcs_dir_of(pkg@.checkout)),
                ] + pkg@.patches.subrange(0, k as int).map_values(
                    |op: PatchModel| ActionModel::Patch(op),
                ),
            decreases pkg.patches@.len() - k,
        {
            let op = pkg.patches[k].duplicate();
            proof {
                assert(pkg@.patches[k as int] == op@);
                assert(pkg@.patches.subrange(0, k + 1) =~= pkg@.patches.subrange(
                    0,
                    k as int,
                ).push(op@));
            }
            let ghost prev = r@;
            let ghost opv = op@;
            r.push(BuildAction::Patch { op });
            proof {
                assert(action_views(r@) =~= action_views(prev).push(ActionModel::Patch(opv)));
                assert(action_views(r@) =~= seq![
                    ActionModel::RemoveDir(pkg@.checkout),
                    ActionModel::Clone(pkg@.repo_url, tag_of(pkg@.version), pkg@.checkout),
                    ActionModel::RemoveDir(vcs_dir_of(pkg@.checkout)),
                ] + pkg@.patches.subrange(0, k + 1).map_values(
                    |op: PatchModel| ActionModel::Patch(op),
                ));
            }
            k = k + 1;
        }
        proof {
            assert(pkg@.patches.subrange(0, k as int) =~= pkg@.patches);
        }
        r.push(BuildAction::BuildWheel { source: pkg.checkout.clone() });
    }
    r.push(
        BuildAction::Install { requirement: requirement(pkg.name.as_str(), pkg.version.as_str()) },
    );
    proof {
        assert(action_views(r@) =~= plan_of(pkg@, artifact_present));
    }
    r
}

/// Once every wheel is built, a run clones and builds nothing: each package's work
/// is its install alone.
pub proof fn lemma_built_packages_install_only(pkgs: Seq<PackageModel>)
    ensures
        forall|i: int|
            0 <= i < pkgs.len() ==> #[trigger] plan_of(pkgs[i], true) == seq![
                ActionModel::Install(requirement_of(pkgs[i].name, pkgs[i].version)),
            ],
        forall|i: int, j: int|
            0 <= i < pkgs.len() && 0 <= j < plan_of(pkgs[i], true).len() ==> !is_clone_or_build(
                #[trigger] plan_of(pkgs[i], true)[j],
            ),
{
}

} // verus!
