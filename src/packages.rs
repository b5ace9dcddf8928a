use vstd::prelude::*;

use crate::plan::{PackageModel, PackageSpec, PatchModel, PatchOp};

verus! {

/// The package of computer-vision operators.
pub open spec fn mmcv_model() -> PackageModel {
    PackageModel {
        name: "mmcv"@,
        version: "2.1.0"@,
        repo_url: "https://github.com/open-mmlab/mmcv.git"@,
        checkout: ".mmcv"@,
        patches: seq![],
    }
}

/// The package of action-recognition models.
pub open spec fn mmaction2_model() -> PackageModel {
    PackageModel {
        name: "mmaction2"@,
        version: "1.2.0"@,
        repo_url: "https://github.com/open-mmlab/mmaction2.git"@,
        checkout: ".mmaction2"@,
        patches: seq![
            PatchModel::TorchLoad(".mmaction2/mmaction/apis/inference.py"@),
            PatchModel::GetVersion(".mmaction2/setup.py"@, "1.2.0"@),
        ],
    }
}

/// The package of training infrastructure.
pub open spec fn mmengine_model() -> PackageModel {
    PackageModel {
        name: "mmengine"@,
        version: "0.10.7"@,
        repo_url: "https://github.com/open-mmlab/mmengine"@,
        checkout: ".mmengine"@,
        patches: seq![
            PatchModel::GetVersion(".mmengine/setup.py"@, "0.10.7"@),
            PatchModel::TorchLoad(".mmengine/mmengine/runner/checkpoint.py"@),
        ],
    }
}

/// The packages built from source, in build order.
pub open spec fn managed_models() -> Seq<PackageModel> {
    seq![mmcv_model(), mmaction2_model(), mmengine_model()]
}

/// The directories that a purge removes: the wheelhouse and the three checkouts.
pub open spec fn purged_dirs() -> Seq<Seq<char>> {
    seq![".wheelhouse"@, ".mmaction2"@, ".mmengine"@, ".mmcv"@]
}

/// The computer-vision operators package.
pub fn mmcv_package() -> (r: PackageSpec)
    ensures
        r@ == mmcv_model(),
{
    let r = PackageSpec {
        name: String::from_str("mmcv"),
        version: String::from_str("2.1.0"),
        repo_url: String::from_str("https://github.com/open-mmlab/mmcv.git"),
        checkout: String::from_str(".mmcv"),
        patches: Vec::new(),
    };
    proof {
        assert(r@.patches =~= seq![]);
    }
    r
}

/// The action-recognition package.
pub fn mmaction2_package() -> (r: PackageSpec)
    ensures
        r@ == mmaction2_model(),
{
    let mut patches: Vec<PatchOp> = Vec::new();
    patches.push(
        PatchOp::TorchLoad { path: String::from_str(".mmaction2/mmaction/apis/inference.py") },
    );
    patches.push(
        PatchOp::GetVersion {
            path: String::from_str(".mmaction2/setup.py"),
            version: String::from_str("1.2.0"),
        },
    );
    let r = PackageSpec {
        name: String::from_str("mmaction2"),
        version: String::from_str("1.2.0"),
        repo_url: String::from_str("https://github.com/open-mmlab/mmaction2.git"),
        checkout: String::from_str(".mmaction2"),
        patches,
    };
    proof {
        assert(r@.patches =~= mmaction2_model().patches);
    }
    r
}

/// The training-infrastructure package.
pub fn mmengine_package() -> (r: PackageSpec)
    ensures
        r@ == mmengine_model(),
{
    let mut patches: Vec<PatchOp> = Vec::new();
    patches.push(
        PatchOp::GetVersion {
            path: String::from_str(".mmengine/setup.py"),
            version: String::from_str("0.10.7"),
        },
    );
    patches.push(
        PatchOp::TorchLoad { path: String::from_str(".mmengine/mmengine/runner/checkpoint.py") },
    );
    let r = PackageSpec {
        name: String::from_str("mmengine"),
        version: String::from_str("0.10.7"),
        repo_url: String::from_str("https://github.com/open-mmlab/mmengine"),
        checkout: String::from_str(".mmengine"),
        patches,
    };
    proof {
        assert(r@.patches =~= mmengine_model().patches);
    }
    r
}

/// The packages built from source, in build order.
pub fn managed_packages() -> (r: Vec<PackageSpec>)
    ensures
        r@.map_values(|p: PackageSpec| p@) == managed_models(),
{
    let mut r: Vec<PackageSpec> = Vec::new();
    r.push(mmcv_package());
    r.push(mmaction2_package());
    r.push(mmengine_package());
    proof {
        assert(r@.map_values(|p: PackageSpec| p@) =~= managed_models());
    }
    r
}

/// The directories that a purge removes, in the order they are removed: the
/// wheelhouse and the checkouts of the three packages.
pub fn purge_cache_dirs() -> (r: Vec<String>)
    ensures
        r@.map_values(|s: String| s@) == purged_dirs(),
{
    let mut r: Vec<String> = Vec::new();
    r.push(String::from_str(".wheelhouse"));
    r.push(String::from_str(".mmaction2"));
    r.push(String::from_str(".mmengine"));
    r.push(String::from_str(".mmcv"));
    proof {
        assert(r@.map_values(|s: String| s@) =~= purged_dirs());
    }
    r
}

/// The directories left after removing `p` and everything below it.
pub open spec fn remove_tree(dirs: Set<Seq<char>>, p: Seq<char>) -> Set<Seq<char>> {
    dirs.filter(|q: Seq<char>| !(q == p || (p + "/"@).is_prefix_of(q)))
}

/// The directories left after removing each of `ps` in turn, where it exists.
pub open spec fn remove_trees(dirs: Set<Seq<char>>, ps: Seq<Seq<char>>) -> Set<Seq<char>>
    decreases ps.len(),
{
    if ps.len() == 0 {
        dirs
    } else {
        remove_tree(remove_trees(dirs, ps.drop_last()), ps.last())
    }
}

/// Removing trees in turn leaves none of them, whatever existed before.
pub proof fn lemma_removed_trees_absent(dirs: Set<Seq<char>>, ps: Seq<Seq<char>>)
    ensures
        forall|i: int| 0 <= i < ps.len() ==> !remove_trees(dirs, ps).contains(#[trigger] ps[i]),
        remove_trees(dirs, ps).subset_of(dirs),
    decreases ps.len(),
{
    if ps.len() > 0 {
        lemma_removed_trees_absent(dirs, ps.drop_last());
        assert forall|i: int| 0 <= i < ps.len() implies !remove_trees(dirs, ps).contains(
            #[trigger] ps[i],
        ) by {
            if i < ps.len() - 1 {
                assert(ps.drop_last()[i] == ps[i]);
            }
        }
    }
}

/// After a purge none of the purged directories exist, whichever of them existed
/// before.
pub proof fn lemma_purge_leaves_none(dirs: Set<Seq<char>>)
    ensures
        forall|i: int|
            0 <= i < purged_dirs().len() ==> !remove_trees(dirs, purged_dirs()).contains(
                #[trigger] purged_dirs()[i],
            ),
{
    lemma_removed_trees_absent(dirs, purged_dirs());
}

} // verus!
