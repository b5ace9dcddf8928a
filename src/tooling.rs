use vstd::prelude::*;

verus! {

/// The directories where the package manager's installer puts its executable,
/// under the home directory.
pub open spec fn candidate_dirs_of(home: Option<Seq<char>>) -> Seq<Seq<char>> {
    match home {
        Some(h) => seq![h + "/.local/bin"@, h + "/.cargo/bin"@],
        None => seq![],
    }
}

/// The search path with `dir` put first, or `None` where it is already on it.
pub open spec fn prepended_path(paths: Seq<Seq<char>>, dir: Seq<char>) -> Option<Seq<Seq<char>>> {
    if paths.contains(dir) {
        None
    } else {
        Some(seq![dir] + paths)
    }
}

/// The shell pipeline that installs the package manager: with curl where it is
/// there, else with wget, else none.
pub open spec fn installer_script_of(has_curl: bool, has_wget: bool) -> Option<Seq<char>> {
    if has_curl {
        Some("curl -LsSf https://astral.sh/uv/install.sh | sh"@)
    } else if has_wget {
        Some("wget -qO- https://astral.sh/uv/install.sh | sh"@)
    } else {
        None
    }
}

/// The directories where the package manager's installer puts its executable.
pub fn uv_candidate_dirs(home: Option<&str>) -> (r: Vec<String>)
    ensures
        r@.map_values(|s: String| s@) == candidate_dirs_of(
            match home {
                Some(h) => Some(h@),
                None => None,
            },
        ),
{
    let mut r: Vec<String> = Vec::new();
    if let Some(h) = home {
        let mut local = String::from_str(h);
        local.append("/.local/bin");
        let mut cargo = String::from_str(h);
        cargo.append("/.cargo/bin");
        r.push(local);
        r.push(cargo);
    }
    proof {
        assert(r@.map_values(|s: String| s@) =~= candidate_dirs_of(
            match home {
                Some(h) => Some(h@),
                None => None,
            },
        ));
    }
    r
}

/// The search path with `dir` put first, or `None` where it is already on it.
pub fn prepend_path_dir(paths: &Vec<String>, dir: &str) -> (r: Option<Vec<String>>)
    ensures
        match r {
            Some(v) => prepended_path(paths@.map_values(|s: String| s@), dir@) == Some(
                v@.map_values(|s: String| s@),
            ),
            None => prepended_path(paths@.map_values(|s: String| s@), dir@) is None,
        },
{
    let ghost views = paths@.map_values(|s: String| s@);
    let target = String::from_str(dir);
    let mut k: usize = 0;
    while k < paths.len()
        invariant
            views == paths@.map_values(|s: String| s@),
            target@ == dir@,
            k <= paths@.len(),
            forall|j: int| 0 <= j < k ==> views[j] != dir@,
        decreases paths@.len() - k,
    {
        if paths[k] == target {
            proof {
                assert(views[k as int] == dir@);
            }
            return None;
        }
        k = k + 1;
    }
    let mut r: Vec<String> = Vec::new();
    r.push(target);
    let mut k: usize = 0;
    while k < paths.len()
        invariant
            views == paths@.map_values(|s: String| s@),
            k <= paths@.len(),
            r@.map_values(|s: String| s@) == seq![dir@] + views.subrange(0, k as int),
        decreases paths@.len() - k,
    {
        let ghost prev = r@;
        r.push(paths[k].clone());
        proof {
            assert(r@.map_values(|s: String| s@) =~= prev.map_values(|s: String| s@).push(
                views[k as int],
            ));
            assert(views.subrange(0, k + 1) =~= views.subrange(0, k as int).push(views[k as int]));
        }
        k = k + 1;
    }
    proof {
        assert(views.subrange(0, k as int) =~= views);
        assert(!views.contains(dir@));
    }
    Some(r)
}

/// The shell pipeline that installs the package manager: with curl where it is
/// there, else with wget, else none.
pub fn uv_installer_script(has_curl: bool, has_wget: bool) -> (r: Option<&'static str>)
    ensures
        match r {
            Some(s) => installer_script_of(has_curl, has_wget) == Some(s@),
            None => installer_script_of(has_curl, has_wget) is None,
        },
{
    if has_curl {
        Some("curl -LsSf https://astral.sh/uv/install.sh | sh")
    } else if has_wget {
        Some("wget -qO- https://astral.sh/uv/install.sh | sh")
    } else {
        None
    }
}

} // verus!
