//! `rm`: which paths to remove, which of them may not be removed, and the
//! messages that say why.
use vstd::prelude::*;
use crate::text::{texts, copy_str, push_str, str_eq};
use crate::errors::error::Error;
use crate::paths::path_prefixed;
use crate::vcs::index::entry::Entry;
use crate::vcs::index::index::Index;
use crate::commands::status::index_paths;

verus! {

/// The `rm` command.
pub struct RmCommand;

/// Why a path may not be removed.
#[derive(Debug, Clone, Copy, PartialEq, Eq, Structural)]
pub enum RmProblem {
    /// Staged content differs from both the file and HEAD.
    Both,
    /// Changes are staged in the index.
    Staged,
    /// The file has local modifications.
    Unstaged,
    /// Nothing stands in the way.
    Clear,
}

/// The lines of listed paths, each behind four spaces.
pub open spec fn path_lines(paths: Seq<Seq<char>>) -> Seq<char>
    decreases paths.len(),
{
    if paths.len() == 0 {
        Seq::empty()
    } else {
        path_lines(paths.drop_last()) + "    "@ + paths.last() + "\n"@
    }
}

/// One section of the refusal: a heading that says how many files, and
/// the files; nothing when there are none.
pub open spec fn error_section(paths: Seq<Seq<char>>, message: Seq<char>) -> Seq<char> {
    if paths.len() == 0 {
        Seq::empty()
    } else {
        "error: the following "@ + (if paths.len() == 1 { "file has"@ } else { "files have"@ }) + " "@ + message + ":\n"@
            + path_lines(paths)
    }
}

/// The index paths under the directory `dir` (component-wise), in order.
pub open spec fn paths_under(paths: Seq<Seq<char>>, dir: Seq<char>) -> Seq<Seq<char>> {
    paths.filter(|p: Seq<char>| path_prefixed(p, dir))
}

/// The paths to remove and the ones that are not tracked: a directory
/// argument removed recursively stands for the index paths under it (none
/// of them makes it untracked); another argument must be in the index.
/// Each path to remove comes once, where it first came.
pub open spec fn planned(args: Seq<Seq<char>>, recursive_dir: Seq<bool>, paths: Seq<Seq<char>>) -> (Seq<Seq<char>>, Seq<Seq<char>>)
    decreases args.len(),
{
    if args.len() == 0 || recursive_dir.len() < args.len() {
        (Seq::empty(), Seq::empty())
    } else {
        let (remove, untracked) = planned(args.drop_last(), recursive_dir.take(args.len() - 1), paths);
        let a = args.last();
        if recursive_dir[args.len() - 1] {
            let under = paths_under(paths, a);
            if under.len() == 0 {
                (remove, untracked.push(a))
            } else {
                (crate::commands::add::add_distinct(remove, under), untracked)
            }
        } else if !paths.contains(a) {
            (remove, untracked.push(a))
        } else {
            (crate::commands::add::add_distinct(remove, seq![a]), untracked)
        }
    }
}

/// Appends the listed lines of `paths`.
fn push_path_lines(m: &mut String, paths: &Vec<String>)
    ensures
        final(m)@ == old(m)@ + path_lines(texts(paths@)),
{
    let mut i: usize = 0;
    while i < paths.len()
        invariant
            i <= paths@.len(),
            m@ == old(m)@ + path_lines(texts(paths@).take(i as int)),
        decreases paths@.len() - i,
    {
        push_str(m, "    ");
        push_str(m, paths[i].as_str());
        push_str(m, "\n");
        assert(texts(paths@).take(i + 1).drop_last() =~= texts(paths@).take(i as int));
        assert(texts(paths@).take(i + 1).last() == paths@[i as int]@);
        i += 1;
    }
    assert(texts(paths@).take(paths@.len() as int) =~= texts(paths@));
}

impl RmCommand {
    /// Refuses an empty list of paths.
    pub fn check_paths(paths: &Vec<String>) -> (r: Result<(), Error>)
        ensures
            r is Ok <==> paths@.len() > 0,
            r matches Err(Error::Generic(m)) ==> m@ == "No paths specified for removal"@,
            r is Err ==> r matches Err(Error::Generic(_)),
    {
        if paths.len() == 0 {
            return Err(Error::Generic(copy_str("No paths specified for removal")));
        }
        Ok(())
    }

    /// The error when the index lock cannot be taken.
    pub fn lock_error() -> (e: Error)
        ensures
            e matches Error::Lock(m) && m@ == "Unable to acquire lock on index. Another process may be using it."@,
    {
        Error::Lock(copy_str("Unable to acquire lock on index. Another process may be using it."))
    }

    /// The index paths under a directory, in order.
    pub fn expand_directory_paths(index: &Index, dir_path: &str) -> (r: Vec<String>)
        ensures
            texts(r@) == paths_under(index_paths(index), dir_path@),
    {
        let entries = index.each_entry();
        let ghost ps = index_paths(index);
        let ghost pred = |p: Seq<char>| path_prefixed(p, dir_path@);
        let mut r: Vec<String> = Vec::new();
        let mut i: usize = 0;
        assert(ps.take(0).filter(pred) =~= Seq::<Seq<char>>::empty()) by {
            reveal(Seq::filter);
        }
        while i < entries.len()
            invariant
                i <= entries@.len(),
                entries@.map_values(|e: Entry| crate::vcs::index::index::entry_view(e)) == index.view_entries(),
                ps == index_paths(index),
                pred == (|p: Seq<char>| path_prefixed(p, dir_path@)),
                texts(r@) == ps.take(i as int).filter(pred),
            decreases entries@.len() - i,
        {
            let p = entries[i].get_path();
            assert(ps[i as int] == p@);
            assert(ps.take(i + 1).drop_last() =~= ps.take(i as int));
            assert(ps.take(i + 1).last() == p@);
            proof {
                reveal(Seq::filter);
            }
            if crate::paths::path_starts_with(p, dir_path) {
                let ghost before = texts(r@);
                r.push(copy_str(p));
                assert(texts(r@) =~= before.push(p@));
            }
            i += 1;
        }
        assert(ps.take(entries@.len() as int) =~= ps);
        r
    }

    /// Adds paths not yet listed.
    fn add_new(list: &mut Vec<String>, extra: &Vec<String>)
        ensures
            texts(final(list)@) == crate::commands::add::add_distinct(texts(old(list)@), texts(extra@)),
    {
        let mut i: usize = 0;
        assert(texts(extra@).take(0) =~= Seq::<Seq<char>>::empty());
        while i < extra.len()
            invariant
                i <= extra@.len(),
                texts(list@) == crate::commands::add::add_distinct(texts(old(list)@), texts(extra@).take(i as int)),
            decreases extra@.len() - i,
        {
            assert(texts(extra@).take(i + 1).drop_last() =~= texts(extra@).take(i as int));
            assert(texts(extra@).take(i + 1).last() == extra@[i as int]@);
            let mut present = false;
            let mut k: usize = 0;
            while k < list.len()
                invariant
                    k <= list@.len(),
                    i < extra@.len(),
                    present == exists|j: int| 0 <= j < k && #[trigger] texts(list@)[j] == extra@[i as int]@,
                decreases list@.len() - k,
            {
                if str_eq(list[k].as_str(), extra[i].as_str()) {
                    assert(texts(list@)[k as int] == extra@[i as int]@);
                    present = true;
                }
                k += 1;
            }
            if !present {
                let ghost before = texts(list@);
                list.push(copy_str(extra[i].as_str()));
                assert(texts(list@) =~= before.push(extra@[i as int]@));
            }
            i += 1;
        }
        assert(texts(extra@).take(extra@.len() as int) =~= texts(extra@));
    }

    /// The paths to remove and the untracked ones (see `planned`);
    /// `recursive_dir` says of each argument whether it is an existing
    /// directory removed recursively.
    pub fn plan_removals(args: &Vec<String>, recursive_dir: &Vec<bool>, index: &Index) -> (r: (Vec<String>, Vec<String>))
        requires
            index.wf(),
            recursive_dir@.len() == args@.len(),
        ensures
            (texts(r.0@), texts(r.1@)) == planned(texts(args@), recursive_dir@, index_paths(index)),
    {
        let ghost ps = index_paths(index);
        let mut remove: Vec<String> = Vec::new();
        let mut untracked: Vec<String> = Vec::new();
        let mut i: usize = 0;
        while i < args.len()
            invariant
                i <= args@.len(),
                recursive_dir@.len() == args@.len(),
                index.wf(),
                ps == index_paths(index),
                (texts(remove@), texts(untracked@)) == planned(texts(args@).take(i as int), recursive_dir@.take(i as int), ps),
            decreases args@.len() - i,
        {
            let a = args[i].as_str();
            proof {
                assert(texts(args@).take(i + 1).drop_last() =~= texts(args@).take(i as int));
                assert(recursive_dir@.take(i + 1).take(i as int) =~= recursive_dir@.take(i as int));
                assert(texts(args@).take(i + 1).last() == a@);
            }
            if recursive_dir[i] {
                let under = Self::expand_directory_paths(index, a);
                if under.len() == 0 {
                    let ghost before = texts(untracked@);
                    untracked.push(copy_str(a));
                    assert(texts(untracked@) =~= before.push(a@));
                } else {
                    Self::add_new(&mut remove, &under);
                }
            } else {
                let t = index.is_tracked(a);
                proof {
                    if t {
                        let k = choose|k: int| 0 <= k < index.view_entries().len() && #[trigger] index.view_entries()[k].3 == a@;
                        assert(ps[k] == a@);
                    }
                    if ps.contains(a@) {
                        let k = choose|k: int| 0 <= k < ps.len() && ps[k] == a@;
                        assert(index.view_entries()[k].3 == a@);
                    }
                }
                if !t {
                    let ghost before = texts(untracked@);
                    untracked.push(copy_str(a));
                    assert(texts(untracked@) =~= before.push(a@));
                } else {
                    let mut one: Vec<String> = Vec::new();
                    one.push(copy_str(a));
                    assert(texts(one@) =~= seq![a@]);
                    Self::add_new(&mut remove, &one);
                }
            }
            i += 1;
        }
        assert(texts(args@).take(args@.len() as int) =~= texts(args@));
        assert(recursive_dir@.take(recursive_dir@.len() as int) =~= recursive_dir@);
        (remove, untracked)
    }

    /// What stands in the way of removing a path, from whether it has
    /// changes staged against HEAD and changes against the workspace: both;
    /// staged ones (unless only the index is changed); unstaged ones (same).
    pub fn classify(staged: bool, unstaged: bool, cached: bool) -> (r: RmProblem)
        ensures
            r == (if staged && unstaged {
                RmProblem::Both
            } else if staged && !cached {
                RmProblem::Staged
            } else if unstaged && !cached {
                RmProblem::Unstaged
            } else {
                RmProblem::Clear
            }),
    {
        if staged && unstaged {
            RmProblem::Both
        } else if staged && !cached {
            RmProblem::Staged
        } else if unstaged && !cached {
            RmProblem::Unstaged
        } else {
            RmProblem::Clear
        }
    }

    /// The refusal for untracked paths.
    pub fn format_untracked_error(paths: &Vec<String>) -> (s: String)
        ensures
            s@ == "The following file(s) are not tracked:\n"@ + path_lines(texts(paths@)),
    {
        let mut m = copy_str("The following file(s) are not tracked:\n");
        push_path_lines(&mut m, paths);
        m
    }

    /// One section of the refusal.
    pub fn format_error_section(paths: &Vec<String>, message: &str) -> (s: String)
        ensures
            s@ == error_section(texts(paths@), message@),
    {
        if paths.len() == 0 {
            return String::new();
        }
        let mut m = copy_str("error: the following ");
        push_str(&mut m, if paths.len() == 1 { "file has" } else { "files have" });
        push_str(&mut m, " ");
        push_str(&mut m, message);
        push_str(&mut m, ":\n");
        push_path_lines(&mut m, paths);
        m
    }

    /// The refusal to remove paths with changes, or none when no path has
    /// any: the three sections, and the hint about `--force` unless forced.
    pub fn problems_error(both: &Vec<String>, staged: &Vec<String>, unstaged: &Vec<String>, force: bool) -> (r: Option<Error>)
        ensures
            both@.len() == 0 && staged@.len() == 0 && unstaged@.len() == 0 <==> r is None,
            r is Some ==> (r matches Some(Error::Generic(m)) && m@ ==
                error_section(texts(both@), "staged content different from both the file and the HEAD"@)
                + error_section(texts(staged@), "changes staged in the index"@)
                + error_section(texts(unstaged@), "local modifications"@)
                + (if !force { "\nuse --force to override this check\n"@ } else { Seq::empty() })),
    {
        if both.len() == 0 && staged.len() == 0 && unstaged.len() == 0 {
            return None;
        }
        let mut m = Self::format_error_section(both, "staged content different from both the file and the HEAD");
        let s2 = Self::format_error_section(staged, "changes staged in the index");
        push_str(&mut m, s2.as_str());
        let s3 = Self::format_error_section(unstaged, "local modifications");
        push_str(&mut m, s3.as_str());
        if !force {
            push_str(&mut m, "\nuse --force to override this check\n");
        }
        Some(Error::Generic(m))
    }
}

} // verus!
