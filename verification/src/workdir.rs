//! The directory Terraform runs in, and the check that the selected
//! resources share it.
use vstd::prelude::*;
use vstd::string::*;
use crate::error::{strings_view, TfocusError, TfocusErrorView};
use crate::paths::{compare_paths, parent_of, path_order, path_parent};
use crate::types::{resources_view, Resource, ResourceView};

verus! {

/// The directory of a file: its parent, or `.` when it has none.
pub open spec fn working_dir_of(file: Seq<char>) -> Seq<char> {
    match path_parent(file) {
        Some(p) => p,
        None => "."@,
    }
}

/// The file paths of a sequence of resources.
pub open spec fn resource_files(rs: Seq<ResourceView>) -> Seq<Seq<char>> {
    rs.map_values(|r: ResourceView| r.file_path)
}

/// Inserts `d` into `dirs`, kept in path order, unless a path equal to it
/// is already there (an ordered set of paths).
pub open spec fn insert_dir(dirs: Seq<Seq<char>>, d: Seq<char>) -> Seq<Seq<char>>
    decreases dirs.len(),
{
    if dirs.len() == 0 {
        seq![d]
    } else if path_order(d, dirs[0]) == 0 {
        dirs
    } else if path_order(d, dirs[0]) < 0 {
        seq![d] + dirs
    } else {
        seq![dirs[0]] + insert_dir(dirs.drop_first(), d)
    }
}

/// The distinct directories of `files`, in path order, each kept as it was
/// first met.
pub open spec fn distinct_dirs(files: Seq<Seq<char>>) -> Seq<Seq<char>>
    decreases files.len(),
{
    if files.len() == 0 {
        seq![]
    } else {
        insert_dir(distinct_dirs(files.drop_last()), working_dir_of(files.last()))
    }
}

/// Each directory comes before the next in path order (so no two are the
/// same path).
pub open spec fn strictly_ordered(dirs: Seq<Seq<char>>) -> bool {
    forall|i: int, j: int| 0 <= i < j < dirs.len() ==> #[trigger] path_order(dirs[i], dirs[j]) < 0
}

/// `dirs` holds `d`, or a path equal to it.
pub open spec fn represents(dirs: Seq<Seq<char>>, d: Seq<char>) -> bool {
    exists|k: int| 0 <= k < dirs.len() && (dirs[k] == d || path_order(d, dirs[k]) == 0)
}

/// `dirs` lists the directories of `files` in strictly increasing path
/// order: each listed directory is that of some file, and the directory of
/// every file is listed.
pub open spec fn lists_directories_of(dirs: Seq<Seq<char>>, files: Seq<Seq<char>>) -> bool {
    &&& strictly_ordered(dirs)
    &&& forall|k: int|
        #![trigger dirs[k]]
        0 <= k < dirs.len() ==> exists|i: int|
            0 <= i < files.len() && #[trigger] working_dir_of(files[i]) == dirs[k]
    &&& forall|i: int| 0 <= i < files.len() ==> represents(dirs, working_dir_of(#[trigger] files[i]))
}

/// The distinct working directories of some resources.
pub open spec fn resource_dirs(rs: Seq<ResourceView>) -> Seq<Seq<char>> {
    distinct_dirs(resource_files(rs))
}

/// Every file after the first lies in a directory equal (as a path) to that
/// of the first.
pub open spec fn same_directory(files: Seq<Seq<char>>) -> bool {
    forall|i: int|
        1 <= i < files.len() ==> path_order(
            working_dir_of(#[trigger] files[i]),
            working_dir_of(files[0]),
        ) == 0
}

/// The directory of `file`.
fn dir_of(file: &str) -> (d: String)
    ensures
        d@ == working_dir_of(file@),
{
    match parent_of(file) {
        Some(p) => p,
        None => String::from_str("."),
    }
}

proof fn lemma_insert_dir_skip(s: Seq<Seq<char>>, d: Seq<char>, j: int)
    requires
        0 <= j < s.len(),
        path_order(d, s[j]) > 0,
    ensures
        s.take(j) + insert_dir(s.skip(j), d) == s.take(j + 1) + insert_dir(s.skip(j + 1), d),
{
    let t = s.skip(j);
    assert(t[0] == s[j]);
    assert(t.drop_first() =~= s.skip(j + 1));
    assert(insert_dir(t, d) == seq![s[j]] + insert_dir(s.skip(j + 1), d));
    assert(s.take(j + 1) =~= s.take(j) + seq![s[j]]);
    assert(s.take(j) + (seq![s[j]] + insert_dir(s.skip(j + 1), d)) =~= s.take(j + 1)
        + insert_dir(s.skip(j + 1), d));
}

proof fn lemma_insert_members(s: Seq<Seq<char>>, d: Seq<char>, j: int)
    requires
        0 <= j <= s.len(),
    ensures
        forall|k: int| 0 <= k < s.len() ==> (s.take(j) + seq![d] + s.skip(j)).contains(s[k]),
        forall|k: int|
            0 <= k < s.len() + 1 ==> s.contains((s.take(j) + seq![d] + s.skip(j))[k]) || (s.take(j)
                + seq![d] + s.skip(j))[k] == d,
        represents(s.take(j) + seq![d] + s.skip(j), d),
{
    let n = s.take(j) + seq![d] + s.skip(j);
    assert(n.len() == s.len() + 1);
    assert forall|k: int| 0 <= k < s.len() implies n.contains(s[k]) by {
        if k < j {
            assert(n[k] == s[k]);
        } else {
            assert(n[k + 1] == s[k]);
        }
    }
    assert forall|k: int| 0 <= k < s.len() + 1 implies s.contains(n[k]) || n[k] == d by {
        if k < j {
            assert(n[k] == s[k]);
        } else if k > j {
            assert(n[k] == s[k - 1]);
        }
    }
    assert(n[j] == d);
}

proof fn lemma_insert_ordered(s: Seq<Seq<char>>, d: Seq<char>, j: int)
    requires
        0 <= j <= s.len(),
        strictly_ordered(s),
        forall|k: int| 0 <= k < j ==> path_order(s[k], d) < 0,
        forall|m: int| j <= m < s.len() ==> path_order(d, s[m]) < 0,
    ensures
        strictly_ordered(s.take(j) + seq![d] + s.skip(j)),
{
    let n = s.take(j) + seq![d] + s.skip(j);
    assert forall|a: int, b: int| 0 <= a < b < n.len() implies #[trigger] path_order(n[a], n[b])
        < 0 by {
        if b < j {
            assert(n[a] == s[a] && n[b] == s[b]);
            assert(path_order(s[a], s[b]) < 0);
        } else if b == j {
            assert(n[a] == s[a] && n[b] == d);
        } else if a < j {
            assert(n[a] == s[a] && n[b] == s[b - 1]);
            assert(path_order(s[a], s[b - 1]) < 0);
        } else if a == j {
            assert(n[a] == d && n[b] == s[b - 1]);
        } else {
            assert(n[a] == s[a - 1] && n[b] == s[b - 1]);
            assert(path_order(s[a - 1], s[b - 1]) < 0);
        }
    }
}

/// Inserts the directory `d` into the ordered set `dirs`.
fn insert_sorted(dirs: &mut Vec<String>, d: String)
    ensures
        strings_view(final(dirs)@) == insert_dir(strings_view(old(dirs)@), d@),
        strictly_ordered(strings_view(old(dirs)@)) ==> strictly_ordered(
            strings_view(final(dirs)@),
        ),
        forall|k: int|
            0 <= k < strings_view(old(dirs)@).len() ==> strings_view(final(dirs)@).contains(
                strings_view(old(dirs)@)[k],
            ),
        forall|k: int|
            0 <= k < strings_view(final(dirs)@).len() ==> strings_view(old(dirs)@).contains(
                strings_view(final(dirs)@)[k],
            ) || strings_view(final(dirs)@)[k] == d@,
        represents(strings_view(final(dirs)@), d@),
{
    let ghost s = strings_view(dirs@);
    let mut j: usize = 0;
    assert(s.take(0) + insert_dir(s.skip(0), d@) =~= insert_dir(s, d@)) by {
        assert(s.skip(0) =~= s);
    }
    while j < dirs.len()
        invariant
            0 <= j <= dirs.len(),
            s == strings_view(dirs@),
            s == strings_view(old(dirs)@),
            insert_dir(s, d@) == s.take(j as int) + insert_dir(s.skip(j as int), d@),
            forall|k: int| 0 <= k < j ==> path_order(s[k], d@) < 0,
        decreases dirs.len() - j,
    {
        let c = compare_paths(d.as_str(), dirs[j].as_str());
        let ghost t = s.skip(j as int);
        assert(t[0] == s[j as int]);
        assert(dirs@[j as int]@ == s[j as int]);
        if c == 0 {
            assert(insert_dir(t, d@) == t);
            assert(s.take(j as int) + t =~= s);
            proof {
                assert forall|k: int| 0 <= k < s.len() implies s.contains(s[k]) by {}
                assert(s[j as int] == s[j as int] && path_order(d@, s[j as int]) == 0);
            }
            return;
        }
        if c < 0 {
            assert(insert_dir(t, d@) == seq![d@] + t);
            proof {
                lemma_insert_members(s, d@, j as int);
                if strictly_ordered(s) {
                    assert forall|m: int| j <= m < s.len() implies path_order(d@, s[m]) < 0 by {
                        if m > j {
                            assert(path_order(s[j as int], s[m]) < 0);
                        }
                    }
                    lemma_insert_ordered(s, d@, j as int);
                }
            }
            dirs.insert(j, d);
            assert(strings_view(dirs@) =~= s.take(j as int) + (seq![d@] + t));
            assert(s.take(j as int) + (seq![d@] + t) =~= s.take(j as int) + seq![d@] + s.skip(
                j as int,
            ));
            return;
        }
        proof {
            lemma_insert_dir_skip(s, d@, j as int);
        }
        j = j + 1;
    }
    assert(s.skip(j as int) =~= Seq::<Seq<char>>::empty());
    assert(s.take(j as int) =~= s);
    proof {
        lemma_insert_members(s, d@, j as int);
        if strictly_ordered(s) {
            lemma_insert_ordered(s, d@, j as int);
        }
    }
    dirs.push(d);
    assert(strings_view(dirs@) =~= s + seq![d@]);
    assert(s + seq![d@] =~= s.take(j as int) + seq![d@] + s.skip(j as int));
}

/// The distinct working directories of `resources`, in path order.
pub fn unique_directories(resources: &[Resource]) -> (dirs: Vec<String>)
    ensures
        strings_view(dirs@) == resource_dirs(resources_view(resources@)),
        lists_directories_of(
            resource_dirs(resources_view(resources@)),
            resource_files(resources_view(resources@)),
        ),
{
    let ghost files = resource_files(resources_view(resources@));
    let mut dirs: Vec<String> = Vec::new();
    let n = resources.len();
    assert(files.take(0) =~= Seq::<Seq<char>>::empty());
    assert(strings_view(dirs@) =~= Seq::<Seq<char>>::empty());
    assert(lists_directories_of(strings_view(dirs@), files.take(0)));
    for i in 0..n
        invariant
            n == resources@.len(),
            files == resource_files(resources_view(resources@)),
            strings_view(dirs@) == distinct_dirs(files.take(i as int)),
            lists_directories_of(strings_view(dirs@), files.take(i as int)),
    {
        let d = dir_of(resources[i].file_path.as_str());
        let ghost o = strings_view(dirs@);
        let ghost fo = files.take(i as int);
        let ghost ft = files.take(i + 1);
        insert_sorted(&mut dirs, d);
        assert(files.take(i + 1).drop_last() =~= files.take(i as int));
        assert(files[i as int] == resources@[i as int].file_path@);
        proof {
            let n = strings_view(dirs@);
            assert(ft[i as int] == files[i as int]);
            assert forall|k: int| #![trigger n[k]] 0 <= k < n.len() implies exists|i2: int|
                0 <= i2 < ft.len() && #[trigger] working_dir_of(ft[i2]) == n[k] by {
                if n[k] == d@ {
                    assert(working_dir_of(ft[i as int]) == n[k]);
                } else {
                    assert(o.contains(n[k]));
                    let m = choose|m: int| 0 <= m < o.len() && o[m] == n[k];
                    let i2 = choose|i2: int|
                        0 <= i2 < fo.len() && #[trigger] working_dir_of(fo[i2]) == o[m];
                    assert(ft[i2] == fo[i2]);
                    assert(working_dir_of(ft[i2]) == n[k]);
                }
            }
            assert forall|i2: int| 0 <= i2 < ft.len() implies represents(
                n,
                working_dir_of(#[trigger] ft[i2]),
            ) by {
                if i2 < i {
                    assert(ft[i2] == fo[i2]);
                    let x = working_dir_of(fo[i2]);
                    assert(represents(o, x));
                    let k = choose|k: int| 0 <= k < o.len() && (o[k] == x || path_order(x, o[k]) == 0);
                    assert(n.contains(o[k]));
                    let m = choose|m: int| 0 <= m < n.len() && n[m] == o[k];
                    assert(n[m] == x || path_order(x, n[m]) == 0);
                }
            }
        }
    }
    assert(files.take(n as int) =~= files);
    dirs
}

/// The directory Terraform runs in: that of the first resource. Fails when
/// there is no resource, or when the resources lie in more than one
/// directory (listing them, in path order).
pub fn get_working_directory(resources: &[Resource]) -> (res: Result<String, TfocusError>)
    ensures
        resources@.len() > 0 ==> lists_directories_of(
            resource_dirs(resources_view(resources@)),
            resource_files(resources_view(resources@)),
        ),
        match res {
            Ok(d) => {
                &&& resources@.len() > 0
                &&& resource_dirs(resources_view(resources@)).len() <= 1
                &&& d@ == working_dir_of(resources@[0].file_path@)
            },
            Err(e) => if resources@.len() == 0 {
                e@ == TfocusErrorView::ParseError("No resources specified"@)
            } else {
                &&& resource_dirs(resources_view(resources@)).len() > 1
                &&& e@ == TfocusErrorView::MixedWorkingDirectories(
                    resource_dirs(resources_view(resources@)),
                )
            },
        },
{
    if resources.len() == 0 {
        return Err(TfocusError::ParseError(String::from_str("No resources specified")));
    }
    let dirs = unique_directories(resources);
    if dirs.len() > 1 {
        return Err(TfocusError::MixedWorkingDirectories(dirs));
    }
    Ok(dir_of(resources[0].file_path.as_str()))
}

/// Succeeds when the resources lie in at most one directory; otherwise
/// fails listing the directories, in path order.
pub fn validate_single_working_directory(resources: &[Resource]) -> (res: Result<(), TfocusError>)
    ensures
        lists_directories_of(
            resource_dirs(resources_view(resources@)),
            resource_files(resources_view(resources@)),
        ),
        match res {
            Ok(()) => resource_dirs(resources_view(resources@)).len() <= 1,
            Err(e) => {
                &&& resource_dirs(resources_view(resources@)).len() > 1
                &&& e@ == TfocusErrorView::MixedWorkingDirectories(
                    resource_dirs(resources_view(resources@)),
                )
            },
        },
{
    let dirs = unique_directories(resources);
    if dirs.len() <= 1 {
        return Ok(());
    }
    Err(TfocusError::MixedWorkingDirectories(dirs))
}

proof fn lemma_insert_dir_grows(s: Seq<Seq<char>>, d: Seq<char>)
    ensures
        insert_dir(s, d).len() >= s.len(),
    decreases s.len(),
{
    if s.len() > 0 && path_order(d, s[0]) > 0 {
        lemma_insert_dir_grows(s.drop_first(), d);
    }
}

proof fn lemma_distinct_dirs_single(files: Seq<Seq<char>>)
    requires
        files.len() > 0,
    ensures
        distinct_dirs(files).len() <= 1 <==> same_directory(files),
        distinct_dirs(files).len() <= 1 ==> distinct_dirs(files) == seq![working_dir_of(files[0])],
    decreases files.len(),
{
    let prefix = files.drop_last();
    let d = working_dir_of(files.last());
    if files.len() == 1 {
        assert(distinct_dirs(prefix) =~= Seq::<Seq<char>>::empty());
    } else {
        lemma_distinct_dirs_single(prefix);
        let dd = distinct_dirs(prefix);
        lemma_insert_dir_grows(dd, d);
        assert(distinct_dirs(files) == insert_dir(dd, d));
        assert(prefix[0] == files[0]);
        assert(files.last() == files[files.len() - 1]);
        if dd.len() <= 1 {
            let w = working_dir_of(files[0]);
            assert(dd == seq![w]);
            assert(dd.drop_first() =~= Seq::<Seq<char>>::empty());
            if path_order(d, w) == 0 {
                assert forall|i: int| 1 <= i < files.len() implies path_order(
                    working_dir_of(#[trigger] files[i]),
                    working_dir_of(files[0]),
                ) == 0 by {
                    if i < files.len() - 1 {
                        assert(files[i] == prefix[i]);
                    }
                }
            } else {
                assert(insert_dir(dd.drop_first(), d) == seq![d]);
                assert(insert_dir(dd, d).len() == 2);
                assert(!(path_order(working_dir_of(files[files.len() - 1]), w) == 0));
            }
        } else {
            assert(!same_directory(prefix));
            let k = choose|i: int| 1 <= i < prefix.len() && !(path_order(
                working_dir_of(#[trigger] prefix[i]),
                working_dir_of(prefix[0]),
            ) == 0);
            assert(files[k] == prefix[k]);
        }
    }
}

/// The selected resources pass the single-directory check exactly when the
/// directory of every resource equals (as a path) that of the first; and
/// then the one directory is that of the first resource, the directory
/// `get_working_directory` returns.
pub proof fn lemma_single_directory(rs: Seq<ResourceView>)
    ensures
        resource_dirs(rs).len() <= 1 <==> same_directory(resource_files(rs)),
        rs.len() > 0 && resource_dirs(rs).len() <= 1 ==> resource_dirs(rs) == seq![
            working_dir_of(rs[0].file_path),
        ],
{
    let files = resource_files(rs);
    if rs.len() > 0 {
        lemma_distinct_dirs_single(files);
        assert(files[0] == rs[0].file_path);
    } else {
        assert(files =~= Seq::<Seq<char>>::empty());
        assert(distinct_dirs(files) =~= Seq::<Seq<char>>::empty());
    }
}

} // verus!
