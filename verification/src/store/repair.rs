//! Repairing rows read back from storage that hold more than one default
//! folder: the default folder with the smallest id stays, the others are
//! deleted with their links.
use vstd::prelude::*;

use super::folders::copy_folder;
use super::links::{copy_link, id_in};
use super::seqs::{lemma_filter_members, lemma_filter_pairwise, lemma_filter_step};
use super::{FolderEntryRow, FolderView, LinkView, folders_view, links_view};
use crate::models::Folder;

verus! {

/// The smallest id of a default folder, if there is one.
pub open spec fn min_default_id(fs: Seq<FolderView>) -> Option<i64>
    decreases fs.len(),
{
    if fs.len() == 0 {
        None
    } else {
        let m = min_default_id(fs.drop_last());
        let f = fs.last();
        if !f.is_default {
            m
        } else {
            match m {
                None => Some(f.id),
                Some(x) => Some(if f.id < x {
                    f.id
                } else {
                    x
                }),
            }
        }
    }
}

/// Whether `f` is a default folder other than the one with the smallest id.
pub open spec fn surplus_default(fs: Seq<FolderView>, f: FolderView) -> bool {
    f.is_default && Some(f.id) != min_default_id(fs)
}

/// Whether a link belongs to a surplus default folder.
pub open spec fn surplus_link(fs: Seq<FolderView>, l: LinkView) -> bool {
    exists|i: int| 0 <= i < fs.len() && surplus_default(fs, fs[i]) && fs[i].id == l.folder_id
}

/// The folders that the repair keeps.
pub open spec fn repaired_folders(fs: Seq<FolderView>) -> Seq<FolderView> {
    fs.filter(|f: FolderView| !surplus_default(fs, f))
}

/// The links that the repair keeps.
pub open spec fn repaired_links(fs: Seq<FolderView>, ls: Seq<LinkView>) -> Seq<LinkView> {
    ls.filter(|l: LinkView| !surplus_link(fs, l))
}

proof fn lemma_min_default_step(fs: Seq<FolderView>, i: int)
    requires
        0 <= i < fs.len(),
    ensures
        min_default_id(fs.take(i + 1)) == (if !fs[i].is_default {
            min_default_id(fs.take(i))
        } else {
            match min_default_id(fs.take(i)) {
                None => Some(fs[i].id),
                Some(x) => Some(if fs[i].id < x {
                    fs[i].id
                } else {
                    x
                }),
            }
        }),
{
    assert(fs.take(i + 1).drop_last() =~= fs.take(i));
    assert(fs.take(i + 1).last() == fs[i]);
}

/// The smallest default id belongs to a default folder, and there is one
/// exactly when some folder is the default.
pub proof fn lemma_min_default_id(fs: Seq<FolderView>)
    ensures
        min_default_id(fs) is Some <==> exists|i: int| 0 <= i < fs.len() && fs[i].is_default,
        min_default_id(fs) matches Some(m) ==> exists|i: int|
            0 <= i < fs.len() && fs[i].is_default && fs[i].id == m,
    decreases fs.len(),
{
    if fs.len() > 0 {
        let d = fs.drop_last();
        lemma_min_default_id(d);
        if exists|i: int| 0 <= i < d.len() && d[i].is_default {
            let i = choose|i: int| 0 <= i < d.len() && d[i].is_default;
            assert(fs[i] == d[i]);
        }
        if min_default_id(d) is Some {
            let m = min_default_id(d)->Some_0;
            let i = choose|i: int| 0 <= i < d.len() && d[i].is_default && d[i].id == m;
            assert(fs[i] == d[i]);
        }
        if exists|i: int| 0 <= i < fs.len() && fs[i].is_default {
            let i = choose|i: int| 0 <= i < fs.len() && fs[i].is_default;
            if i < d.len() {
                assert(fs[i] == d[i]);
            }
        }
    }
}

/// Rows from storage with at most one default folder: the default folder
/// with the smallest id stays, every other default folder is deleted, and
/// so are the links of those folders (see `repaired_folders` and
/// `repaired_links`).
pub fn repair_default_folders(folders: Vec<Folder>, links: Vec<FolderEntryRow>) -> (r: (
    Vec<Folder>,
    Vec<FolderEntryRow>,
))
    ensures
        folders_view(r.0@) == repaired_folders(folders_view(folders@)),
        links_view(r.1@) == repaired_links(folders_view(folders@), links_view(links@)),
{
    let ghost fv = folders_view(folders@);
    let ghost lv = links_view(links@);
    let n = folders.len();
    let mut min: Option<i64> = None;
    let mut i: usize = 0;
    while i < n
        invariant
            n == folders@.len(),
            fv == folders_view(folders@),
            i <= n,
            min == min_default_id(fv.take(i as int)),
        decreases n - i,
    {
        proof {
            lemma_min_default_step(fv, i as int);
        }
        if folders[i].is_default {
            let id = folders[i].id;
            min = match min {
                None => Some(id),
                Some(x) => Some(if id < x {
                    id
                } else {
                    x
                }),
            };
        }
        i = i + 1;
    }
    proof {
        assert(fv.take(n as int) =~= fv);
    }
    let ghost keepf = |f: FolderView| !surplus_default(fv, f);
    let mut kept: Vec<Folder> = Vec::new();
    let mut dropped: Vec<i64> = Vec::new();
    let mut i: usize = 0;
    proof {
        assert(folders_view(kept@) =~= fv.take(0).filter(keepf)) by {
            reveal(Seq::filter);
        }
    }
    while i < n
        invariant
            n == folders@.len(),
            fv == folders_view(folders@),
            i <= n,
            min == min_default_id(fv),
            keepf == (|f: FolderView| !surplus_default(fv, f)),
            folders_view(kept@) == fv.take(i as int).filter(keepf),
            forall|x: i64|
                dropped@.contains(x) <==> exists|j: int|
                    0 <= j < i && surplus_default(fv, fv[j]) && fv[j].id == x,
        decreases n - i,
    {
        proof {
            lemma_filter_step(fv, keepf, i as int);
        }
        let surplus = folders[i].is_default && match min {
            Some(m) => folders[i].id != m,
            None => true,
        };
        assert(surplus == surplus_default(fv, fv[i as int]));
        if surplus {
            let ghost before = dropped@;
            dropped.push(folders[i].id);
            proof {
                assert forall|x: i64| dropped@.contains(x) <==> exists|j: int|
                    0 <= j < i + 1 && surplus_default(fv, fv[j]) && fv[j].id == x by {
                    if dropped@.contains(x) {
                        let k = choose|k: int| 0 <= k < dropped@.len() && dropped@[k] == x;
                        if k < before.len() {
                            assert(before[k] == x);
                            assert(before.contains(x));
                        } else {
                            assert(surplus_default(fv, fv[i as int]) && fv[i as int].id == x);
                        }
                    }
                    if exists|j: int| 0 <= j < i + 1 && surplus_default(fv, fv[j]) && fv[j].id == x {
                        let j = choose|j: int|
                            0 <= j < i + 1 && surplus_default(fv, fv[j]) && fv[j].id == x;
                        if j < i {
                            assert(before.contains(x));
                            let k = choose|k: int| 0 <= k < before.len() && before[k] == x;
                            assert(dropped@[k] == x);
                        } else {
                            assert(dropped@[before.len() as int] == x);
                        }
                    }
                }
            }
        } else {
            let c = copy_folder(&folders[i]);
            kept.push(c);
            proof {
                assert(folders_view(kept@) =~= fv.take(i as int).filter(keepf).push(fv[i as int]));
                assert forall|x: i64| dropped@.contains(x) <==> exists|j: int|
                    0 <= j < i + 1 && surplus_default(fv, fv[j]) && fv[j].id == x by {
                    if exists|j: int| 0 <= j < i + 1 && surplus_default(fv, fv[j]) && fv[j].id == x {
                        let j = choose|j: int|
                            0 <= j < i + 1 && surplus_default(fv, fv[j]) && fv[j].id == x;
                        assert(j < i);
                    }
                }
            }
        }
        i = i + 1;
    }
    proof {
        assert(fv.take(n as int) =~= fv);
    }
    let ghost keepl = |l: LinkView| !surplus_link(fv, l);
    let m = links.len();
    let mut kept_links: Vec<FolderEntryRow> = Vec::new();
    let mut k: usize = 0;
    proof {
        assert(links_view(kept_links@) =~= lv.take(0).filter(keepl)) by {
            reveal(Seq::filter);
        }
    }
    while k < m
        invariant
            m == links@.len(),
            lv == links_view(links@),
            k <= m,
            keepl == (|l: LinkView| !surplus_link(fv, l)),
            links_view(kept_links@) == lv.take(k as int).filter(keepl),
            forall|x: i64|
                dropped@.contains(x) <==> exists|j: int|
                    0 <= j < fv.len() && surplus_default(fv, fv[j]) && fv[j].id == x,
        decreases m - k,
    {
        proof {
            lemma_filter_step(lv, keepl, k as int);
        }
        let gone = id_in(&dropped, links[k].folder_id);
        proof {
            assert(gone == surplus_link(fv, lv[k as int]));
        }
        if !gone {
            let c = copy_link(&links[k]);
            kept_links.push(c);
            proof {
                assert(links_view(kept_links@) =~= lv.take(k as int).filter(keepl).push(
                    lv[k as int],
                ));
            }
        }
        k = k + 1;
    }
    proof {
        assert(lv.take(m as int) =~= lv);
    }
    (kept, kept_links)
}

/// After the repair at most one default folder is left, when the folder ids
/// are distinct; and one is left when there was any.
pub proof fn lemma_repair_leaves_one_default(fs: Seq<FolderView>)
    requires
        forall|i: int, j: int| 0 <= i < j < fs.len() ==> fs[i].id != fs[j].id,
    ensures
        forall|i: int, j: int|
            0 <= i < j < repaired_folders(fs).len() ==> !(repaired_folders(fs)[i].is_default
                && repaired_folders(fs)[j].is_default),
        (exists|i: int| 0 <= i < fs.len() && fs[i].is_default) ==> exists|i: int|
            0 <= i < repaired_folders(fs).len() && repaired_folders(fs)[i].is_default,
{
    let keepf = |f: FolderView| !surplus_default(fs, f);
    let r = fs.filter(keepf);
    lemma_filter_members(fs, keepf);
    lemma_filter_pairwise(fs, keepf, |a: FolderView, b: FolderView| a.id != b.id);
    lemma_min_default_id(fs);
    assert forall|i: int, j: int| 0 <= i < j < r.len() implies !(r[i].is_default
        && r[j].is_default) by {
        assert(keepf(r[i]));
        assert(keepf(r[j]));
        assert(r[i].id != r[j].id);
    }
    if exists|i: int| 0 <= i < fs.len() && fs[i].is_default {
        let m = min_default_id(fs)->Some_0;
        let i = choose|i: int| 0 <= i < fs.len() && fs[i].is_default && fs[i].id == m;
        super::seqs::lemma_filter_keeps(fs, keepf, i);
        let j = choose|j: int| 0 <= j < r.len() && r[j] == fs[i];
        assert(r[j].is_default);
        assert(repaired_folders(fs)[j].is_default);
    }
}

} // verus!
