//! Building a listing: drop hidden directories, classify every remaining
//! child, put directories before files, and sort each group by name.

use vstd::multiset::Multiset;
use vstd::prelude::*;

use crate::entry::{
    hidden, info_of, is_hidden_name, make_info, EOrderBy, EntryKind, FileInfoData,
    FileInfoView, RawEntry, RawEntryView,
};
use crate::name_order::{lemma_lex_le_total, lemma_lex_le_trans, lex_le, str_le};

verus! {

/// The views of a sequence of classified entries.
pub open spec fn info_views(s: Seq<FileInfoData>) -> Seq<FileInfoView> {
    s.map_values(|f: FileInfoData| f@)
}

/// The views of a sequence of raw entries.
pub open spec fn raw_views(s: Seq<RawEntry>) -> Seq<RawEntryView> {
    s.map_values(|e: RawEntry| e@)
}

/// A raw child the listing keeps as a folder: a directory whose name is not
/// hidden.
pub open spec fn keeps_as_folder(e: RawEntryView) -> bool {
    e.is_dir && !hidden(e.filename)
}

/// A raw child the listing keeps as a file: anything that is not a directory,
/// hidden or not.
pub open spec fn keeps_as_file(e: RawEntryView) -> bool {
    !e.is_dir
}

/// The classified folder records of `es`, in input order.
pub open spec fn folder_infos(es: Seq<RawEntryView>) -> Seq<FileInfoView> {
    es.filter(|e: RawEntryView| keeps_as_folder(e)).map_values(|e: RawEntryView| info_of(e))
}

/// The classified file records of `es`, in input order.
pub open spec fn file_infos(es: Seq<RawEntryView>) -> Seq<FileInfoView> {
    es.filter(|e: RawEntryView| keeps_as_file(e)).map_values(|e: RawEntryView| info_of(e))
}

/// Display names are non-decreasing.
pub open spec fn lex_sorted(s: Seq<FileInfoView>) -> bool {
    forall|i: int, j: int| 0 <= i < j < s.len() ==> lex_le(s[i].name, s[j].name)
}

/// What a listing of the raw children `es` must be: the folder records first,
/// then the file records, each group sorted by name and holding exactly the
/// classified records of its kept children.
pub open spec fn valid_listing(es: Seq<RawEntryView>, rv: Seq<FileInfoView>) -> bool {
    let folders = folder_infos(es);
    let files = file_infos(es);
    let fl = folders.len() as int;
    &&& rv.len() == folders.len() + files.len()
    &&& rv.take(fl).to_multiset() == folders.to_multiset()
    &&& rv.skip(fl).to_multiset() == files.to_multiset()
    &&& lex_sorted(rv.take(fl))
    &&& lex_sorted(rv.skip(fl))
}

proof fn lemma_info_views_insert(s: Seq<FileInfoData>, j: int, x: FileInfoData)
    requires
        0 <= j <= s.len(),
    ensures
        info_views(s.insert(j, x)) =~= info_views(s).insert(j, x@),
{
    s.insert_ensures(j, x);
    info_views(s).insert_ensures(j, x@);
}

proof fn lemma_info_views_remove(s: Seq<FileInfoData>, j: int)
    requires
        0 <= j < s.len(),
    ensures
        info_views(s.remove(j)) =~= info_views(s).remove(j),
{
    s.remove_ensures(j);
    info_views(s).remove_ensures(j);
}

/// Inserts `x` into a sorted vector, keeping it sorted by display name.
fn insert_by_name(v: Vec<FileInfoData>, x: FileInfoData) -> (r: Vec<FileInfoData>)
    requires
        lex_sorted(info_views(v@)),
    ensures
        lex_sorted(info_views(r@)),
        info_views(r@).to_multiset() == info_views(v@).to_multiset().insert(x@),
        r@.len() == v@.len() + 1,
{
    let mut w = v;
    let n = w.len();
    let mut j: usize = 0;
    let mut stop = false;
    while j < n && !stop
        invariant
            j <= n,
            n == w@.len(),
            w@ == v@,
            lex_sorted(info_views(v@)),
            forall|k: int| 0 <= k < j ==> lex_le(info_views(v@)[k].name, x@.name),
            stop ==> j < n && lex_le(x@.name, info_views(v@)[j as int].name),
        decreases n - j, (if stop { 0int } else { 1int }),
    {
        let le = str_le(w[j].name.as_str(), x.name.as_str());
        proof {
            assert(info_views(v@)[j as int] == v@[j as int]@);
        }
        if le {
            j = j + 1;
        } else {
            proof {
                lemma_lex_le_total(info_views(v@)[j as int].name, x@.name);
            }
            stop = true;
        }
    }
    let ghost s_old = info_views(v@);
    let ghost jj = j as int;
    w.insert(j, x);
    proof {
        broadcast use vstd::seq_lib::to_multiset_insert;

        lemma_info_views_insert(v@, jj, x);
        assert(info_views(w@) =~= s_old.insert(jj, x@));
        s_old.insert_ensures(jj, x@);
        let s_new = info_views(w@);
        assert forall|p: int, q: int|
            0 <= p < q < s_new.len() implies lex_le(s_new[p].name, s_new[q].name) by {
            if q < jj {
                assert(s_new[p] == s_old[p] && s_new[q] == s_old[q]);
            } else if p < jj && q == jj {
                assert(s_new[p] == s_old[p] && s_new[q] == x@);
            } else if p < jj && q > jj {
                assert(s_new[p] == s_old[p] && s_new[q] == s_old[q - 1]);
            } else if p == jj && q > jj {
                assert(s_new[p] == x@ && s_new[q] == s_old[q - 1]);
                assert(jj < n);
                assert(lex_le(x@.name, s_old[jj].name));
                if q - 1 > jj {
                    assert(lex_le(s_old[jj].name, s_old[q - 1].name));
                    lemma_lex_le_trans(x@.name, s_old[jj].name, s_old[q - 1].name);
                }
            } else {
                assert(p > jj);
                assert(s_new[p] == s_old[p - 1] && s_new[q] == s_old[q - 1]);
            }
        }
    }
    w
}

/// Sorts a vector of classified entries by display name.
pub fn sort_by_name(v: Vec<FileInfoData>) -> (r: Vec<FileInfoData>)
    ensures
        lex_sorted(info_views(r@)),
        info_views(r@).to_multiset() == info_views(v@).to_multiset(),
{
    let mut rest = v;
    let mut out: Vec<FileInfoData> = Vec::new();
    proof {
        assert(info_views(out@) =~= Seq::<FileInfoView>::empty());
        info_views(out@).to_multiset_ensures();
        assert(info_views(out@).to_multiset() =~= Multiset::<FileInfoView>::empty());
    }
    while rest.len() > 0
        invariant
            lex_sorted(info_views(out@)),
            info_views(out@).to_multiset().add(info_views(rest@).to_multiset()) == info_views(
                v@,
            ).to_multiset(),
        decreases rest@.len(),
    {
        let ghost rest_old = rest@;
        let ghost out_old = out@;
        let x = rest.remove(0);
        proof {
            broadcast use vstd::multiset::group_multiset_axioms;

            lemma_info_views_remove(rest_old, 0);
            assert(info_views(rest@) =~= info_views(rest_old).remove(0));
            info_views(rest_old).to_multiset_ensures();
            assert(info_views(rest_old)[0] == x@);
            assert(info_views(rest@).to_multiset() =~= info_views(rest_old).to_multiset().remove(
                x@,
            ));
            assert(info_views(rest_old).contains(x@));
            assert(info_views(rest_old).to_multiset().count(x@) > 0);
        }
        out = insert_by_name(out, x);
        proof {
            broadcast use vstd::multiset::group_multiset_axioms;

            assert(info_views(out@).to_multiset().add(info_views(rest@).to_multiset())
                =~= info_views(out_old).to_multiset().add(info_views(rest_old).to_multiset()));
        }
    }
    proof {
        broadcast use vstd::multiset::group_multiset_axioms;

        assert(info_views(rest@) =~= Seq::<FileInfoView>::empty());
        info_views(rest@).to_multiset_ensures();
        assert(info_views(rest@).to_multiset() =~= Multiset::<FileInfoView>::empty());
        assert(info_views(out@).to_multiset().add(Multiset::<FileInfoView>::empty())
            =~= info_views(out@).to_multiset());
    }
    out
}

proof fn lemma_info_views_add(a: Seq<FileInfoData>, b: Seq<FileInfoData>)
    ensures
        info_views(a + b) =~= info_views(a) + info_views(b),
{
}

proof fn lemma_group_step(es: Seq<RawEntryView>, e: RawEntryView)
    ensures
        folder_infos(es.push(e)) == if keeps_as_folder(e) {
            folder_infos(es).push(info_of(e))
        } else {
            folder_infos(es)
        },
        file_infos(es.push(e)) == if keeps_as_file(e) {
            file_infos(es).push(info_of(e))
        } else {
            file_infos(es)
        },
{
    broadcast use vstd::prelude::Seq::lemma_push_map_commute;

    reveal(Seq::filter);
    let pf = |x: RawEntryView| keeps_as_folder(x);
    let pg = |x: RawEntryView| keeps_as_file(x);
    assert(es.push(e).drop_last() =~= es);
    assert(es.push(e).last() == e);
    assert(es.push(e).filter(pf) == if pf(e) {
        es.filter(pf).push(e)
    } else {
        es.filter(pf)
    });
    assert(es.push(e).filter(pg) == if pg(e) {
        es.filter(pg).push(e)
    } else {
        es.filter(pg)
    });
}

/// Builds the listing for the raw children `entries`: hidden directories are
/// dropped, every other child is classified, directories come first, and each
/// group is sorted by display name under the given ordering.
pub fn build_listing(entries: &Vec<RawEntry>, order_by: EOrderBy) -> (r: Vec<FileInfoData>)
    ensures
        valid_listing(raw_views(entries@), info_views(r@)),
{
    let ghost es = raw_views(entries@);
    let mut folders: Vec<FileInfoData> = Vec::new();
    let mut files: Vec<FileInfoData> = Vec::new();
    let n = entries.len();
    let mut i: usize = 0;
    proof {
        assert(es.take(0) =~= Seq::<RawEntryView>::empty());
        assert(info_views(folders@) =~= folder_infos(es.take(0)));
        assert(info_views(files@) =~= file_infos(es.take(0)));
    }
    while i < n
        invariant
            i <= n,
            n == entries@.len(),
            es == raw_views(entries@),
            info_views(folders@) == folder_infos(es.take(i as int)),
            info_views(files@) == file_infos(es.take(i as int)),
        decreases n - i,
    {
        let ghost folders_old = folders@;
        let ghost files_old = files@;
        let e = &entries[i];
        proof {
            assert(es[i as int] == entries@[i as int]@);
        }
        let hid = is_hidden_name(e.filename.as_str());
        if e.is_dir {
            if !hid {
                let info = make_info(e);
                folders.push(info);
            }
        } else {
            let info = make_info(e);
            files.push(info);
        }
        proof {
            broadcast use vstd::prelude::Seq::lemma_push_map_commute;

            assert(es.take(i + 1) =~= es.take(i as int).push(es[i as int]));
            lemma_group_step(es.take(i as int), es[i as int]);
            assert(info_views(folders@) == folder_infos(es.take(i + 1)));
            assert(info_views(files@) == file_infos(es.take(i + 1)));
        }
        i = i + 1;
    }
    proof {
        assert(es.take(n as int) =~= es);
    }
    match order_by {
        EOrderBy::Name => {
            folders = sort_by_name(folders);
            files = sort_by_name(files);
        }
    }
    let ghost fpost = folders@;
    let ghost gpost = files@;
    let mut result = folders;
    result.append(&mut files);
    proof {
        let folders_s = folder_infos(es);
        let files_s = file_infos(es);
        let fl = folders_s.len() as int;
        let rv = info_views(result@);
        lemma_info_views_add(fpost, gpost);
        assert(rv =~= info_views(fpost) + info_views(gpost));
        info_views(fpost).to_multiset_ensures();
        folders_s.to_multiset_ensures();
        info_views(gpost).to_multiset_ensures();
        files_s.to_multiset_ensures();
        assert(info_views(fpost).len() == fl);
        assert(rv.take(fl) =~= info_views(fpost));
        assert(rv.skip(fl) =~= info_views(gpost));
    }
    result
}

/// Turns the outcome of reading a directory into the outcome the caller sees:
/// a read failure is passed on verbatim, a successful read becomes the
/// ordered, classified listing.
pub fn list_files(read: Result<Vec<RawEntry>, String>, order_by: EOrderBy) -> (r: Result<
    Vec<FileInfoData>,
    String,
>)
    ensures
        read matches Ok(es) ==> (r matches Ok(v) && valid_listing(raw_views(es@), info_views(v@))),
        read matches Err(e) ==> (r matches Err(m) && m@ == e@),
{
    match read {
        Ok(es) => Ok(build_listing(&es, order_by)),
        Err(e) => Err(e),
    }
}

proof fn lemma_multiset_members(s: Seq<FileInfoView>, t: Seq<FileInfoView>)
    requires
        s.to_multiset() == t.to_multiset(),
    ensures
        forall|x: FileInfoView| s.contains(x) <==> t.contains(x),
{
    s.to_multiset_ensures();
    t.to_multiset_ensures();
    assert forall|x: FileInfoView| s.contains(x) <==> t.contains(x) by {
        assert(s.contains(x) <==> s.to_multiset().count(x) > 0);
        assert(t.contains(x) <==> t.to_multiset().count(x) > 0);
    }
}

proof fn lemma_listing_member_kind(es: Seq<RawEntryView>, rv: Seq<FileInfoView>, i: int)
    requires
        valid_listing(es, rv),
        0 <= i < rv.len(),
    ensures
        i < folder_infos(es).len() ==> rv[i].kind == EntryKind::Directory && !hidden(rv[i].name),
        i >= folder_infos(es).len() ==> rv[i].kind == EntryKind::File,
{
    broadcast use vstd::seq_lib::group_filter_ensures;

    let folders = folder_infos(es);
    let files = file_infos(es);
    let fl = folders.len() as int;
    if i < fl {
        let part = rv.take(fl);
        assert(part[i] == rv[i]);
        assert(part.contains(rv[i]));
        lemma_multiset_members(part, folders);
        assert(folders.contains(rv[i]));
        let k = choose|k: int| 0 <= k < folders.len() && folders[k] == rv[i];
        let kept = es.filter(|e: RawEntryView| keeps_as_folder(e));
        assert(folders[k] == info_of(kept[k]));
        assert(keeps_as_folder(kept[k]));
    } else {
        let part = rv.skip(fl);
        assert(part[i - fl] == rv[i]);
        assert(part.contains(rv[i]));
        lemma_multiset_members(part, files);
        assert(files.contains(rv[i]));
        let k = choose|k: int| 0 <= k < files.len() && files[k] == rv[i];
        let kept = es.filter(|e: RawEntryView| keeps_as_file(e));
        assert(files[k] == info_of(kept[k]));
        assert(keeps_as_file(kept[k]));
    }
}

/// Law: in a listing every directory record precedes every file record, and
/// within each kind the display names are non-decreasing.
pub proof fn lemma_listing_order(es: Seq<RawEntryView>, rv: Seq<FileInfoView>)
    requires
        valid_listing(es, rv),
    ensures
        forall|i: int, j: int|
            0 <= i < j < rv.len() && rv[i].kind == EntryKind::File ==> rv[j].kind
                == EntryKind::File,
        forall|i: int, j: int|
            0 <= i < j < rv.len() && rv[i].kind == rv[j].kind ==> lex_le(
                rv[i].name,
                rv[j].name,
            ),
{
    let folders = folder_infos(es);
    let fl = folders.len() as int;
    assert forall|i: int| 0 <= i < rv.len() implies (rv[i].kind == EntryKind::Directory <==> i
        < fl) by {
        lemma_listing_member_kind(es, rv, i);
    }
    assert forall|i: int, j: int|
        0 <= i < j < rv.len() && rv[i].kind == rv[j].kind implies lex_le(
        rv[i].name,
        rv[j].name,
    ) by {
        if rv[i].kind == EntryKind::Directory {
            assert(rv.take(fl)[i] == rv[i] && rv.take(fl)[j] == rv[j]);
        } else {
            assert(rv.skip(fl)[i - fl] == rv[i] && rv.skip(fl)[j - fl] == rv[j]);
        }
    }
}

/// Law: a hidden directory never appears in a listing; every child that is
/// not a directory appears, hidden or not, and so does every directory whose
/// name is not hidden.
pub proof fn lemma_hidden_asymmetry(es: Seq<RawEntryView>, rv: Seq<FileInfoView>)
    requires
        valid_listing(es, rv),
    ensures
        forall|i: int|
            0 <= i < rv.len() ==> !(rv[i].kind == EntryKind::Directory && hidden(rv[i].name)),
        forall|e: RawEntryView| es.contains(e) && !e.is_dir ==> rv.contains(info_of(e)),
        forall|e: RawEntryView|
            es.contains(e) && e.is_dir && !hidden(e.filename) ==> rv.contains(info_of(e)),
{
    broadcast use vstd::seq_lib::group_filter_ensures;

    let folders = folder_infos(es);
    let files = file_infos(es);
    let fl = folders.len() as int;
    assert forall|i: int| 0 <= i < rv.len() implies !(rv[i].kind == EntryKind::Directory
        && hidden(rv[i].name)) by {
        lemma_listing_member_kind(es, rv, i);
    }
    assert forall|e: RawEntryView| es.contains(e) && !e.is_dir implies rv.contains(
        info_of(e),
    ) by {
        let k = choose|k: int| 0 <= k < es.len() && es[k] == e;
        let kept = es.filter(|x: RawEntryView| keeps_as_file(x));
        assert(kept.contains(es[k]));
        let m = choose|m: int| 0 <= m < kept.len() && kept[m] == e;
        assert(files[m] == info_of(e));
        assert(files.contains(files[m]));
        lemma_multiset_members(rv.skip(fl), files);
        assert(rv.skip(fl).contains(info_of(e)));
        let q = choose|q: int| 0 <= q < rv.skip(fl).len() && rv.skip(fl)[q] == info_of(e);
        assert(rv[q + fl] == info_of(e));
    }
    assert forall|e: RawEntryView| es.contains(e) && e.is_dir && !hidden(e.filename) implies rv
        .contains(info_of(e)) by {
        let k = choose|k: int| 0 <= k < es.len() && es[k] == e;
        let kept = es.filter(|x: RawEntryView| keeps_as_folder(x));
        assert(kept.contains(es[k]));
        let m = choose|m: int| 0 <= m < kept.len() && kept[m] == e;
        assert(folders[m] == info_of(e));
        assert(folders.contains(folders[m]));
        lemma_multiset_members(rv.take(fl), folders);
        assert(rv.take(fl).contains(info_of(e)));
        let q = choose|q: int| 0 <= q < rv.take(fl).len() && rv.take(fl)[q] == info_of(e);
        assert(rv[q] == info_of(e));
    }
}

} // verus!
