//! Folder profiles: finding the clips under a folder, and keeping the rows of a
//! profile in step with them.

use crate::config::{default_pitch, sound_ids, sound_views, Pitch, Sound, SoundView};
use crate::paths::{
    is_audio, is_audio_spec, same_file, same_file_is_an_equivalence, stem, stem_spec, ClipPath,
    ClipPathView,
};
use crate::place::filter_places;
use crate::single::{Single, ONE, ZERO};
use crate::text::{
    bytes_le, bytes_le_total, bytes_le_transitive, comes_before, joined, same_but_case,
};
use vstd::prelude::*;

verus! {

/// What a folder holds, in the order in which the system lists it. A folder
/// that cannot be read holds nothing.
#[derive(Debug)]
pub struct Listing {
    pub entries: Vec<Entry>,
}

/// One entry of a folder.
#[derive(Debug)]
pub enum Entry {
    Folder(Listing),
    File(ClipPath),
}

/// The paths of a list of them.
pub open spec fn path_views(paths: Seq<ClipPath>) -> Seq<ClipPathView> {
    paths.map_values(|p: ClipPath| p@)
}

/// Puts a path into a sorted list, behind those that come before it.
pub open spec fn inserted(sorted: Seq<ClipPathView>, p: ClipPathView) -> Seq<ClipPathView>
    decreases sorted.len(),
{
    if sorted.len() == 0 || bytes_le(sorted.last().order, p.order) {
        sorted.push(p)
    } else {
        inserted(sorted.drop_last(), p).push(sorted.last())
    }
}

/// The paths in the order of their bytes.
pub open spec fn in_order(paths: Seq<ClipPathView>) -> Seq<ClipPathView>
    decreases paths.len(),
{
    if paths.len() == 0 {
        paths
    } else {
        inserted(in_order(paths.drop_last()), paths.last())
    }
}

/// The audio files that stand in a list of entries themselves.
pub open spec fn own_files(entries: Seq<Entry>) -> Seq<ClipPathView>
    decreases entries.len(),
{
    if entries.len() == 0 {
        Seq::empty()
    } else {
        let before = own_files(entries.drop_last());
        match entries.last() {
            Entry::Folder(_) => before,
            Entry::File(p) => if is_audio_spec(p@) {
                before.push(p@)
            } else {
                before
            },
        }
    }
}

/// The audio files in the folders of a list of entries.
pub open spec fn nested_files(entries: Seq<Entry>) -> Seq<ClipPathView>
    decreases entries,
{
    if entries.len() == 0 {
        Seq::empty()
    } else {
        let before = nested_files(entries.drop_last());
        match entries.last() {
            Entry::Folder(inner) => before + files_under(inner),
            Entry::File(_) => before,
        }
    }
}

/// Every audio file under a folder, depth first: those of the folders in it,
/// then its own, in order.
pub open spec fn files_under(dir: Listing) -> Seq<ClipPathView>
    decreases dir,
{
    nested_files(dir.entries@) + in_order(own_files(dir.entries@))
}

/// Puts a path into a sorted list.
fn insert_in_order(found: &mut Vec<ClipPath>, p: ClipPath)
    ensures
        path_views(final(found)@) == inserted(path_views(old(found)@), p@),
{
    let ghost before = path_views(found@);
    let n: usize = found.len();
    let mut at: usize = n;
    let ghost mut tail: Seq<ClipPathView> = Seq::empty();
    assert(before.take(n as int) =~= before);
    assert(inserted(before, p@) =~= inserted(before.take(at as int), p@) + tail);
    while at > 0 && !comes_before(&found[at - 1].order, &p.order)
        invariant
            n == found.len(),
            at <= n,
            before == path_views(found@),
            tail == before.skip(at as int),
            inserted(before, p@) == inserted(before.take(at as int), p@) + tail,
        decreases at,
    {
        proof {
            let head = before.take(at as int);
            assert(head.last() == found@[at - 1]@);
            assert(head.drop_last() =~= before.take(at - 1));
            assert(inserted(head, p@) + tail =~= inserted(before.take(at - 1), p@) + (seq![
                before[at - 1],
            ] + tail));
            assert(seq![before[at - 1]] + tail =~= before.skip(at - 1));
            tail = before.skip(at - 1);
        }
        at = at - 1;
    }
    proof {
        let head = before.take(at as int);
        if at > 0 {
            assert(head.last() == found@[at - 1]@);
        }
        assert(inserted(head, p@) == head.push(p@));
    }
    found.insert(at, p);
    assert(path_views(found@) =~= before.take(at as int).push(p@) + tail);
}

/// Appends every audio file under `dir` to `out`, depth first.
pub fn audio_files(dir: &Listing, out: &mut Vec<ClipPath>)
    ensures
        path_views(final(out)@) == path_views(old(out)@) + files_under(*dir),
    decreases dir,
{
    let ghost start = path_views(out@);
    let ghost all = dir.entries@;
    let mut found: Vec<ClipPath> = Vec::new();
    let n: usize = dir.entries.len();
    assert(path_views(out@) =~= start + nested_files(all.take(0)));
    assert(path_views(found@) =~= in_order(own_files(all.take(0))));
    for i in 0..n
        invariant
            n == dir.entries.len(),
            all == dir.entries@,
            path_views(out@) == start + nested_files(all.take(i as int)),
            path_views(found@) == in_order(own_files(all.take(i as int))),
    {
        proof {
            assert(all.take(i + 1).drop_last() =~= all.take(i as int));
            assert(all.take(i + 1).last() == all[i as int]);
        }
        match &dir.entries[i] {
            Entry::Folder(inner) => {
                assert(decreases_to!(*dir => dir.entries@[i as int]));
                audio_files(inner, out);
                assert(path_views(out@) =~= start + nested_files(all.take(i + 1)));
            },
            Entry::File(p) => {
                if is_audio(p) {
                    insert_in_order(&mut found, p.clone());
                    proof {
                        let own = own_files(all.take(i as int));
                        assert(own.push(p@).drop_last() =~= own);
                    }
                }
            },
        }
    }
    proof {
        assert(all.take(n as int) =~= all);
    }
    let ghost reached = path_views(out@);
    let ghost sorted = path_views(found@);
    out.append(&mut found);
    assert(path_views(out@) =~= reached + sorted);
    assert(start + nested_files(all) + sorted =~= start + files_under(*dir));
}

/// The row of a clip that has just arrived.
pub open spec fn fresh_sound(path: ClipPathView, id: Seq<char>) -> SoundView {
    SoundView {
        id,
        name: stem_spec(path),
        file: path.text,
        hotkey: Seq::empty(),
        volume: Single { bits: ONE },
        offset: Single { bits: ZERO },
        pitch: default_pitch(),
    }
}

/// Whether one of the files is the given one.
pub open spec fn on_disk(files: Seq<ClipPathView>, file: Seq<char>) -> bool {
    exists|k: int| 0 <= k < files.len() && same_but_case(#[trigger] files[k].text, file)
}

/// Whether one of the rows is that of the given file.
pub open spec fn has_row(rows: Seq<SoundView>, file: Seq<char>) -> bool {
    exists|i: int| 0 <= i < rows.len() && same_but_case(#[trigger] rows[i].file, file)
}

/// The rows that still have their file.
pub open spec fn kept(existing: Seq<SoundView>, files: Seq<ClipPathView>) -> Seq<SoundView> {
    existing.filter(|s: SoundView| on_disk(files, s.file))
}

/// The files that get a row of their own: those that neither a kept row nor an
/// earlier file stands for.
pub open spec fn arrivals(rows: Seq<SoundView>, files: Seq<ClipPathView>) -> Seq<ClipPathView>
    decreases files.len(),
{
    if files.len() == 0 {
        Seq::empty()
    } else {
        let before = arrivals(rows, files.drop_last());
        let file = files.last();
        if has_row(rows, file.text) || on_disk(before, file.text) {
            before
        } else {
            before.push(file)
        }
    }
}

/// The rows of a list of arrivals, under the given ids.
pub open spec fn fresh_sounds(paths: Seq<ClipPathView>, ids: Seq<Seq<char>>) -> Seq<SoundView> {
    Seq::new(paths.len(), |i: int| fresh_sound(paths[i], ids[i]))
}

/// The rows of a folder profile after a sync: those that still have their file,
/// in place, then the new ones. `ids` are the ids of the new ones.
pub open spec fn merged(
    existing: Seq<SoundView>,
    files: Seq<ClipPathView>,
    ids: Seq<Seq<char>>,
) -> Seq<SoundView> {
    kept(existing, files) + fresh_sounds(arrivals(kept(existing, files), files), ids)
}

/// The ids of the rows that a sync added.
pub open spec fn new_ids(
    existing: Seq<SoundView>,
    files: Seq<ClipPathView>,
    rows: Seq<SoundView>,
) -> Seq<Seq<char>> {
    sound_ids(rows.skip(kept(existing, files).len() as int))
}

/// The row of a clip that has just arrived.
pub fn new_sound(path: &ClipPath, id: String) -> (r: Sound)
    ensures
        r@ == fresh_sound(path@, id@),
        r.id == id,
{
    Sound {
        id,
        name: stem(path),
        file: path.text.clone(),
        hotkey: String::new(),
        volume: Single { bits: ONE },
        offset: Single { bits: ZERO },
        pitch: Pitch::default(),
    }
}

/// Whether one of the files is the given one.
fn is_on_disk(files: &Vec<ClipPath>, file: &str) -> (r: bool)
    ensures
        r == on_disk(path_views(files@), file@),
{
    let n: usize = files.len();
    for k in 0..n
        invariant
            n == files.len(),
            forall|j: int|
                0 <= j < k ==> !same_but_case(#[trigger] path_views(files@)[j].text, file@),
    {
        assert(path_views(files@)[k as int] == files@[k as int]@);
        if same_file(files[k].text.as_str(), file) {
            assert(same_but_case(path_views(files@)[k as int].text, file@));
            return true;
        }
    }
    false
}

/// Whether one of the rows is that of the given file.
fn has_row_of(rows: &Vec<Sound>, file: &str) -> (r: bool)
    ensures
        r == has_row(sound_views(rows@), file@),
{
    let n: usize = rows.len();
    for i in 0..n
        invariant
            n == rows.len(),
            forall|j: int|
                0 <= j < i ==> !same_but_case(#[trigger] sound_views(rows@)[j].file, file@),
    {
        assert(sound_views(rows@)[i as int] == rows@[i as int]@);
        if same_file(rows[i].file.as_str(), file) {
            assert(same_but_case(sound_views(rows@)[i as int].file, file@));
            return true;
        }
    }
    false
}

/// A file has a row among the kept and the new ones exactly if it has one among
/// the kept ones or is one of the arrivals.
proof fn rows_of_arrivals(
    rows: Seq<SoundView>,
    paths: Seq<ClipPathView>,
    ids: Seq<Seq<char>>,
    file: Seq<char>,
)
    ensures
        has_row(rows + fresh_sounds(paths, ids), file) == (has_row(rows, file) || on_disk(
            paths,
            file,
        )),
{
    let all = rows + fresh_sounds(paths, ids);
    if has_row(rows, file) {
        let i = choose|i: int| 0 <= i < rows.len() && same_but_case(#[trigger] rows[i].file, file);
        assert(all[i] == rows[i]);
    }
    if on_disk(paths, file) {
        let k = choose|k: int|
            0 <= k < paths.len() && same_but_case(#[trigger] paths[k].text, file);
        assert(all[rows.len() + k].file == paths[k].text);
    }
    if has_row(all, file) {
        let i = choose|i: int| 0 <= i < all.len() && same_but_case(#[trigger] all[i].file, file);
        if i < rows.len() {
            assert(rows[i] == all[i]);
        } else {
            assert(paths[i - rows.len()].text == all[i].file);
        }
    }
}

/// Reconciles a folder profile against what is actually on disk. `fresh_id`
/// is asked once for each new row, with its number among them, and gives its id.
///
/// Rows that still have their file keep their position, hotkey and tuning;
/// rows whose file is gone drop out; anything new lands at the end. Keeping
/// the order stable matters more than it sounds - the hotkeys are muscle
/// memory, and a re-sort would shuffle the whole board under your fingers.
pub fn merge_folder(
    existing: &Vec<Sound>,
    files: &Vec<ClipPath>,
    fresh_id: impl Fn(u64) -> String,
) -> (r: Vec<Sound>)
    requires
        forall|n: u64| call_requires(fresh_id, (n,)),
    ensures
        sound_views(r@) == merged(
            sound_views(existing@),
            path_views(files@),
            new_ids(sound_views(existing@), path_views(files@), sound_views(r@)),
        ),
        forall|i: int|
            kept(sound_views(existing@), path_views(files@)).len() <= i < r.len() ==> call_ensures(
                fresh_id,
                ((i - kept(sound_views(existing@), path_views(files@)).len()) as u64,),
                (#[trigger] r@[i]).id,
            ),
{
    let ghost rows = sound_views(existing@);
    let ghost paths = path_views(files@);
    let ghost keep = |s: SoundView| on_disk(paths, s.file);
    let mut out: Vec<Sound> = Vec::new();
    let n: usize = existing.len();
    proof {
        reveal(Seq::filter);
        assert(sound_views(out@) =~= rows.take(0).filter(keep));
    }
    for i in 0..n
        invariant
            n == existing.len(),
            rows == sound_views(existing@),
            paths == path_views(files@),
            keep == |s: SoundView| on_disk(paths, s.file),
            sound_views(out@) == rows.take(i as int).filter(keep),
    {
        let ghost before = sound_views(out@);
        let row = &existing[i];
        proof {
            assert(rows[i as int] == row@);
            assert(rows.take(i + 1) =~= rows.take(i as int).push(row@));
            rows.take(i as int).lemma_filter_push(row@, keep);
            assert(keep(row@) == on_disk(paths, row@.file));
        }
        if is_on_disk(files, row.file.as_str()) {
            out.push(row.clone());
            assert(sound_views(out@) =~= before.push(row@));
        }
    }
    let ghost base = kept(rows, paths);
    proof {
        assert(rows.take(n as int) =~= rows);
        assert(sound_views(out@) == base);
    }
    let first_new: usize = out.len();
    assert(sound_views(out@).len() == out@.len());
    let m: usize = files.len();
    let ghost mut ids: Seq<Seq<char>> = Seq::empty();
    assert(sound_views(out@) =~= base + fresh_sounds(arrivals(base, paths.take(0)), ids));
    for k in 0..m
        invariant
            m == files.len(),
            paths == path_views(files@),
            forall|n: u64| call_requires(fresh_id, (n,)),
            first_new == base.len(),
            first_new <= out.len(),
            ids.len() == arrivals(base, paths.take(k as int)).len(),
            sound_views(out@) == base + fresh_sounds(arrivals(base, paths.take(k as int)), ids),
            forall|i: int|
                base.len() <= i < out.len() ==> call_ensures(
                    fresh_id,
                    ((i - base.len()) as u64,),
                    (#[trigger] out@[i]).id,
                ),
    {
        let ghost before = out@;
        let ghost came = arrivals(base, paths.take(k as int));
        let path = &files[k];
        proof {
            assert(paths[k as int] == path@);
            assert(paths.take(k + 1).drop_last() =~= paths.take(k as int));
            assert(paths.take(k + 1).last() == path@);
            rows_of_arrivals(base, came, ids, path@.text);
        }
        if !has_row_of(&out, path.text.as_str()) {
            let id = fresh_id((out.len() - first_new) as u64);
            let row = new_sound(path, id);
            out.push(row);
            proof {
                let more = ids.push(row.id@);
                assert(sound_views(out@) =~= sound_views(before).push(row@));
                assert(fresh_sounds(came.push(path@), more) =~= fresh_sounds(came, ids).push(row@));
                assert(sound_views(out@) =~= base + fresh_sounds(came.push(path@), more));
                assert forall|i: int| base.len() <= i < out.len() implies call_ensures(
                    fresh_id,
                    ((i - base.len()) as u64,),
                    (#[trigger] out@[i]).id,
                ) by {
                    if i < before.len() {
                        assert(out@[i] == before[i]);
                    }
                }
                ids = more;
            }
        }
    }
    proof {
        assert(paths.take(m as int) =~= paths);
        let came = arrivals(base, paths);
        let given = new_ids(rows, paths, sound_views(out@));
        assert(fresh_sounds(came, ids) =~= fresh_sounds(came, given)) by {
            assert forall|i: int| 0 <= i < came.len() implies ids[i] == given[i] by {
                assert(sound_views(out@)[base.len() + i] == fresh_sounds(came, ids)[i]);
            }
        }
    }
    out
}

/// Re-reads a profile's folder: the rows after a sync with what `listing` holds,
/// or an error if `dir` is no folder. `fresh_id` gives the ids of the new rows, as
/// in [`merge_folder`].
pub fn sync_folder(
    dir: &str,
    listing: Option<&Listing>,
    existing: &Vec<Sound>,
    fresh_id: impl Fn(u64) -> String,
) -> (r: Result<Vec<Sound>, String>)
    requires
        forall|n: u64| call_requires(fresh_id, (n,)),
    ensures
        match (listing, r) {
            (Some(folder), Ok(rows)) => {
                let old_rows = sound_views(existing@);
                let files = files_under(*folder);
                &&& sound_views(rows@) == merged(
                    old_rows,
                    files,
                    new_ids(old_rows, files, sound_views(rows@)),
                )
                &&& forall|i: int|
                    kept(old_rows, files).len() <= i < rows.len() ==> call_ensures(
                        fresh_id,
                        ((i - kept(old_rows, files).len()) as u64,),
                        (#[trigger] rows@[i]).id,
                    )
            },
            (None, Err(message)) => message@ == dir@ + " is not a folder"@,
            _ => false,
        },
{
    match listing {
        Some(folder) => {
            let mut files: Vec<ClipPath> = Vec::new();
            audio_files(folder, &mut files);
            assert(path_views(files@) =~= files_under(*folder));
            Ok(merge_folder(existing, &files, fresh_id))
        },
        None => Err(joined(dir, " is not a folder")),
    }
}

/// Whether the paths are in the order of their bytes.
pub open spec fn is_sorted(paths: Seq<ClipPathView>) -> bool {
    forall|i: int, j: int|
        0 <= i < j < paths.len() ==> bytes_le(
            (#[trigger] paths[i]).order,
            (#[trigger] paths[j]).order,
        )
}

proof fn inserting_keeps_order(sorted: Seq<ClipPathView>, p: ClipPathView)
    requires
        is_sorted(sorted),
    ensures
        is_sorted(inserted(sorted, p)),
        inserted(sorted, p).to_multiset() == sorted.to_multiset().insert(p),
        forall|q: ClipPathView| #[trigger]
            inserted(sorted, p).contains(q) <==> q == p || sorted.contains(q),
    decreases sorted.len(),
{
    broadcast use vstd::seq_lib::group_to_multiset_ensures;

    let r = inserted(sorted, p);
    if sorted.len() == 0 || bytes_le(sorted.last().order, p.order) {
        assert forall|i: int, j: int| 0 <= i < j < r.len() implies bytes_le(
            (#[trigger] r[i]).order,
            (#[trigger] r[j]).order,
        ) by {
            if j == sorted.len() && i < sorted.len() - 1 {
                bytes_le_transitive(sorted[i].order, sorted.last().order, p.order);
            }
        }
        assert forall|q: ClipPathView| #[trigger] r.contains(q) implies q == p || sorted.contains(
            q,
        ) by {
            let i = choose|i: int| 0 <= i < r.len() && r[i] == q;
            if i < sorted.len() {
                assert(sorted[i] == q);
            }
        }
        assert forall|q: ClipPathView| q == p || sorted.contains(q) implies #[trigger] r.contains(
            q,
        ) by {
            if q == p {
                assert(r[sorted.len() as int] == q);
            } else {
                let i = choose|i: int| 0 <= i < sorted.len() && sorted[i] == q;
                assert(r[i] == q);
            }
        }
    } else {
        let less = sorted.drop_last();
        let last = sorted.last();
        inserting_keeps_order(less, p);
        bytes_le_total(p.order, last.order);
        let head = inserted(less, p);
        assert(sorted =~= less.push(last));
        assert forall|i: int, j: int| 0 <= i < j < r.len() implies bytes_le(
            (#[trigger] r[i]).order,
            (#[trigger] r[j]).order,
        ) by {
            if j == head.len() {
                assert(head.contains(head[i]));
                if head[i] != p {
                    let k = choose|k: int| 0 <= k < less.len() && less[k] == head[i];
                    assert(sorted[k] == head[i]);
                }
            }
        }
        assert(r.to_multiset() =~= sorted.to_multiset().insert(p));
        assert forall|q: ClipPathView| #[trigger] r.contains(q) implies q == p || sorted.contains(
            q,
        ) by {
            let i = choose|i: int| 0 <= i < r.len() && r[i] == q;
            if i < head.len() {
                assert(head.contains(q));
                if q != p {
                    let k = choose|k: int| 0 <= k < less.len() && less[k] == q;
                    assert(sorted[k] == q);
                }
            } else {
                assert(sorted[sorted.len() - 1] == q);
            }
        }
        assert forall|q: ClipPathView| q == p || sorted.contains(q) implies #[trigger] r.contains(
            q,
        ) by {
            if q == last && q != p {
                assert(r[head.len() as int] == q);
            } else {
                if q != p {
                    let k = choose|k: int| 0 <= k < sorted.len() && sorted[k] == q;
                    assert(less[k] == q);
                }
                assert(head.contains(q));
                let i = choose|i: int| 0 <= i < head.len() && head[i] == q;
                assert(r[i] == q);
            }
        }
    }
}

/// The files of a folder come in the order of their bytes, and none is lost or
/// doubled by putting them in order.
pub proof fn in_order_sorts(paths: Seq<ClipPathView>)
    ensures
        is_sorted(in_order(paths)),
        in_order(paths).to_multiset() == paths.to_multiset(),
        forall|q: ClipPathView| #[trigger] in_order(paths).contains(q) <==> paths.contains(q),
    decreases paths.len(),
{
    broadcast use vstd::seq_lib::group_to_multiset_ensures;

    if paths.len() > 0 {
        let less = paths.drop_last();
        in_order_sorts(less);
        inserting_keeps_order(in_order(less), paths.last());
        assert(paths =~= less.push(paths.last()));
        assert(in_order(paths).to_multiset() =~= paths.to_multiset());
        assert forall|q: ClipPathView| #[trigger] in_order(paths).contains(q) == paths.contains(
            q,
        ) by {
            if paths.contains(q) && q != paths.last() {
                let k = choose|k: int| 0 <= k < paths.len() && paths[k] == q;
                assert(less[k] == q);
            }
            if less.contains(q) {
                let k = choose|k: int| 0 <= k < less.len() && less[k] == q;
                assert(paths[k] == q);
            }
            if q == paths.last() {
                assert(paths[paths.len() - 1] == q);
            }
            assert(in_order(less).contains(q) == less.contains(q));
        }
    }
}

/// Whether the file stands in the folder, at any depth.
pub open spec fn holds_file(dir: Listing, p: ClipPathView) -> bool
    decreases dir,
{
    entries_hold_file(dir.entries@, p)
}

/// Whether the file stands among the entries or in a folder among them.
pub open spec fn entries_hold_file(entries: Seq<Entry>, p: ClipPathView) -> bool
    decreases entries,
{
    entries.len() > 0 && (entries_hold_file(entries.drop_last(), p) || match entries.last() {
        Entry::Folder(inner) => holds_file(inner, p),
        Entry::File(q) => q@ == p,
    })
}

/// Every audio file under a folder is found, at any depth, and nothing else is.
pub proof fn every_audio_file_is_found(dir: Listing, p: ClipPathView)
    ensures
        files_under(dir).contains(p) <==> is_audio_spec(p) && holds_file(dir, p),
    decreases dir,
{
    let es = dir.entries@;
    let nested = nested_files(es);
    let own = own_files(es);
    found_among_entries(es, p);
    in_order_sorts(own);
    let all = files_under(dir);
    if all.contains(p) {
        let i = choose|i: int| 0 <= i < all.len() && all[i] == p;
        if i < nested.len() {
            assert(nested[i] == p);
        } else {
            assert(in_order(own)[i - nested.len()] == p);
            assert(in_order(own).contains(p));
        }
    }
    if nested.contains(p) {
        let i = choose|i: int| 0 <= i < nested.len() && nested[i] == p;
        assert(all[i] == p);
    }
    if own.contains(p) {
        assert(in_order(own).contains(p));
        let i = choose|i: int| 0 <= i < in_order(own).len() && in_order(own)[i] == p;
        assert(all[nested.len() + i] == p);
    }
}

proof fn found_among_entries(es: Seq<Entry>, p: ClipPathView)
    ensures
        nested_files(es).contains(p) || own_files(es).contains(p) <==> is_audio_spec(p)
            && entries_hold_file(es, p),
    decreases es,
{
    if es.len() > 0 {
        let less = es.drop_last();
        found_among_entries(less, p);
        match es.last() {
            Entry::Folder(inner) => {
                assert(decreases_to!(es => es[es.len() - 1]));
                every_audio_file_is_found(inner, p);
                let a = nested_files(less);
                let b = files_under(inner);
                assert(nested_files(es) == a + b);
                if (a + b).contains(p) {
                    let i = choose|i: int| 0 <= i < (a + b).len() && (a + b)[i] == p;
                    if i < a.len() {
                        assert(a[i] == p);
                    } else {
                        assert(b[i - a.len()] == p);
                    }
                }
                if a.contains(p) {
                    let i = choose|i: int| 0 <= i < a.len() && a[i] == p;
                    assert((a + b)[i] == p);
                }
                if b.contains(p) {
                    let i = choose|i: int| 0 <= i < b.len() && b[i] == p;
                    assert((a + b)[a.len() + i] == p);
                }
            },
            Entry::File(q) => {
                let a = own_files(less);
                if own_files(es).contains(p) {
                    let i = choose|i: int| 0 <= i < own_files(es).len() && own_files(es)[i] == p;
                    if i < a.len() {
                        assert(a[i] == p);
                    }
                }
                if a.contains(p) {
                    let i = choose|i: int| 0 <= i < a.len() && a[i] == p;
                    assert(own_files(es)[i] == p);
                }
                if q@ == p && is_audio_spec(p) {
                    assert(own_files(es)[a.len() as int] == p);
                }
            },
        }
    }
}

/// Rows that still have their file survive a sync in place, with everything
/// they had: they are the first rows afterwards, in their old order, and a row
/// is among them exactly if it was there and its file is still on disk.
pub proof fn sync_keeps_tuning_and_order(
    existing: Seq<SoundView>,
    files: Seq<ClipPathView>,
    ids: Seq<Seq<char>>,
)
    ensures
        merged(existing, files, ids).take(kept(existing, files).len() as int) == kept(
            existing,
            files,
        ),
        forall|s: SoundView| #[trigger]
            kept(existing, files).contains(s) <==> existing.contains(s) && on_disk(files, s.file),
        (forall|i: int|
            0 <= i < existing.len() ==> on_disk(files, #[trigger] existing[i].file)) ==> kept(
            existing,
            files,
        ) == existing,
{
    kept_rows(existing, files);
    assert(merged(existing, files, ids).take(kept(existing, files).len() as int) =~= kept(
        existing,
        files,
    ));
    if forall|i: int| 0 <= i < existing.len() ==> on_disk(files, #[trigger] existing[i].file) {
        keeping_all(existing, files);
    }
}

/// What is kept was there, and has its file.
proof fn kept_rows(existing: Seq<SoundView>, files: Seq<ClipPathView>)
    ensures
        forall|i: int|
            0 <= i < kept(existing, files).len() ==> on_disk(
                files,
                #[trigger] kept(existing, files)[i].file,
            ),
        forall|s: SoundView| #[trigger]
            kept(existing, files).contains(s) <==> existing.contains(s) && on_disk(files, s.file),
{
    let keep = |s: SoundView| on_disk(files, s.file);
    let base = kept(existing, files);
    assert forall|i: int| 0 <= i < base.len() implies on_disk(files, #[trigger] base[i].file) by {
        existing.lemma_filter_pred(keep, i);
        assert(keep(base[i]));
    }
    assert forall|s: SoundView| #[trigger] base.contains(s) implies existing.contains(s) && on_disk(
        files,
        s.file,
    ) by {
        existing.lemma_filter_contains_rev(keep, s);
        let i = choose|i: int| 0 <= i < base.len() && base[i] == s;
        assert(on_disk(files, base[i].file));
    }
    assert forall|s: SoundView| existing.contains(s) && on_disk(files, s.file) implies #[trigger]
        base.contains(s) by {
        let i = choose|i: int| 0 <= i < existing.len() && existing[i] == s;
        assert(keep(existing[i]));
        existing.lemma_filter_contains(keep, i);
    }
}

proof fn keeping_all(existing: Seq<SoundView>, files: Seq<ClipPathView>)
    requires
        forall|i: int| 0 <= i < existing.len() ==> on_disk(files, #[trigger] existing[i].file),
    ensures
        kept(existing, files) == existing,
    decreases existing.len(),
{
    reveal(Seq::filter);
    if existing.len() > 0 {
        let less = existing.drop_last();
        assert forall|i: int| 0 <= i < less.len() implies on_disk(
            files,
            #[trigger] less[i].file,
        ) by {
            assert(less[i] == existing[i]);
        }
        keeping_all(less, files);
        assert(on_disk(files, existing[existing.len() - 1].file));
        assert(kept(existing, files) =~= less.push(existing.last()));
        assert(existing =~= less.push(existing.last()));
    } else {
        assert(kept(existing, files) =~= existing);
    }
}

/// The new rows stand for files on disk, no two of them for one file, and none
/// for a file that has a row already; together they leave no file without a row.
proof fn arrivals_fill_the_gaps(rows: Seq<SoundView>, files: Seq<ClipPathView>)
    ensures
        forall|i: int|
            0 <= i < arrivals(rows, files).len() ==> files.contains(
                #[trigger] arrivals(rows, files)[i],
            ) && !has_row(rows, arrivals(rows, files)[i].text),
        forall|i: int, j: int|
            0 <= i < j < arrivals(rows, files).len() ==> !same_but_case(
                (#[trigger] arrivals(rows, files)[i]).text,
                (#[trigger] arrivals(rows, files)[j]).text,
            ),
        forall|k: int|
            0 <= k < files.len() ==> has_row(rows, #[trigger] files[k].text) || on_disk(
                arrivals(rows, files),
                files[k].text,
            ),
    decreases files.len(),
{
    if files.len() > 0 {
        let less = files.drop_last();
        let file = files.last();
        let before = arrivals(rows, less);
        let after = arrivals(rows, files);
        arrivals_fill_the_gaps(rows, less);
        assert forall|i: int| 0 <= i < after.len() implies files.contains(#[trigger] after[i])
            && !has_row(rows, after[i].text) by {
            if i < before.len() {
                assert(after[i] == before[i]);
                assert(less.contains(before[i]));
                let k = choose|k: int| 0 <= k < less.len() && less[k] == before[i];
                assert(files[k] == after[i]);
            } else {
                assert(files[files.len() - 1] == after[i]);
            }
        }
        assert forall|i: int, j: int| 0 <= i < j < after.len() implies !same_but_case(
            (#[trigger] after[i]).text,
            (#[trigger] after[j]).text,
        ) by {
            assert(after[i] == before[i]);
            if j < before.len() {
                assert(after[j] == before[j]);
            } else {
                assert(after[j] == file);
                assert(!on_disk(before, file.text));
                assert(!same_but_case(before[i].text, file.text));
            }
        }
        assert forall|k: int| 0 <= k < files.len() implies has_row(rows, #[trigger] files[k].text)
            || on_disk(after, files[k].text) by {
            let text = files[k].text;
            if k < less.len() {
                assert(less[k] == files[k]);
            }
            if on_disk(before, text) {
                let i = choose|i: int|
                    0 <= i < before.len() && same_but_case(#[trigger] before[i].text, text);
                assert(after[i] == before[i]);
            } else if !has_row(rows, text) {
                assert(k == less.len());
                assert(after[before.len() as int] == file);
                same_file_is_an_equivalence(text, text, text);
            }
        }
    }
}

/// Whether no two rows stand for one file.
pub open spec fn one_row_each(rows: Seq<SoundView>) -> bool {
    forall|i: int, j: int|
        0 <= i < j < rows.len() ==> !same_but_case(
            (#[trigger] rows[i]).file,
            (#[trigger] rows[j]).file,
        )
}

/// After a sync the rows and the files on disk answer each other: every row has
/// its file, every file has a row, and no new row stands for a file that
/// another row stands for. If no two rows stood for one file before, no two do.
pub proof fn sync_matches_the_disk(
    existing: Seq<SoundView>,
    files: Seq<ClipPathView>,
    ids: Seq<Seq<char>>,
)
    ensures
        forall|i: int|
            0 <= i < merged(existing, files, ids).len() ==> on_disk(
                files,
                #[trigger] merged(existing, files, ids)[i].file,
            ),
        forall|k: int|
            0 <= k < files.len() ==> has_row(
                merged(existing, files, ids),
                #[trigger] files[k].text,
            ),
        forall|i: int, j: int|
            0 <= i < j < merged(existing, files, ids).len() && kept(existing, files).len() <= j
                ==> !same_but_case(
                (#[trigger] merged(existing, files, ids)[i]).file,
                (#[trigger] merged(existing, files, ids)[j]).file,
            ),
        one_row_each(existing) ==> one_row_each(merged(existing, files, ids)),
{
    let base = kept(existing, files);
    kept_rows(existing, files);
    arrivals_fill_the_gaps(base, files);
    rows_have_files(base, files, ids);
    files_have_rows(base, files, ids);
    new_rows_stand_alone(base, files, ids);
    if one_row_each(existing) {
        keeping_keeps_one_row_each(existing, files);
        let all = merged(existing, files, ids);
        assert forall|i: int, j: int| 0 <= i < j < all.len() implies !same_but_case(
            (#[trigger] all[i]).file,
            (#[trigger] all[j]).file,
        ) by {
            if j < base.len() {
                assert(all[i] == base[i] && all[j] == base[j]);
            }
        }
    }
}

/// Rows that drop out leave no file with two rows that had one.
proof fn keeping_keeps_one_row_each(existing: Seq<SoundView>, files: Seq<ClipPathView>)
    requires
        one_row_each(existing),
    ensures
        one_row_each(kept(existing, files)),
    decreases existing.len(),
{
    reveal(Seq::filter);
    if existing.len() > 0 {
        let less = existing.drop_last();
        let last = existing.last();
        let base = kept(less, files);
        assert(one_row_each(less)) by {
            assert forall|i: int, j: int| 0 <= i < j < less.len() implies !same_but_case(
                (#[trigger] less[i]).file,
                (#[trigger] less[j]).file,
            ) by {
                assert(less[i] == existing[i] && less[j] == existing[j]);
            }
        }
        keeping_keeps_one_row_each(less, files);
        kept_rows(less, files);
        if on_disk(files, last.file) {
            let all = kept(existing, files);
            assert(all =~= base.push(last));
            assert forall|i: int, j: int| 0 <= i < j < all.len() implies !same_but_case(
                (#[trigger] all[i]).file,
                (#[trigger] all[j]).file,
            ) by {
                assert(all[i] == base[i]);
                if j == base.len() {
                    assert(base.contains(base[i]));
                    let k = choose|k: int| 0 <= k < less.len() && less[k] == base[i];
                    assert(existing[k] == base[i] && existing[less.len() as int] == last);
                } else {
                    assert(all[j] == base[j]);
                }
            }
        } else {
            assert(kept(existing, files) =~= base);
        }
    } else {
        assert(kept(existing, files) =~= existing);
    }
}

proof fn rows_have_files(base: Seq<SoundView>, files: Seq<ClipPathView>, ids: Seq<Seq<char>>)
    requires
        forall|i: int| 0 <= i < base.len() ==> on_disk(files, #[trigger] base[i].file),
    ensures
        forall|i: int|
            0 <= i < (base + fresh_sounds(arrivals(base, files), ids)).len() ==> on_disk(
                files,
                #[trigger] (base + fresh_sounds(arrivals(base, files), ids))[i].file,
            ),
{
    let came = arrivals(base, files);
    let all = base + fresh_sounds(came, ids);
    arrivals_fill_the_gaps(base, files);
    assert forall|i: int| 0 <= i < all.len() implies on_disk(files, #[trigger] all[i].file) by {
        if i < base.len() {
            assert(on_disk(files, base[i].file));
        } else {
            let p = came[i - base.len()];
            assert(files.contains(p));
            let k = choose|k: int| 0 <= k < files.len() && files[k] == p;
            same_file_is_an_equivalence(p.text, p.text, p.text);
            assert(same_but_case(files[k].text, all[i].file));
        }
    }
}

proof fn files_have_rows(base: Seq<SoundView>, files: Seq<ClipPathView>, ids: Seq<Seq<char>>)
    ensures
        forall|k: int|
            0 <= k < files.len() ==> has_row(
                base + fresh_sounds(arrivals(base, files), ids),
                #[trigger] files[k].text,
            ),
{
    let came = arrivals(base, files);
    arrivals_fill_the_gaps(base, files);
    assert forall|k: int| 0 <= k < files.len() implies has_row(
        base + fresh_sounds(came, ids),
        #[trigger] files[k].text,
    ) by {
        rows_of_arrivals(base, came, ids, files[k].text);
    }
}

proof fn new_rows_stand_alone(base: Seq<SoundView>, files: Seq<ClipPathView>, ids: Seq<Seq<char>>)
    ensures
        forall|i: int, j: int|
            0 <= i < j < (base + fresh_sounds(arrivals(base, files), ids)).len() && base.len() <= j
                ==> !same_but_case(
                (#[trigger] (base + fresh_sounds(arrivals(base, files), ids))[i]).file,
                (#[trigger] (base + fresh_sounds(arrivals(base, files), ids))[j]).file,
            ),
{
    let came = arrivals(base, files);
    let all = base + fresh_sounds(came, ids);
    arrivals_fill_the_gaps(base, files);
    assert forall|i: int, j: int|
        0 <= i < j < all.len() && base.len() <= j implies !same_but_case(
        (#[trigger] all[i]).file,
        (#[trigger] all[j]).file,
    ) by {
        let q = came[j - base.len()];
        assert(all[j].file == q.text);
        if i < base.len() {
            assert(all[i] == base[i]);
            assert(!has_row(base, q.text));
            assert(!same_but_case(base[i].file, q.text));
        } else {
            assert(all[i].file == came[i - base.len()].text);
        }
    }
}

proof fn no_arrivals(rows: Seq<SoundView>, files: Seq<ClipPathView>)
    requires
        forall|k: int| 0 <= k < files.len() ==> has_row(rows, #[trigger] files[k].text),
    ensures
        arrivals(rows, files).len() == 0,
    decreases files.len(),
{
    if files.len() > 0 {
        let less = files.drop_last();
        assert forall|k: int| 0 <= k < less.len() implies has_row(rows, #[trigger] less[k].text) by {
            assert(less[k] == files[k]);
        }
        no_arrivals(rows, less);
        assert(has_row(rows, files[files.len() - 1].text));
    }
}

/// Syncing again with nothing changed churns neither ids nor order nor anything
/// else: the rows stay as they are, whatever ids would be at hand.
pub proof fn syncing_again_changes_nothing(
    existing: Seq<SoundView>,
    files: Seq<ClipPathView>,
    ids: Seq<Seq<char>>,
    more_ids: Seq<Seq<char>>,
)
    ensures
        merged(merged(existing, files, ids), files, more_ids) == merged(existing, files, ids),
{
    let rows = merged(existing, files, ids);
    sync_matches_the_disk(existing, files, ids);
    keeping_all(rows, files);
    no_arrivals(rows, files);
    assert(merged(rows, files, more_ids) =~= rows);
}

/// A file that neither a row nor an arrival stands for is one that neither a row
/// nor a file stands for.
proof fn seen_before(rows: Seq<SoundView>, files: Seq<ClipPathView>, text: Seq<char>)
    ensures
        has_row(rows, text) || on_disk(arrivals(rows, files), text) <==> has_row(rows, text)
            || on_disk(files, text),
{
    let held = arrivals(rows, files);
    arrivals_fill_the_gaps(rows, files);
    if !has_row(rows, text) && on_disk(files, text) {
        let g = choose|g: int|
            0 <= g < files.len() && same_but_case(#[trigger] files[g].text, text);
        if has_row(rows, files[g].text) {
            let i = choose|i: int|
                0 <= i < rows.len() && same_but_case(#[trigger] rows[i].file, files[g].text);
            same_file_is_an_equivalence(rows[i].file, files[g].text, text);
        } else {
            let i = choose|i: int|
                0 <= i < held.len() && same_but_case(#[trigger] held[i].text, files[g].text);
            same_file_is_an_equivalence(held[i].text, files[g].text, text);
        }
    }
    if on_disk(held, text) {
        let i = choose|i: int| 0 <= i < held.len() && same_but_case(#[trigger] held[i].text, text);
        assert(files.contains(held[i]));
        let g = choose|g: int| 0 <= g < files.len() && files[g] == held[i];
        assert(same_but_case(files[g].text, text));
    }
}

/// Where the files that get a row of their own stand: at rising places, and exactly
/// at those whose file has no row and is no file that came before.
proof fn arrival_places(rows: Seq<SoundView>, files: Seq<ClipPathView>) -> (came: Seq<int>)
    ensures
        came.len() == arrivals(rows, files).len(),
        forall|k: int, l: int| 0 <= k < l < came.len() ==> #[trigger] came[k] < #[trigger] came[l],
        forall|k: int|
            0 <= k < came.len() ==> 0 <= #[trigger] came[k] < files.len() && arrivals(
                rows,
                files,
            )[k] == files[came[k]],
        forall|f: int|
            0 <= f < files.len() ==> (came.contains(f) <==> !has_row(rows, (#[trigger] files[f]).text)
                && !on_disk(files.take(f), files[f].text)),
    decreases files.len(),
{
    if files.len() == 0 {
        Seq::empty()
    } else {
        let less = files.drop_last();
        let last = files.len() - 1;
        let file = files.last();
        let before = arrival_places(rows, less);
        seen_before(rows, less, file.text);
        assert(files.take(last) =~= less);
        let new = !has_row(rows, file.text) && !on_disk(less, file.text);
        let came = if new {
            before.push(last)
        } else {
            before
        };
        assert forall|k: int| 0 <= k < came.len() implies 0 <= #[trigger] came[k] < files.len()
            && arrivals(rows, files)[k] == files[came[k]] by {
            if k < before.len() {
                assert(came[k] == before[k]);
                assert(less[before[k]] == files[came[k]]);
            }
        }
        assert forall|f: int| 0 <= f < files.len() implies (came.contains(f) <==> !has_row(
            rows,
            (#[trigger] files[f]).text,
        ) && !on_disk(files.take(f), files[f].text)) by {
            if f < last {
                assert(less[f] == files[f]);
                assert(less.take(f) =~= files.take(f));
                if before.contains(f) {
                    let k = choose|k: int| 0 <= k < before.len() && before[k] == f;
                    assert(came[k] == f);
                }
                if came.contains(f) {
                    let k = choose|k: int| 0 <= k < came.len() && came[k] == f;
                    assert(before[k] == f);
                }
            } else if new {
                assert(came[before.len() as int] == f);
            } else if came.contains(f) {
                let k = choose|k: int| 0 <= k < came.len() && came[k] == f;
                assert(before[k] == f);
            }
        }
        came
    }
}

/// After a sync the rows that still have their file come first, in the order they
/// had and with everything they had, each as often as it was there, and no others.
/// Gives where they stood before.
pub proof fn rows_that_stay_keep_their_order(
    existing: Seq<SoundView>,
    files: Seq<ClipPathView>,
    ids: Seq<Seq<char>>,
) -> (at: Seq<int>)
    ensures
        at.len() == kept(existing, files).len(),
        at.len() <= merged(existing, files, ids).len(),
        forall|k: int, l: int| 0 <= k < l < at.len() ==> #[trigger] at[k] < #[trigger] at[l],
        forall|k: int|
            0 <= k < at.len() ==> 0 <= #[trigger] at[k] < existing.len() && merged(
                existing,
                files,
                ids,
            )[k] == existing[at[k]],
        forall|i: int|
            0 <= i < existing.len() ==> (at.contains(i) <==> exists|f: int|
                0 <= f < files.len() && same_but_case(
                    (#[trigger] files[f]).text,
                    (#[trigger] existing[i]).file,
                )),
{
    let keep = |s: SoundView| on_disk(files, s.file);
    let at = filter_places(existing, keep);
    assert forall|k: int| 0 <= k < at.len() implies 0 <= #[trigger] at[k] < existing.len() && merged(
        existing,
        files,
        ids,
    )[k] == existing[at[k]] by {
        assert(merged(existing, files, ids)[k] == kept(existing, files)[k]);
    }
    assert forall|i: int| 0 <= i < existing.len() implies (at.contains(i) <==> on_disk(
        files,
        (#[trigger] existing[i]).file,
    )) by {
        assert(keep(existing[i]) == on_disk(files, existing[i].file));
        if at.contains(i) {
            let k = choose|k: int| 0 <= k < at.len() && at[k] == i;
            assert(keep(existing[at[k]]));
        }
    }
    assert forall|i: int| 0 <= i < existing.len() implies (at.contains(i) <==> exists|f: int|
        0 <= f < files.len() && same_but_case(
            (#[trigger] files[f]).text,
            (#[trigger] existing[i]).file,
        )) by {
        if on_disk(files, existing[i].file) {
            let f = choose|f: int|
                0 <= f < files.len() && same_but_case(#[trigger] files[f].text, existing[i].file);
            assert(same_but_case(files[f].text, existing[i].file));
        }
        if exists|f: int|
            0 <= f < files.len() && same_but_case(
                (#[trigger] files[f]).text,
                existing[i].file,
            ) {
            let f = choose|f: int|
                0 <= f < files.len() && same_but_case((#[trigger] files[f]).text, existing[i].file);
            assert(same_but_case(files[f].text, existing[i].file));
        }
    }
    at
}

/// Behind the rows that stay come those of the new files, in the order in which
/// the files were found: a row for exactly each file that no row had before and
/// that was not found before. It is named by its file and not tuned. Gives where
/// the files stand.
pub proof fn new_files_get_untuned_rows_at_the_end(
    existing: Seq<SoundView>,
    files: Seq<ClipPathView>,
    ids: Seq<Seq<char>>,
) -> (came: Seq<int>)
    ensures
        merged(existing, files, ids).len() == kept(existing, files).len() + came.len(),
        forall|k: int, l: int| 0 <= k < l < came.len() ==> #[trigger] came[k] < #[trigger] came[l],
        forall|k: int|
            0 <= k < came.len() ==> 0 <= #[trigger] came[k] < files.len() && {
                let row = merged(existing, files, ids)[kept(existing, files).len() + k];
                let file = files[came[k]];
                &&& row.id == ids[k]
                &&& row.file == file.text
                &&& file.stem matches Some(stem) ==> row.name == stem
                &&& file.stem is None ==> row.name == "sound"@
                &&& row.hotkey.len() == 0
                &&& row.volume.bits == 0x3f80_0000
                &&& row.offset.bits == 0
                &&& row.pitch == Pitch::Step {
                    step: Single { bits: 0xbdf5_c28f },
                    min: Single { bits: 0x3eb3_3333 },
                    max: Single { bits: 0x4020_0000 },
                }
            },
        forall|f: int|
            #![trigger files[f]]
            0 <= f < files.len() ==> (came.contains(f) <==> {
                &&& forall|i: int|
                    0 <= i < existing.len() ==> !same_but_case(
                        (#[trigger] existing[i]).file,
                        files[f].text,
                    )
                &&& forall|g: int|
                    0 <= g < f ==> !same_but_case((#[trigger] files[g]).text, files[f].text)
            }),
{
    let base = kept(existing, files);
    let came = arrival_places(base, files);
    let all = merged(existing, files, ids);
    assert forall|k: int| 0 <= k < came.len() implies 0 <= #[trigger] came[k] < files.len()
        && all[base.len() + k] == fresh_sound(files[came[k]], ids[k]) by {
        assert(all[base.len() + k] == fresh_sounds(arrivals(base, files), ids)[k]);
    }
    kept_rows(existing, files);
    assert forall|f: int|
        #![trigger files[f]]
        0 <= f < files.len() implies (came.contains(f) <==> {
        &&& forall|i: int|
            0 <= i < existing.len() ==> !same_but_case(
                (#[trigger] existing[i]).file,
                files[f].text,
            )
        &&& forall|g: int|
            0 <= g < f ==> !same_but_case((#[trigger] files[g]).text, files[f].text)
    }) by {
        had_a_row_before(existing, files, f);
        let t = files[f].text;
        if on_disk(files.take(f), t) {
            let g = choose|g: int|
                0 <= g < f && same_but_case(#[trigger] files.take(f)[g].text, t);
            assert(files.take(f)[g] == files[g]);
            assert(same_but_case(files[g].text, t));
        } else {
            assert forall|g: int| 0 <= g < f implies !same_but_case(
                (#[trigger] files[g]).text,
                t,
            ) by {
                assert(files.take(f)[g] == files[g]);
                assert(!same_but_case(files.take(f)[g].text, t));
            }
        }
    }
    came
}

/// A file has a row among those that stay exactly if it had one before.
proof fn had_a_row_before(existing: Seq<SoundView>, files: Seq<ClipPathView>, f: int)
    requires
        0 <= f < files.len(),
    ensures
        !has_row(kept(existing, files), files[f].text) <==> forall|i: int|
            0 <= i < existing.len() ==> !same_but_case(
                (#[trigger] existing[i]).file,
                files[f].text,
            ),
{
    let base = kept(existing, files);
    let t = files[f].text;
    kept_rows(existing, files);
    if has_row(base, t) {
        let k = choose|k: int| 0 <= k < base.len() && same_but_case(#[trigger] base[k].file, t);
        assert(base.contains(base[k]));
        let i = choose|i: int| 0 <= i < existing.len() && existing[i] == base[k];
        assert(same_but_case(existing[i].file, t));
    } else {
        assert forall|i: int| 0 <= i < existing.len() implies !same_but_case(
            (#[trigger] existing[i]).file,
            t,
        ) by {
            if same_but_case(existing[i].file, t) {
                same_file_is_an_equivalence(existing[i].file, t, t);
                assert(same_but_case(files[f].text, existing[i].file));
                assert(existing.contains(existing[i]));
                assert(base.contains(existing[i]));
                let k = choose|k: int| 0 <= k < base.len() && base[k] == existing[i];
                assert(same_but_case(base[k].file, t));
            }
        }
    }
}

/// A folder is walked depth first: all that stands in the folders in it, in the
/// order in which they are listed, comes before its own audio files, which come in
/// dictionary order. Gives the latter.
pub proof fn a_folder_is_walked_depth_first(dir: Listing) -> (own: Seq<ClipPathView>)
    ensures
        files_under(dir) == dir.entries@.map_values(
            |e: Entry|
                match e {
                    Entry::Folder(inner) => files_under(inner),
                    Entry::File(_) => Seq::empty(),
                },
        ).flatten() + own,
        forall|i: int, j: int|
            0 <= i < j < own.len() ==> bytes_le(
                (#[trigger] own[i]).order,
                (#[trigger] own[j]).order,
            ),
        own.to_multiset() == dir.entries@.map_values(
            |e: Entry|
                match e {
                    Entry::Folder(_) => Seq::empty(),
                    Entry::File(p) => seq![p@],
                },
        ).flatten().filter(|p: ClipPathView| is_audio_spec(p)).to_multiset(),
{
    let es = dir.entries@;
    nested_files_are_flat(es);
    own_files_are_flat(es);
    in_order_sorts(own_files(es));
    in_order(own_files(es))
}

proof fn nested_files_are_flat(es: Seq<Entry>)
    ensures
        nested_files(es) == es.map_values(
            |e: Entry|
                match e {
                    Entry::Folder(inner) => files_under(inner),
                    Entry::File(_) => Seq::empty(),
                },
        ).flatten(),
    decreases es.len(),
{
    let f = |e: Entry|
        match e {
            Entry::Folder(inner) => files_under(inner),
            Entry::File(_) => Seq::empty(),
        };
    if es.len() > 0 {
        let less = es.drop_last();
        nested_files_are_flat(less);
        assert(es.map_values(f) =~= less.map_values(f).push(f(es.last())));
        less.map_values(f).lemma_flatten_push(f(es.last()));
        assert(nested_files(es) =~= nested_files(less) + f(es.last()));
    } else {
        assert(es.map_values(f) =~= Seq::empty());
    }
}

proof fn own_files_are_flat(es: Seq<Entry>)
    ensures
        own_files(es) == es.map_values(
            |e: Entry|
                match e {
                    Entry::Folder(_) => Seq::empty(),
                    Entry::File(p) => seq![p@],
                },
        ).flatten().filter(|p: ClipPathView| is_audio_spec(p)),
    decreases es.len(),
{
    let f = |e: Entry|
        match e {
            Entry::Folder(_) => Seq::empty(),
            Entry::File(p) => seq![p@],
        };
    let keep = |p: ClipPathView| is_audio_spec(p);
    reveal_with_fuel(Seq::filter, 2);
    if es.len() > 0 {
        let less = es.drop_last();
        let last = f(es.last());
        own_files_are_flat(less);
        assert(es.map_values(f) =~= less.map_values(f).push(last));
        less.map_values(f).lemma_flatten_push(last);
        Seq::filter_distributes_over_add(less.map_values(f).flatten(), last, keep);
        if let Entry::File(p) = es.last() {
            assert(last.drop_last() =~= Seq::empty());
            assert(keep(p@) == is_audio_spec(p@));
        }
        assert(own_files(es) =~= own_files(less) + last.filter(keep));
    } else {
        assert(es.map_values(f) =~= Seq::empty());
    }
}

/// The paths of a list are shown each in its place.
pub proof fn paths_are_shown_in_place(paths: Seq<ClipPath>)
    ensures
        path_views(paths).len() == paths.len(),
        forall|i: int| 0 <= i < paths.len() ==> #[trigger] path_views(paths)[i] == paths[i]@,
        forall|i: int|
            0 <= i < paths.len() ==> {
                &&& (#[trigger] paths[i])@.text == paths[i].text@
                &&& paths[i]@.order == paths[i].order@
                &&& paths[i].stem matches Some(s) ==> paths[i]@.stem == Some(s@)
                &&& paths[i].stem is None ==> paths[i]@.stem is None
                &&& paths[i].extension matches Some(s) ==> paths[i]@.extension == Some(s@)
                &&& paths[i].extension is None ==> paths[i]@.extension is None
            },
{
}

} // verus!
