//! Copying audio files into the board's own folder, or into a profile's.

use crate::config::{sound_views, Pitch, Sound, SoundView};
use crate::folder::{fresh_sound, new_sound, path_views};
use crate::paths::{
    audio_extension, audio_extensions_hold_no_dot, clip_path, file_name, is_audio_extension,
    is_audio_spec, is_in_folder, last_dot_is, lies_in, lowered, name_extension, name_stem, stem,
    stem_spec, ClipPath, ClipPathView,
};
use crate::place::filter_places;
use crate::single::{Single, ONE, ZERO};
use crate::text::{digits, digits_tell_numbers_apart, joined, number, texts};
use vstd::prelude::*;

verus! {

/// The most numbers that are tried for one file name.
pub const MOST_TRIES: u32 = 0x7fff_fffe;

/// The files that are being imported, and how far the import has come.
///
/// The owner of the import asks [`Import::next`] what to do, and answers with
/// [`Import::probed`] whether a name is taken and with [`Import::copied`] where
/// a copy went.
#[derive(Debug)]
pub struct Import {
    /// The files, in the order in which they were dropped.
    pub paths: Vec<ClipPath>,
    /// The folder they go to.
    pub dir: String,
    /// The file that is looked at.
    pub at: usize,
    /// How many numbers were tried behind its name.
    pub tries: u32,
    /// The rows of the files that have arrived.
    pub imported: Vec<Sound>,
}

/// What an [`Import`] holds.
#[verifier::ext_equal]
pub struct ImportView {
    pub paths: Seq<ClipPathView>,
    pub dir: Seq<char>,
    pub at: int,
    pub tries: nat,
    pub imported: Seq<SoundView>,
}

impl View for Import {
    type V = ImportView;

    open spec fn view(&self) -> ImportView {
        ImportView {
            paths: path_views(self.paths@),
            dir: self.dir@,
            at: self.at as int,
            tries: self.tries as nat,
            imported: sound_views(self.imported@),
        }
    }
}

/// What is to be done next for an import.
#[derive(Debug)]
pub enum ImportAction {
    /// Find out whether the folder has a file of this name.
    Probe { name: String },
    /// Copy the file to this name in the folder.
    Copy { from: String, name: String },
    /// Nothing: every file has been dealt with.
    Finish,
}

/// The name of a copy: that of the file, with a number behind it if names
/// without one or with a smaller one are taken.
pub open spec fn copy_name(stem: Seq<char>, ext: Seq<char>, n: nat) -> Seq<char> {
    if n == 0 {
        stem + "."@ + ext
    } else {
        stem + " ("@ + digits(n, 10) + ")."@ + ext
    }
}

/// The name of the nth try for a file.
pub open spec fn try_name(path: ClipPathView, n: nat) -> Seq<char> {
    copy_name(stem_spec(path), lowered(path.extension->0), n)
}

/// Whether a file is taken as it lies: it is audio, and in the folder already.
pub open spec fn is_adopted(path: ClipPathView, dir: Seq<char>) -> bool {
    is_audio_spec(path) && lies_in(path.text, dir)
}

/// Whether a file has to be copied: it is audio, and lies elsewhere.
pub open spec fn needs_copy(path: ClipPathView, dir: Seq<char>) -> bool {
    is_audio_spec(path) && !lies_in(path.text, dir)
}

/// The files from `at` on that are taken as they lie, up to the first that has
/// to be copied.
pub open spec fn adopted(paths: Seq<ClipPathView>, dir: Seq<char>, at: int) -> Seq<ClipPathView>
    decreases paths.len() - at,
{
    if at < 0 || at >= paths.len() || needs_copy(paths[at], dir) {
        Seq::empty()
    } else if is_adopted(paths[at], dir) {
        seq![paths[at]] + adopted(paths, dir, at + 1)
    } else {
        adopted(paths, dir, at + 1)
    }
}

/// The first file from `at` on that has to be copied; the end of the list if
/// there is none.
pub open spec fn next_copy(paths: Seq<ClipPathView>, dir: Seq<char>, at: int) -> int
    decreases paths.len() - at,
{
    if at < 0 || at >= paths.len() || needs_copy(paths[at], dir) {
        at
    } else {
        next_copy(paths, dir, at + 1)
    }
}

/// Whether rows are those of the given files, one for each and in their order,
/// under whatever ids.
pub open spec fn rows_of(rows: Seq<SoundView>, paths: Seq<ClipPathView>) -> bool {
    &&& rows.len() == paths.len()
    &&& forall|i: int| 0 <= i < rows.len() ==> #[trigger] rows[i] == fresh_sound(paths[i], rows[i].id)
}

/// The audio files among the first `at` paths.
pub open spec fn audio_before(paths: Seq<ClipPathView>, at: int) -> Seq<ClipPathView> {
    paths.take(at).filter(|p: ClipPathView| is_audio_spec(p))
}

/// The paths of a list of texts.
pub open spec fn read_paths(paths: Seq<Seq<char>>) -> Seq<ClipPathView> {
    paths.map_values(|text: Seq<char>| clip_path(text))
}

/// Whether a path is what its text gives.
pub open spec fn is_read(path: ClipPathView) -> bool {
    path == clip_path(path.text)
}

/// Whether a row is that of a file that was imported. It is the row of a clip
/// that has just arrived, named by its file, which lies in the folder: the file
/// itself if it was there already, or else a copy under a name that was tried.
pub open spec fn is_row_of(row: SoundView, path: ClipPathView, dir: Seq<char>) -> bool {
    &&& row == fresh_sound(clip_path(row.file), row.id)
    &&& lies_in(row.file, dir)
    &&& if lies_in(path.text, dir) {
        row.file == path.text
    } else {
        exists|n: nat| file_name(row.file) == Some(#[trigger] try_name(path, n))
    }
}

impl ImportView {
    /// Whether the rows answer the audio files that have been dealt with: one
    /// row for each, in the order in which they were dropped.
    pub open spec fn in_step(self) -> bool {
        let done = audio_before(self.paths, self.at);
        &&& 0 <= self.at <= self.paths.len()
        &&& forall|i: int| 0 <= i < self.paths.len() ==> is_read(#[trigger] self.paths[i])
        &&& self.imported.len() == done.len()
        &&& forall|k: int|
            0 <= k < done.len() ==> is_row_of(self.imported[k], #[trigger] done[k], self.dir)
    }

    /// Whether a file that has to be copied is being looked at.
    pub open spec fn is_copying(self) -> bool {
        0 <= self.at < self.paths.len() && needs_copy(self.paths[self.at], self.dir)
    }

    /// The file that is looked at.
    pub open spec fn current(self) -> ClipPathView {
        self.paths[self.at]
    }
}

/// The import once it is known whether the name that was tried is taken.
pub open spec fn answered(import: ImportView, taken: bool) -> ImportView {
    if taken {
        ImportView { tries: import.tries + 1, ..import }
    } else {
        import
    }
}

/// The import after `k` probes of a folder in which the given names are taken.
pub open spec fn after_probes(import: ImportView, taken: Set<Seq<char>>, k: nat) -> ImportView
    decreases k,
{
    if k == 0 {
        import
    } else {
        let before = after_probes(import, taken, (k - 1) as nat);
        answered(before, taken.contains(try_name(before.current(), before.tries)))
    }
}

/// Whether `n` is the least number under which a copy overwrites nothing.
pub open spec fn is_least_free(path: ClipPathView, taken: Set<Seq<char>>, n: nat) -> bool {
    &&& !taken.contains(try_name(path, n))
    &&& forall|j: nat| j < n ==> taken.contains(#[trigger] try_name(path, j))
}

/// The folder that an import was asked to go to. An empty name asks for none,
/// and then the files go to the board's own folder.
pub fn asked_dir(dest: Option<String>) -> (r: Option<String>)
    ensures
        r == match dest {
            Some(d) => if d@.len() > 0 {
                Some(d)
            } else {
                None
            },
            None => None,
        },
{
    match dest {
        Some(d) => if d.as_str().is_empty() {
            None
        } else {
            Some(d)
        },
        None => None,
    }
}

/// Writes out the name of a copy.
pub fn target_name(stem: &str, ext: &str, n: u32) -> (r: String)
    ensures
        r@ == copy_name(stem@, ext@, n as nat),
{
    if n == 0 {
        let dotted = joined(stem, ".");
        joined(dotted.as_str(), ext)
    } else {
        let digits = number(n as u64, 10);
        let open = joined(stem, " (");
        let numbered = joined(open.as_str(), digits.as_str());
        let closed = joined(numbered.as_str(), ").");
        joined(closed.as_str(), ext)
    }
}

impl Import {
    /// Starts an import of the files with the given paths.
    pub fn new(paths: &Vec<String>, dir: String) -> (r: Import)
        ensures
            r@ == (ImportView {
                paths: read_paths(texts(paths@)),
                dir: dir@,
                at: 0,
                tries: 0,
                imported: Seq::empty(),
            }),
            r@.in_step(),
    {
        let mut read: Vec<ClipPath> = Vec::new();
        let ghost all = read_paths(texts(paths@));
        let n: usize = paths.len();
        assert(path_views(read@) =~= all.take(0));
        for i in 0..n
            invariant
                n == paths.len(),
                all == read_paths(texts(paths@)),
                path_views(read@) == all.take(i as int),
        {
            let ghost before = path_views(read@);
            read.push(ClipPath::new(paths[i].as_str()));
            assert(path_views(read@) =~= before.push(clip_path(paths@[i as int]@)));
            assert(all.take(i + 1) =~= before.push(all[i as int]));
        }
        let r = Import { paths: read, dir, at: 0, tries: 0, imported: Vec::new() };
        proof {
            assert(all.take(n as int) =~= all);
            assert(sound_views(r.imported@) =~= Seq::empty());
            reveal(Seq::filter);
            assert(audio_before(r@.paths, 0) =~= Seq::empty());
            assert forall|i: int| 0 <= i < r@.paths.len() implies is_read(#[trigger] r@.paths[i]) by {
                assert(all[i] == clip_path(texts(paths@)[i]));
            }
        }
        r
    }

    /// The name that is tried for the file that is looked at.
    fn name(&self) -> (r: String)
        requires
            self@.is_copying(),
        ensures
            r@ == try_name(self@.current(), self@.tries),
    {
        let path = &self.paths[self.at];
        assert(path@ == self@.current());
        let title = stem(path);
        match audio_extension(path) {
            Some(ext) => target_name(title.as_str(), ext, self.tries),
            None => title,
        }
    }

    /// Passes over what is no audio, takes what is in the folder already, and
    /// goes on to the next file that has to be copied. `fresh_id` is asked once
    /// for each row that is added, with its place among the rows, and gives its id.
    pub fn next(&mut self, fresh_id: impl Fn(u64) -> String) -> (r: ImportAction)
        requires
            old(self)@.at <= old(self)@.paths.len(),
            forall|n: u64| call_requires(fresh_id, (n,)),
        ensures
            final(self)@.paths == old(self)@.paths,
            final(self)@.dir == old(self)@.dir,
            final(self)@.at == next_copy(old(self)@.paths, old(self)@.dir, old(self)@.at),
            final(self)@.tries == 0,
            old(self)@.imported.len() <= final(self)@.imported.len(),
            final(self)@.imported.take(old(self)@.imported.len() as int) == old(self)@.imported,
            rows_of(
                final(self)@.imported.skip(old(self)@.imported.len() as int),
                adopted(old(self)@.paths, old(self)@.dir, old(self)@.at),
            ),
            forall|i: int|
                old(self)@.imported.len() <= i < final(self).imported.len() ==> call_ensures(
                    fresh_id,
                    (i as u64,),
                    (#[trigger] final(self).imported@[i]).id,
                ),
            old(self)@.in_step() ==> final(self)@.in_step(),
            if final(self)@.at < final(self)@.paths.len() {
                &&& final(self)@.is_copying()
                &&& r matches ImportAction::Probe { name }
                &&& name@ == try_name(final(self)@.current(), 0)
            } else {
                r is Finish
            },
    {
        let ghost start = self@;
        let ghost all = adopted(start.paths, start.dir, start.at);
        let ghost mut done: Seq<ClipPathView> = Seq::empty();
        let n: usize = self.paths.len();
        self.tries = 0;
        assert(done + adopted(start.paths, start.dir, start.at) =~= all);
        assert(self@.imported.take(start.imported.len() as int) =~= start.imported);
        loop
            invariant
                n == self.paths.len(),
                self.at <= n,
                self.tries == 0,
                forall|n: u64| call_requires(fresh_id, (n,)),
                self@.paths == start.paths,
                self@.dir == start.dir,
                all == adopted(start.paths, start.dir, start.at),
                next_copy(start.paths, start.dir, start.at) == next_copy(
                    start.paths,
                    start.dir,
                    self@.at,
                ),
                done + adopted(start.paths, start.dir, self@.at) == all,
                start.imported.len() + done.len() == self@.imported.len(),
                self@.imported.take(start.imported.len() as int) == start.imported,
                rows_of(self@.imported.skip(start.imported.len() as int), done),
                forall|i: int|
                    start.imported.len() <= i < self.imported.len() ==> call_ensures(
                        fresh_id,
                        (i as u64,),
                        (#[trigger] self.imported@[i]).id,
                    ),
            ensures
                self.at == next_copy(start.paths, start.dir, start.at),
                done == all,
                self.at < n ==> self@.is_copying(),
            decreases n - self.at,
        {
            if self.at == n {
                assert(done =~= all);
                break;
            }
            let ghost before = *self;
            let path = self.paths[self.at].clone();
            assert(path@ == self@.paths[self@.at]);
            if audio_extension(&path).is_some() {
                if !is_in_folder(path.text.as_str(), self.dir.as_str()) {
                    assert(done =~= all);
                    break;
                }
                let id = fresh_id(self.imported.len() as u64);
                let row = new_sound(&path, id);
                self.imported.push(row);
                proof {
                    let more = done.push(path@);
                    let from = start.imported.len() as int;
                    let rows = self@.imported.skip(from);
                    assert(self@.imported =~= before@.imported.push(row@));
                    assert(rows =~= before@.imported.skip(from).push(row@));
                    assert(self@.imported.take(from) =~= before@.imported.take(from));
                    assert(row@ == fresh_sound(path@, row@.id));
                    assert(rows_of(rows, more));
                    assert forall|i: int| from <= i < self.imported.len() implies call_ensures(
                        fresh_id,
                        (i as u64,),
                        (#[trigger] self.imported@[i]).id,
                    ) by {
                        if i < before.imported@.len() {
                            assert(self.imported@[i] == before.imported@[i]);
                        }
                    }
                    assert(more + adopted(start.paths, start.dir, self@.at + 1) =~= done + adopted(
                        start.paths,
                        start.dir,
                        self@.at,
                    ));
                    done = more;
                }
            }
            self.at = self.at + 1;
        }
        proof {
            if start.in_step() {
                adopting_keeps_step(start, self@);
            }
        }
        if self.at < n {
            ImportAction::Probe { name: self.name() }
        } else {
            ImportAction::Finish
        }
    }

    /// Goes on once it is known whether the name that was tried is taken: to
    /// the next number if it is, to the copy if it is free.
    pub fn probed(&mut self, taken: bool) -> (r: ImportAction)
        requires
            old(self)@.is_copying(),
            taken ==> old(self)@.tries < MOST_TRIES,
        ensures
            final(self)@ == answered(old(self)@, taken),
            if taken {
                &&& r matches ImportAction::Probe { name }
                &&& name@ == try_name(old(self)@.current(), old(self)@.tries + 1)
            } else {
                &&& r matches ImportAction::Copy { from, name }
                &&& from@ == old(self)@.current().text
                &&& name@ == try_name(old(self)@.current(), old(self)@.tries)
            },
    {
        if taken {
            self.tries = self.tries + 1;
            ImportAction::Probe { name: self.name() }
        } else {
            assert(self.paths@[self.at as int]@ == self@.current());
            ImportAction::Copy { from: self.paths[self.at].text.clone(), name: self.name() }
        }
    }

    /// Takes note of a copy that was made. `target` is where it went: to the name
    /// that was tried, in the folder.
    pub fn copied(&mut self, target: &str, id: String)
        requires
            old(self)@.is_copying(),
            lies_in(target@, old(self)@.dir),
            file_name(target@) == Some(try_name(old(self)@.current(), old(self)@.tries)),
        ensures
            final(self)@ == (ImportView {
                at: old(self)@.at + 1,
                imported: old(self)@.imported.push(fresh_sound(clip_path(target@), id@)),
                ..old(self)@
            }),
            old(self)@.in_step() ==> final(self)@.in_step(),
    {
        let ghost before = self@;
        let n: usize = self.paths.len();
        assert(self.at < n);
        let row = new_sound(&ClipPath::new(target), id);
        self.imported.push(row);
        self.at = self.at + 1;
        proof {
            assert(self@.imported =~= before.imported.push(row@));
            if before.in_step() {
                copying_keeps_step(before, row@);
            }
        }
    }

    /// What is reported if a copy fails: the import ends with it.
    pub fn copy_failed(&self, error: &str) -> (r: String)
        requires
            self@.is_copying(),
        ensures
            r@ == self@.current().text + ": "@ + error@,
    {
        assert(self.paths@[self.at as int]@ == self@.current());
        let head = joined(self.paths[self.at].text.as_str(), ": ");
        joined(head.as_str(), error)
    }
}

/// No name is tried twice: different numbers give different names.
pub proof fn copy_names_differ(stem: Seq<char>, ext: Seq<char>, n: nat, m: nat)
    requires
        copy_name(stem, ext, n) == copy_name(stem, ext, m),
    ensures
        n == m,
{
    reveal_strlit(".");
    reveal_strlit(" (");
    reveal_strlit(").");
    let k = stem.len() as int + 2;
    let a = copy_name(stem, ext, n);
    let b = copy_name(stem, ext, m);
    assert("."@.len() == 1 && " ("@.len() == 2 && ")."@.len() == 2);
    assert(n > 0 ==> a.len() == stem.len() + digits(n, 10).len() + 4 + ext.len());
    assert(m > 0 ==> b.len() == stem.len() + digits(m, 10).len() + 4 + ext.len());
    if n > 0 && m > 0 {
        assert(digits(n, 10).len() == digits(m, 10).len());
        assert(digits(n, 10) =~= a.subrange(k, k + digits(n, 10).len()));
        assert(digits(m, 10) =~= b.subrange(k, k + digits(m, 10).len()));
        digits_tell_numbers_apart(n, m, 10);
    }
}

/// The probes of one file go through the numbers in order. They touch nothing
/// else, and a number is left behind only if its name is taken; so when a name
/// turns out to be free, and the copy is made, it goes to the least number that
/// is free and overwrites nothing.
pub proof fn a_copy_goes_to_the_least_free_number(
    import: ImportView,
    taken: Set<Seq<char>>,
    k: nat,
)
    requires
        import.is_copying(),
        import.tries == 0,
    ensures
        ({
            let now = after_probes(import, taken, k);
            &&& now == (ImportView { tries: now.tries, ..import })
            &&& now.tries <= k
            &&& forall|j: nat|
                j < now.tries ==> taken.contains(#[trigger] try_name(import.current(), j))
            &&& if taken.contains(try_name(import.current(), now.tries)) {
                now.tries == k
            } else {
                is_least_free(import.current(), taken, now.tries)
            }
        }),
    decreases k,
{
    if k > 0 {
        a_copy_goes_to_the_least_free_number(import, taken, (k - 1) as nat);
    }
}

/// A name that is free is always found: among as many taken names as a folder
/// has, that many probes are enough.
pub proof fn a_free_name_is_found(import: ImportView, taken: Set<Seq<char>>)
    requires
        import.is_copying(),
        import.tries == 0,
        taken.finite(),
    ensures
        is_least_free(
            import.current(),
            taken,
            after_probes(import, taken, taken.len()).tries,
        ),
{
    let path = import.current();
    let now = after_probes(import, taken, taken.len());
    a_copy_goes_to_the_least_free_number(import, taken, taken.len());
    if taken.contains(try_name(path, now.tries)) {
        let names = Seq::new(taken.len() + 1, |j: int| try_name(path, j as nat));
        assert forall|i: int, j: int|
            0 <= i < names.len() && 0 <= j < names.len() && i != j implies names[i] != names[j] by {
            if names[i] == names[j] {
                copy_names_differ(stem_spec(path), lowered(path.extension->0), i as nat, j as nat);
            }
        }
        names.unique_seq_to_set();
        assert forall|t: Seq<char>| names.to_set().contains(t) implies taken.contains(t) by {
            let j = choose|j: int| 0 <= j < names.len() && names[j] == t;
            assert(t == try_name(path, j as nat));
        }
        vstd::set_lib::lemma_len_subset(names.to_set(), taken);
    }
}

/// A copy of an audio file is an audio file: whatever number stands behind its
/// name, its extension is the given one, and its name starts with the given one.
pub proof fn copies_are_audio(stem: Seq<char>, ext: Seq<char>, n: nat)
    requires
        stem.len() > 0,
        is_audio_extension(ext),
    ensures
        name_extension(copy_name(stem, ext, n)) == Some(ext),
        stem.is_prefix_of(name_stem(copy_name(stem, ext, n))),
{
    reveal_strlit(".");
    reveal_strlit(" (");
    reveal_strlit(").");
    let name = copy_name(stem, ext, n);
    let dot = name.len() - ext.len() - 1;
    audio_extensions_hold_no_dot(ext);
    assert(name[dot] == '.');
    assert forall|i: int| dot < i < name.len() implies name[i] != '.' by {
        assert(name[i] == ext[i - dot - 1]);
    }
    last_dot_is(name, dot);
    assert(name.skip(dot + 1) =~= ext);
    assert(stem =~= name.take(dot).take(stem.len() as int));
}

/// The audio files up to the next one.
proof fn audio_up_to_next(paths: Seq<ClipPathView>, at: int)
    requires
        0 <= at < paths.len(),
    ensures
        audio_before(paths, at + 1) == if is_audio_spec(paths[at]) {
            audio_before(paths, at).push(paths[at])
        } else {
            audio_before(paths, at)
        },
{
    let keep = |p: ClipPathView| is_audio_spec(p);
    assert(paths.take(at + 1) =~= paths.take(at).push(paths[at]));
    paths.take(at).lemma_filter_push(paths[at], keep);
    assert(keep(paths[at]) == is_audio_spec(paths[at]));
}

/// What is taken as it lies are the audio files up to the next that has to be
/// copied.
proof fn adopted_are_the_audio_files(paths: Seq<ClipPathView>, dir: Seq<char>, at: int)
    requires
        0 <= at <= paths.len(),
        forall|i: int| 0 <= i < paths.len() ==> is_read(#[trigger] paths[i]),
    ensures
        at <= next_copy(paths, dir, at) <= paths.len(),
        audio_before(paths, next_copy(paths, dir, at)) == audio_before(paths, at) + adopted(
            paths,
            dir,
            at,
        ),
        forall|i: int|
            0 <= i < adopted(paths, dir, at).len() ==> is_adopted(
                #[trigger] adopted(paths, dir, at)[i],
                dir,
            ) && is_read(adopted(paths, dir, at)[i]),
    decreases paths.len() - at,
{
    if at == paths.len() || needs_copy(paths[at], dir) {
        assert(audio_before(paths, at) + adopted(paths, dir, at) =~= audio_before(paths, at));
    } else {
        adopted_are_the_audio_files(paths, dir, at + 1);
        audio_up_to_next(paths, at);
        assert(audio_before(paths, at + 1) + adopted(paths, dir, at + 1) =~= audio_before(paths, at)
            + adopted(paths, dir, at));
    }
}

/// A file that is taken as it lies gets its own row.
proof fn adopted_row(row: SoundView, path: ClipPathView, dir: Seq<char>)
    requires
        row == fresh_sound(path, row.id),
        is_adopted(path, dir),
        is_read(path),
    ensures
        is_row_of(row, path, dir),
{
}

/// What holds of the rows that were there and of those that came holds of all.
proof fn holds_of_all(
    rows: Seq<SoundView>,
    files: Seq<ClipPathView>,
    came: Seq<ClipPathView>,
    p: spec_fn(SoundView, ClipPathView) -> bool,
)
    requires
        rows.len() == files.len() + came.len(),
        forall|k: int| 0 <= k < files.len() ==> p(rows[k], #[trigger] files[k]),
        forall|i: int| 0 <= i < came.len() ==> p(rows[files.len() + i], #[trigger] came[i]),
    ensures
        forall|k: int| 0 <= k < (files + came).len() ==> p(rows[k], #[trigger] (files + came)[k]),
{
    assert forall|k: int| 0 <= k < (files + came).len() implies p(
        rows[k],
        #[trigger] (files + came)[k],
    ) by {
        if k < files.len() {
            assert((files + came)[k] == files[k]);
        } else {
            assert((files + came)[k] == came[k - files.len()]);
        }
    }
}

proof fn adopting_keeps_step(before: ImportView, after: ImportView)
    requires
        before.in_step(),
        after.paths == before.paths,
        after.dir == before.dir,
        after.at == next_copy(before.paths, before.dir, before.at),
        before.imported.len() <= after.imported.len(),
        after.imported.take(before.imported.len() as int) == before.imported,
        rows_of(
            after.imported.skip(before.imported.len() as int),
            adopted(before.paths, before.dir, before.at),
        ),
    ensures
        after.in_step(),
{
    adopted_are_the_audio_files(before.paths, before.dir, before.at);
    let files = audio_before(before.paths, before.at);
    let came = adopted(before.paths, before.dir, before.at);
    let rows = after.imported;
    let n = before.imported.len() as int;
    let p = |row: SoundView, path: ClipPathView| is_row_of(row, path, before.dir);
    assert forall|k: int| 0 <= k < files.len() implies p(rows[k], #[trigger] files[k]) by {
        assert(rows[k] == rows.take(n)[k]);
        assert(is_row_of(before.imported[k], files[k], before.dir));
    }
    assert forall|i: int| 0 <= i < came.len() implies p(rows[n + i], #[trigger] came[i]) by {
        assert(rows[n + i] == rows.skip(n)[i]);
        adopted_row(rows[n + i], came[i], before.dir);
    }
    holds_of_all(rows, files, came, p);
    assert forall|k: int| 0 <= k < audio_before(after.paths, after.at).len() implies is_row_of(
        after.imported[k],
        #[trigger] audio_before(after.paths, after.at)[k],
        after.dir,
    ) by {
        assert(p(rows[k], (files + came)[k]));
    }
}

proof fn copying_keeps_step(before: ImportView, row: SoundView)
    requires
        before.in_step(),
        before.is_copying(),
        row == fresh_sound(clip_path(row.file), row.id),
        lies_in(row.file, before.dir),
        file_name(row.file) == Some(try_name(before.current(), before.tries)),
    ensures
        (ImportView {
            at: before.at + 1,
            imported: before.imported.push(row),
            ..before
        }).in_step(),
{
    audio_up_to_next(before.paths, before.at);
    let old_files = audio_before(before.paths, before.at);
    let files = audio_before(before.paths, before.at + 1);
    let rows = before.imported.push(row);
    assert forall|k: int| 0 <= k < files.len() implies is_row_of(
        rows[k],
        #[trigger] files[k],
        before.dir,
    ) by {
        if k < old_files.len() {
            assert(files[k] == old_files[k]);
        }
    }
}

/// An import that comes to its end has made one row for every audio file that
/// was dropped, in their order, and none for anything else. The file of each lies
/// in the folder, the row is named by it, and nothing is tuned yet.
pub proof fn a_finished_import_is_complete(import: ImportView)
    requires
        import.in_step(),
        import.at == import.paths.len(),
    ensures
        import.imported.len() == import.paths.filter(|p: ClipPathView| is_audio_spec(p)).len(),
        forall|k: int|
            #![trigger import.imported[k]]
            0 <= k < import.imported.len() ==> {
                let row = import.imported[k];
                let path = import.paths.filter(|p: ClipPathView| is_audio_spec(p))[k];
                &&& is_row_of(row, path, import.dir)
                &&& lies_in(row.file, import.dir)
                &&& row.name == stem_spec(clip_path(row.file))
                &&& row.hotkey.len() == 0
                &&& row.volume.bits == ONE
                &&& row.offset.bits == ZERO
            },
{
    assert(import.paths.take(import.at) =~= import.paths);
    let done = audio_before(import.paths, import.at);
    assert forall|k: int|
        #![trigger import.imported[k]]
        0 <= k < import.imported.len() implies is_row_of(import.imported[k], done[k], import.dir) by {
        assert(is_row_of(import.imported[k], done[k], import.dir));
    }
}

/// The next file to be copied is the first, from where the import stands, that is
/// audio and lies elsewhere.
pub proof fn the_next_copy_is_the_first_that_lies_elsewhere(
    paths: Seq<ClipPathView>,
    dir: Seq<char>,
    at: int,
)
    requires
        0 <= at <= paths.len(),
    ensures
        ({
            let next = next_copy(paths, dir, at);
            &&& at <= next <= paths.len()
            &&& next < paths.len() ==> is_audio_spec(paths[next]) && !lies_in(
                paths[next].text,
                dir,
            )
            &&& forall|i: int|
                at <= i < next ==> (is_audio_spec(#[trigger] paths[i]) ==> lies_in(
                    paths[i].text,
                    dir,
                ))
        }),
    decreases paths.len() - at,
{
    if at < paths.len() && !needs_copy(paths[at], dir) {
        the_next_copy_is_the_first_that_lies_elsewhere(paths, dir, at + 1);
    }
}

/// What is taken as it lies are exactly the audio files that stand before the next
/// one to be copied, in their order. Gives where they stand.
pub proof fn audio_on_the_way_is_taken_as_it_lies(
    paths: Seq<ClipPathView>,
    dir: Seq<char>,
    at: int,
) -> (places: Seq<int>)
    requires
        0 <= at <= paths.len(),
    ensures
        places.len() == adopted(paths, dir, at).len(),
        forall|k: int, l: int|
            0 <= k < l < places.len() ==> #[trigger] places[k] < #[trigger] places[l],
        forall|k: int|
            0 <= k < places.len() ==> at <= #[trigger] places[k] < next_copy(paths, dir, at)
                && adopted(paths, dir, at)[k] == paths[places[k]],
        forall|i: int|
            at <= i < next_copy(paths, dir, at) ==> (places.contains(i) <==> is_audio_spec(
                #[trigger] paths[i],
            )),
    decreases paths.len() - at,
{
    the_next_copy_is_the_first_that_lies_elsewhere(paths, dir, at);
    if at == paths.len() || needs_copy(paths[at], dir) {
        Seq::empty()
    } else {
        let rest = audio_on_the_way_is_taken_as_it_lies(paths, dir, at + 1);
        let audio = is_audio_spec(paths[at]);
        let places = if audio {
            seq![at] + rest
        } else {
            rest
        };
        let shift = if audio {
            1int
        } else {
            0int
        };
        assert forall|k: int| 0 <= k < places.len() implies at <= #[trigger] places[k] < next_copy(
            paths,
            dir,
            at,
        ) && adopted(paths, dir, at)[k] == paths[places[k]] && (k >= shift ==> places[k] == rest[k
            - shift] && places[k] > at) by {
            if k >= shift {
                assert(places[k] == rest[k - shift]);
            }
        }
        assert forall|k: int, l: int| 0 <= k < l < places.len() implies #[trigger] places[k]
            < #[trigger] places[l] by {
            if k >= shift {
                assert(rest[k - shift] < rest[l - shift]);
            }
        }
        assert forall|i: int| at <= i < next_copy(paths, dir, at) implies (places.contains(i)
            <==> is_audio_spec(#[trigger] paths[i])) by {
            if i == at {
                if audio {
                    assert(places[0] == i);
                } else if places.contains(i) {
                    let k = choose|k: int| 0 <= k < places.len() && places[k] == i;
                    assert(places[k] > at);
                }
            } else {
                if rest.contains(i) {
                    let k = choose|k: int| 0 <= k < rest.len() && rest[k] == i;
                    assert(places[k + shift] == i);
                }
                if places.contains(i) {
                    let k = choose|k: int| 0 <= k < places.len() && places[k] == i;
                    assert(rest[k - shift] == i);
                }
            }
        }
        places
    }
}

/// A finished import has a row for exactly each audio file that was dropped, in
/// their order. A file that lay in the folder is in its row itself; of any other
/// it is a file in the folder under the name of the original, in small letters
/// behind the dot, and with a number if need be. The row is named by its file and
/// not tuned. Gives where the audio files stand among what was dropped.
pub proof fn each_audio_file_that_was_dropped_has_its_row(import: ImportView) -> (at: Seq<int>)
    requires
        import.in_step(),
        import.at == import.paths.len(),
    ensures
        at.len() == import.imported.len(),
        forall|k: int, l: int| 0 <= k < l < at.len() ==> #[trigger] at[k] < #[trigger] at[l],
        forall|i: int|
            0 <= i < import.paths.len() ==> (at.contains(i) <==> is_audio_spec(
                #[trigger] import.paths[i],
            )),
        forall|k: int|
            0 <= k < at.len() ==> 0 <= #[trigger] at[k] < import.paths.len() && {
                let row = import.imported[k];
                let path = import.paths[at[k]];
                &&& path == clip_path(path.text)
                &&& lies_in(row.file, import.dir)
                &&& lies_in(path.text, import.dir) ==> row.file == path.text
                &&& !lies_in(path.text, import.dir) ==> exists|n: nat|
                    file_name(row.file) == Some(
                        #[trigger] copy_name(stem_spec(path), lowered(path.extension->0), n),
                    )
                &&& row.name == stem_spec(clip_path(row.file))
                &&& row.hotkey.len() == 0
                &&& row.volume.bits == 0x3f80_0000
                &&& row.offset.bits == 0
                &&& row.pitch == Pitch::Step {
                    step: Single { bits: 0xbdf5_c28f },
                    min: Single { bits: 0x3eb3_3333 },
                    max: Single { bits: 0x4020_0000 },
                }
            },
{
    let keep = |p: ClipPathView| is_audio_spec(p);
    assert(import.paths.take(import.at) =~= import.paths);
    let done = audio_before(import.paths, import.at);
    let at = filter_places(import.paths, keep);
    assert forall|i: int| 0 <= i < import.paths.len() implies (at.contains(i) <==> is_audio_spec(
        #[trigger] import.paths[i],
    )) by {
        assert(keep(import.paths[i]) == is_audio_spec(import.paths[i]));
        if at.contains(i) {
            let k = choose|k: int| 0 <= k < at.len() && at[k] == i;
            assert(keep(import.paths[at[k]]));
        }
    }
    assert forall|k: int| 0 <= k < at.len() implies 0 <= #[trigger] at[k] < import.paths.len()
        && is_read(import.paths[at[k]]) && is_row_of(
        import.imported[k],
        import.paths[at[k]],
        import.dir,
    ) by {
        assert(done[k] == import.paths[at[k]]);
    }
    assert forall|k: int|
        0 <= k < at.len() && !lies_in(
            import.paths[#[trigger] at[k]].text,
            import.dir,
        ) implies exists|n: nat|
        file_name(import.imported[k].file) == Some(
            #[trigger] copy_name(
                stem_spec(import.paths[at[k]]),
                lowered(import.paths[at[k]].extension->0),
                n,
            ),
        ) by {
        let path = import.paths[at[k]];
        assert(is_row_of(import.imported[k], path, import.dir));
        let n = choose|n: nat|
            file_name(import.imported[k].file) == Some(#[trigger] try_name(path, n));
        assert(try_name(path, n) == copy_name(stem_spec(path), lowered(path.extension->0), n));
    }
    at
}

/// The name of a copy is that of the file, with its extension behind a dot; with a
/// number, it is the name that a file would have whose own name ended in the
/// number, in brackets and behind a space.
pub proof fn a_number_goes_behind_the_name(stem: Seq<char>, ext: Seq<char>, n: nat)
    ensures
        copy_name(stem, ext, 0) == stem.push('.') + ext,
        n > 0 ==> copy_name(stem, ext, n) == copy_name(
            stem + seq![' ', '('] + digits(n, 10) + seq![')'],
            ext,
            0,
        ),
{
    reveal_strlit(".");
    reveal_strlit(" (");
    reveal_strlit(").");
    assert(copy_name(stem, ext, 0) =~= stem.push('.') + ext);
    if n > 0 {
        assert(copy_name(stem, ext, n) =~= copy_name(
            stem + seq![' ', '('] + digits(n, 10) + seq![')'],
            ext,
            0,
        ));
    }
}

/// An import copies the file it looks at exactly if that is audio and lies
/// elsewhere, tries one number more if a name is taken, and looks at each path as
/// its text gives it.
pub proof fn only_audio_from_elsewhere_is_copied(import: ImportView, given: Seq<Seq<char>>)
    ensures
        import.is_copying() <==> 0 <= import.at < import.paths.len() && is_audio_spec(
            import.paths[import.at],
        ) && !lies_in(import.paths[import.at].text, import.dir),
        import.current() == import.paths[import.at],
        answered(import, false) == import,
        answered(import, true) == (ImportView { tries: import.tries + 1, ..import }),
        forall|n: nat| #[trigger]
            try_name(import.current(), n) == copy_name(
                stem_spec(import.paths[import.at]),
                lowered(import.paths[import.at].extension->0),
                n,
            ),
        read_paths(given).len() == given.len(),
        forall|i: int| 0 <= i < given.len() ==> #[trigger] read_paths(given)[i] == clip_path(
            given[i],
        ),
{
}

/// An import is shown as it is.
pub proof fn an_import_is_shown_as_it_is(import: Import)
    ensures
        import@.paths.len() == import.paths@.len(),
        forall|i: int|
            0 <= i < import.paths@.len() ==> #[trigger] import@.paths[i] == import.paths@[i]@,
        import@.dir == import.dir@,
        import@.at == import.at,
        import@.tries == import.tries,
        import@.imported.len() == import.imported@.len(),
        forall|i: int|
            0 <= i < import.imported@.len() ==> #[trigger] import@.imported[i]
                == import.imported@[i]@,
{
}

} // verus!
