//! The file system as the configuration code sees it, and one that lives
//! in memory.

use crate::diagnostic::{DiagnosticError, DiagnosticView};
use crate::paths::{
    ancestors, ancestors_of, file_name, file_name_of, join, joined, paths_equal, same_path,
};
use crate::text::same_text;
use vstd::prelude::*;
use vstd::string::StringExecFns;

verus! {

/// What the configuration code asks of a file system.
pub trait FileSystem {
    /// The path `path` in its canonical form.
    fn canonicalize(&self, path: &String) -> Result<String, DiagnosticError>;

    /// The current working directory.
    fn cwd(&self) -> String;

    /// Looks for a file with one of the names `filenames` in the directory
    /// `from` and the directories above it, up to `root`.
    fn find_ancestor_file(&self, filenames: &Vec<String>, from: &String, root: &String) -> Option<
        String,
    >;

    /// Tells whether `path` is a file.
    fn is_file(&self, path: &String) -> bool;

    /// The contents of the file at `path`.
    fn read_file(&self, path: &String) -> Result<String, DiagnosticError>;
}

/// The texts of the paths and contents of `files`.
pub open spec fn entries_of(files: Seq<(String, String)>) -> Seq<(Seq<char>, Seq<char>)> {
    Seq::new(files.len(), |i: int| (files[i].0@, files[i].1@))
}

/// Entry `i` is the last of `files` that lies at `path`.
pub open spec fn last_at(files: Seq<(Seq<char>, Seq<char>)>, path: Seq<char>, i: int) -> bool {
    &&& 0 <= i < files.len()
    &&& same_path(files[i].0, path)
    &&& forall|j: int| i < j < files.len() ==> !same_path((#[trigger] files[j]).0, path)
}

/// Some entry of `files` lies at `path`.
pub open spec fn has_file(files: Seq<(Seq<char>, Seq<char>)>, path: Seq<char>) -> bool {
    exists|i: int| 0 <= i < files.len() && same_path((#[trigger] files[i]).0, path)
}

/// The first of the names `names`, among the first `upto`, that a file in
/// the directory `dir` has: the path of that file.
pub open spec fn first_present(
    files: Seq<(Seq<char>, Seq<char>)>,
    dir: Seq<char>,
    names: Seq<Seq<char>>,
    upto: int,
) -> Option<Seq<char>>
    decreases upto,
{
    if upto <= 0 {
        None
    } else {
        match first_present(files, dir, names, upto - 1) {
            Some(path) => Some(path),
            None => if has_file(files, joined(dir, names[upto - 1])) {
                Some(joined(dir, names[upto - 1]))
            } else {
                None
            },
        }
    }
}

/// The name of the directories in which the search stops.
pub open spec fn node_modules() -> Seq<char> {
    "node_modules"@
}

/// The file that a search through the directories `dirs`, from the one at
/// place `from` on, finds: the first file with one of the names `names`, in
/// the first directory that has one. The search ends without a file at a
/// directory named `node_modules`, and behind the directory `root`.
pub open spec fn found_above(
    files: Seq<(Seq<char>, Seq<char>)>,
    dirs: Seq<Seq<char>>,
    names: Seq<Seq<char>>,
    root: Seq<char>,
    from: int,
) -> Option<Seq<char>>
    decreases dirs.len() - from,
{
    if from < 0 || from >= dirs.len() {
        None
    } else if file_name_of(dirs[from]) == Some(node_modules()) {
        None
    } else {
        match first_present(files, dirs[from], names, names.len() as int) {
            Some(path) => Some(path),
            None => if same_path(dirs[from], root) {
                None
            } else {
                found_above(files, dirs, names, root, from + 1)
            },
        }
    }
}

/// The file system `fs`, asked whether the path `path` is a file, may
/// answer `present`.
pub open spec fn answers<T: FileSystem>(fs: &T, path: Seq<char>, present: bool) -> bool {
    exists|asked: String| #[trigger] T::is_file.ensures((fs, &asked), present) && asked@ == path
}

/// The file system may say of name `n` of `names` that the directory `dir`
/// has no file of that name.
pub open spec fn absent<T: FileSystem>(fs: &T, dir: Seq<char>, names: Seq<Seq<char>>, n: int) -> bool {
    answers(fs, joined(dir, names[n]), false)
}

/// The file system says of name `n` of `names`, the first of which it says
/// so, that the directory `dir` has a file of that name, and `found` is
/// the path of that file.
pub open spec fn first_hit<T: FileSystem>(
    fs: &T,
    dir: Seq<char>,
    names: Seq<Seq<char>>,
    n: int,
    found: Option<String>,
) -> bool {
    &&& 0 <= n < names.len()
    &&& forall|k: int| 0 <= k < n ==> #[trigger] absent(fs, dir, names, k)
    &&& found matches Some(path)
    &&& path@ == joined(dir, names[n])
    &&& T::is_file.ensures((fs, &path), true)
}

/// `found` is what a search through the directories `dirs`, from the one
/// at place `from` on, may come to on the file system `fs`: the first path
/// of which the file system says that it is a file, the names `names` tried
/// in their order in each directory, after it has said of every path
/// before that it is none. The search ends without a file at a directory
/// named `node_modules`, and behind the directory `root`.
pub open spec fn searched<T: FileSystem>(
    fs: &T,
    dirs: Seq<Seq<char>>,
    names: Seq<Seq<char>>,
    root: Seq<char>,
    from: int,
    found: Option<String>,
) -> bool
    decreases dirs.len() - from,
{
    if from < 0 || from >= dirs.len() {
        found is None
    } else if file_name_of(dirs[from]) == Some(node_modules()) {
        found is None
    } else {
        ||| exists|n: int| #[trigger] first_hit(fs, dirs[from], names, n, found)
        ||| {
            &&& forall|k: int| 0 <= k < names.len() ==> #[trigger] absent(fs, dirs[from], names, k)
            &&& if same_path(dirs[from], root) {
                found is None
            } else {
                searched(fs, dirs, names, root, from + 1, found)
            }
        }
    }
}

/// Looks for a file with one of the names `filenames` in the directory
/// `from` and the directories above it, up to `root`, on any file system:
/// it asks the file system of one path after the other whether it is a
/// file, and returns the first of which it says so.
pub fn find_above<T: FileSystem>(
    fs: &T,
    filenames: &Vec<String>,
    from: &String,
    root: &String,
) -> (found: Option<String>)
    ensures
        searched(
            fs,
            ancestors_of(from@),
            crate::config::parcel_rc::texts(filenames@),
            root@,
            0,
            found,
        ),
{
    let dirs = ancestors(from.as_str());
    let ghost names = crate::config::parcel_rc::texts(filenames@);
    let ghost above = ancestors_of(from@);
    let mut d: usize = 0;
    while d < dirs.len()
        invariant
            d <= dirs@.len(),
            above == ancestors_of(from@),
            dirs@.len() == above.len(),
            forall|i: int| 0 <= i < dirs@.len() ==> (#[trigger] dirs@[i])@ == above[i],
            names == crate::config::parcel_rc::texts(filenames@),
            forall|end: Option<String>| #[trigger]
                searched(fs, above, names, root@, d as int, end) ==> searched(
                    fs,
                    above,
                    names,
                    root@,
                    0,
                    end,
                ),
        decreases dirs@.len() - d,
    {
        let dir = dirs[d].as_str();
        assert(dir@ == above[d as int]);
        proof {
            reveal_strlit("node_modules");
        }
        let stop = match file_name(dir) {
            Some(name) => same_text(name.as_str(), "node_modules"),
            None => false,
        };
        assert(stop == (file_name_of(above[d as int]) == Some(node_modules())));
        assert(names.len() == filenames@.len());
        if stop {
            assert(searched(fs, above, names, root@, d as int, None));
            return None;
        }
        let mut n: usize = 0;
        while n < filenames.len()
            invariant
                n <= filenames@.len(),
                names == crate::config::parcel_rc::texts(filenames@),
                names.len() == filenames@.len(),
                0 <= d < above.len(),
                dir@ == above[d as int],
                file_name_of(above[d as int]) != Some(node_modules()),
                above == ancestors_of(from@),
                forall|end: Option<String>| #[trigger]
                    searched(fs, above, names, root@, d as int, end) ==> searched(
                        fs,
                        above,
                        names,
                        root@,
                        0,
                        end,
                    ),
                forall|k: int| 0 <= k < n ==> #[trigger] absent(fs, dir@, names, k),
            decreases filenames@.len() - n,
        {
            let fullpath = join(dir, filenames[n].as_str());
            assert(fullpath@ == joined(dir@, names[n as int]));
            if fs.is_file(&fullpath) {
                assert(first_hit(fs, dir@, names, n as int, Some(fullpath)));
                assert(searched(fs, above, names, root@, d as int, Some(fullpath)));
                return Some(fullpath);
            }
            assert(absent(fs, dir@, names, n as int));
            n += 1;
        }
        if paths_equal(dir, root.as_str()) {
            assert(searched(fs, above, names, root@, d as int, None));
            return None;
        }
        assert forall|end: Option<String>| #[trigger]
            searched(fs, above, names, root@, d + 1, end) implies searched(
            fs,
            above,
            names,
            root@,
            0,
            end,
        ) by {
            assert(searched(fs, above, names, root@, d as int, end));
        }
        d += 1;
    }
    assert(searched(fs, above, names, root@, d as int, None));
    None
}

/// A file system in memory: a list of files, each with its path and its
/// contents, and a current working directory. Where two entries lie at one
/// path, the later one counts. A file is found by comparing paths, which is
/// not the comparing of their texts: that is why the files stand in a list
/// and not in a map that is keyed by text.
pub struct MemoryFileSystem {
    files: Vec<(String, String)>,
    cwd: String,
}

impl Default for MemoryFileSystem {
    fn default() -> (fs: Self)
        ensures
            fs.files() == Seq::<(Seq<char>, Seq<char>)>::empty(),
            fs.working_dir() == Seq::<char>::empty(),
    {
        let fs = MemoryFileSystem { files: Vec::new(), cwd: String::new() };
        assert(fs.files() =~= Seq::<(Seq<char>, Seq<char>)>::empty());
        fs
    }
}

impl MemoryFileSystem {
    /// The files, each with its path and its contents.
    pub closed spec fn files(&self) -> Seq<(Seq<char>, Seq<char>)> {
        entries_of(self.files@)
    }

    /// The current working directory.
    pub closed spec fn working_dir(&self) -> Seq<char> {
        self.cwd@
    }

    /// A file system with the files `files` and the current working
    /// directory `cwd`.
    pub fn new(files: Vec<(String, String)>, cwd: String) -> (fs: Self)
        ensures
            fs.files() == entries_of(files@),
            fs.working_dir() == cwd@,
    {
        MemoryFileSystem { files, cwd }
    }

    /// The first file in the directory `dir` with one of the names
    /// `filenames`.
    fn find_in(&self, dir: &str, filenames: &Vec<String>) -> (found: Option<String>)
        ensures
            match found {
                Some(path) => first_present(
                    self.files(),
                    dir@,
                    crate::config::parcel_rc::texts(filenames@),
                    filenames@.len() as int,
                ) == Some(path@),
                None => first_present(
                    self.files(),
                    dir@,
                    crate::config::parcel_rc::texts(filenames@),
                    filenames@.len() as int,
                ) is None,
            },
    {
        let ghost names = crate::config::parcel_rc::texts(filenames@);
        let mut n: usize = 0;
        while n < filenames.len()
            invariant
                n <= filenames@.len(),
                names == crate::config::parcel_rc::texts(filenames@),
                first_present(self.files(), dir@, names, n as int) is None,
            decreases filenames@.len() - n,
        {
            let fullpath = join(dir, filenames[n].as_str());
            assert(fullpath@ == joined(dir@, names[n as int]));
            if self.find(fullpath.as_str()).is_some() {
                proof {
                    assert(has_file(self.files(), fullpath@));
                    assert(first_present(self.files(), dir@, names, n + 1) == Some(fullpath@));
                    lemma_first_present_stays(
                        self.files(),
                        dir@,
                        names,
                        n + 1,
                        names.len() as int,
                    );
                }
                return Some(fullpath);
            }
            n += 1;
        }
        None
    }

    /// The place of the last entry that lies at `path`.
    fn find(&self, path: &str) -> (place: Option<usize>)
        ensures
            match place {
                Some(i) => last_at(self.files(), path@, i as int),
                None => !has_file(self.files(), path@),
            },
    {
        let mut i: usize = self.files.len();
        while i > 0
            invariant
                i <= self.files@.len(),
                forall|j: int|
                    i <= j < self.files@.len() ==> !same_path(
                        (#[trigger] self.files()[j]).0,
                        path@,
                    ),
            decreases i,
        {
            i -= 1;
            if paths_equal(self.files[i].0.as_str(), path) {
                return Some(i);
            }
        }
        None
    }
}

impl FileSystem for MemoryFileSystem {
    /// Every path is in its canonical form.
    fn canonicalize(&self, path: &String) -> (canonical: Result<String, DiagnosticError>)
        ensures
            canonical matches Ok(same) && same@ == path@,
    {
        Ok(path.clone())
    }

    fn cwd(&self) -> (dir: String)
        ensures
            dir@ == self.working_dir(),
    {
        self.cwd.clone()
    }

    fn find_ancestor_file(&self, filenames: &Vec<String>, from: &String, root: &String) -> (found:
        Option<String>)
        ensures
            match found {
                Some(path) => found_above(
                    self.files(),
                    ancestors_of(from@),
                    crate::config::parcel_rc::texts(filenames@),
                    root@,
                    0,
                ) == Some(path@),
                None => found_above(
                    self.files(),
                    ancestors_of(from@),
                    crate::config::parcel_rc::texts(filenames@),
                    root@,
                    0,
                ) is None,
            },
    {
        let dirs = ancestors(from.as_str());
        let ghost names = crate::config::parcel_rc::texts(filenames@);
        let ghost above = ancestors_of(from@);
        let mut d: usize = 0;
        while d < dirs.len()
            invariant
                d <= dirs@.len(),
                above == ancestors_of(from@),
                dirs@.len() == above.len(),
                forall|i: int| 0 <= i < dirs@.len() ==> (#[trigger] dirs@[i])@ == above[i],
                names == crate::config::parcel_rc::texts(filenames@),
                found_above(self.files(), above, names, root@, 0) == found_above(
                    self.files(),
                    above,
                    names,
                    root@,
                    d as int,
                ),
            decreases dirs@.len() - d,
        {
            let dir = dirs[d].as_str();
            assert(dir@ == above[d as int]);
            proof {
                reveal_strlit("node_modules");
            }
            let stop = match file_name(dir) {
                Some(name) => same_text(name.as_str(), "node_modules"),
                None => false,
            };
            assert(stop == (file_name_of(above[d as int]) == Some(node_modules())));
            assert(names.len() == filenames@.len());
            let ghost here = found_above(self.files(), above, names, root@, d as int);
            if stop {
                assert(here is None);
                return None;
            }
            match self.find_in(dir, filenames) {
                Some(fullpath) => {
                    assert(here == Some(fullpath@));
                    return Some(fullpath);
                },
                None => {},
            }
            if paths_equal(dir, root.as_str()) {
                assert(here is None);
                return None;
            }
            assert(here == found_above(self.files(), above, names, root@, d + 1));
            d += 1;
        }
        None
    }

    fn is_file(&self, path: &String) -> (present: bool)
        ensures
            present == has_file(self.files(), path@),
    {
        self.find(path.as_str()).is_some()
    }

    fn read_file(&self, path: &String) -> (contents: Result<String, DiagnosticError>)
        ensures
            match contents {
                Ok(text) => exists|i: int|
                    #[trigger] last_at(self.files(), path@, i) && self.files()[i].1 == text@,
                Err(error) => !has_file(self.files(), path@) && error@ == (DiagnosticView {
                    message: "Failed to read file "@ + path@,
                    source: None,
                }),
            },
    {
        match self.find(path.as_str()) {
            Some(i) => {
                let text = self.files[i].1.clone();
                proof {
                    assert(last_at(self.files(), path@, i as int));
                    assert(self.files()[i as int].1 == text@);
                }
                Ok(text)
            },
            None => Err(
                DiagnosticError::new(String::from_str("Failed to read file ").concat(path.as_str())),
            ),
        }
    }
}

/// Where the file system in memory says of each of the first `upto` names
/// that the directory has no file of that name, none of them is found.
pub proof fn lemma_none_present(
    fs: &MemoryFileSystem,
    dir: Seq<char>,
    names: Seq<Seq<char>>,
    upto: int,
)
    requires
        forall|k: int| 0 <= k < upto ==> #[trigger] absent(fs, dir, names, k),
    ensures
        first_present(fs.files(), dir, names, upto) is None,
    decreases upto,
{
    if upto > 0 {
        lemma_none_present(fs, dir, names, upto - 1);
        assert(absent(fs, dir, names, upto - 1));
    }
}

/// On a file system in memory the search on any file system has one
/// outcome, the file that `found_above` names: it finds what the search of
/// the file system itself finds.
pub proof fn lemma_search_in_memory(
    fs: &MemoryFileSystem,
    dirs: Seq<Seq<char>>,
    names: Seq<Seq<char>>,
    root: Seq<char>,
    from: int,
    found: Option<String>,
)
    requires
        searched(fs, dirs, names, root, from, found),
    ensures
        match found {
            Some(path) => found_above(fs.files(), dirs, names, root, from) == Some(path@),
            None => found_above(fs.files(), dirs, names, root, from) is None,
        },
    decreases dirs.len() - from,
{
    if 0 <= from < dirs.len() && file_name_of(dirs[from]) != Some(node_modules()) {
        let dir = dirs[from];
        if forall|k: int| 0 <= k < names.len() ==> #[trigger] absent(fs, dir, names, k) {
            lemma_none_present(fs, dir, names, names.len() as int);
            if exists|n: int| #[trigger] first_hit(fs, dir, names, n, found) {
                let n = choose|n: int| #[trigger] first_hit(fs, dir, names, n, found);
                assert(absent(fs, dir, names, n));
                assert(false);
            }
            if !same_path(dir, root) {
                lemma_search_in_memory(fs, dirs, names, root, from + 1, found);
            }
        } else {
            let n = choose|n: int| #[trigger] first_hit(fs, dir, names, n, found);
            lemma_none_present(fs, dir, names, n);
            assert(first_present(fs.files(), dir, names, n + 1) == Some(joined(dir, names[n])));
            lemma_first_present_stays(fs.files(), dir, names, n + 1, names.len() as int);
        }
    }
}

/// A name that was found among the first names is still the one that is
/// found among more of them.
pub proof fn lemma_first_present_stays(
    files: Seq<(Seq<char>, Seq<char>)>,
    dir: Seq<char>,
    names: Seq<Seq<char>>,
    upto: int,
    more: int,
)
    requires
        upto <= more,
        first_present(files, dir, names, upto) is Some,
    ensures
        first_present(files, dir, names, more) == first_present(files, dir, names, upto),
    decreases more - upto,
{
    if upto < more {
        lemma_first_present_stays(files, dir, names, upto, more - 1);
    }
}

} // verus!
