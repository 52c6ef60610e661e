use vstd::prelude::*;

use crate::text::{concat, text_eq};

verus! {

/// `s` starts with `p`.
pub open spec fn has_prefix(s: Seq<char>, p: Seq<char>) -> bool {
    p.len() <= s.len() && s.subrange(0, p.len() as int) == p
}

/// Whether `s` starts with `p`.
pub fn starts_with(s: &str, p: &str) -> (r: bool)
    ensures
        r == has_prefix(s@, p@),
{
    let ls = s.unicode_len();
    let lp = p.unicode_len();
    if lp > ls {
        return false;
    }
    let mut i: usize = 0;
    while i < lp
        invariant
            lp <= ls,
            ls == s@.len(),
            lp == p@.len(),
            i <= lp,
            forall|j: int| 0 <= j < i ==> s@[j] == p@[j],
        decreases lp - i,
    {
        if s.get_char(i) != p.get_char(i) {
            return false;
        }
        i = i + 1;
    }
    proof {
        assert(s@.subrange(0, lp as int) =~= p@);
    }
    true
}

/// `path` resolved against directory `base`: a leading `./` is dropped;
/// `.` stands for `base`; an absolute path stays as it is; any other path
/// is joined to `base` with a `/`.
pub open spec fn relative_to_base(base: Seq<char>, path: Seq<char>) -> Seq<char> {
    let p = if has_prefix(path, "./"@) {
        path.subrange(2, path.len() as int)
    } else {
        path
    };
    if p == "."@ {
        base
    } else if has_prefix(p, "/"@) {
        p
    } else if base.len() > 0 && base.last() == '/' {
        base + p
    } else {
        base + "/"@ + p
    }
}

/// `path` resolved against directory `base`; see `relative_to_base`.
pub fn get_path_relative_to_base(base: &str, path: &str) -> (r: String)
    ensures
        r@ == relative_to_base(base@, path@),
{
    let lp = path.unicode_len();
    let p = if starts_with(path, "./") {
        proof {
            reveal_strlit("./");
        }
        path.substring_char(2, lp)
    } else {
        path
    };
    if text_eq(p, ".") {
        return String::from_str(base);
    }
    if starts_with(p, "/") {
        return String::from_str(p);
    }
    let lb = base.unicode_len();
    if lb > 0 && base.get_char(lb - 1) == '/' {
        concat(base, p)
    } else {
        let b = concat(base, "/");
        concat(b.as_str(), p)
    }
}

/// The working directory for `path`, relative to `base`: `None` for an
/// empty path, which stands for the directory the process runs in.
pub fn get_working_directory(base: &str, path: &str) -> (r: Option<String>)
    ensures
        path@.len() == 0 ==> r is None,
        path@.len() > 0 ==> (r matches Some(s) && s@ == relative_to_base(base@, path@)),
{
    if path.unicode_len() == 0 {
        None
    } else {
        Some(get_path_relative_to_base(base, path))
    }
}

/// The last component of a `/`-separated path.
pub open spec fn file_name_of(path: Seq<char>) -> Seq<char>
    decreases path.len(),
{
    if path.len() == 0 || path.last() == '/' {
        Seq::empty()
    } else {
        file_name_of(path.drop_last()).push(path.last())
    }
}

/// Text with each of its lines, the last one possibly unterminated,
/// preceded by `[mom] `.
pub open spec fn prefixed_lines(s: Seq<char>) -> Seq<char>
    decreases s.len(),
{
    if s.len() == 0 {
        Seq::empty()
    } else if s.len() == 1 {
        "[mom] "@ + s
    } else if s[s.len() - 2] == '\n' {
        prefixed_lines(s.drop_last()) + "[mom] "@ + seq![s.last()]
    } else {
        prefixed_lines(s.drop_last()) + seq![s.last()]
    }
}

/// Precedes each line of `text` with `[mom] `.
pub fn mom_just_prefix(text: &str) -> (r: String)
    ensures
        r@ == prefixed_lines(text@),
{
    let len = text.unicode_len();
    let mut r = String::new();
    let mut i: usize = 0;
    while i < len
        invariant
            len == text@.len(),
            i <= len,
            r@ == prefixed_lines(text@.subrange(0, i as int)),
        decreases len - i,
    {
        let c = text.get_char(i);
        let ghost sub = text@.subrange(0, i + 1);
        proof {
            assert(sub.drop_last() =~= text@.subrange(0, i as int));
            assert(sub.last() == c);
        }
        if i == 0 || text.get_char(i - 1) == '\n' {
            r.append("[mom] ");
            proof {
                if i > 0 {
                    assert(sub[sub.len() - 2] == text@[i - 1]);
                }
            }
        } else {
            proof {
                assert(sub[sub.len() - 2] == text@[i - 1]);
            }
        }
        let one = text.substring_char(i, i + 1);
        proof {
            assert(one@ =~= seq![c]);
        }
        r.append(one);
        proof {
            if i == 0 {
                assert(r@ =~= "[mom] "@ + sub);
            }
        }
        i = i + 1;
    }
    proof {
        assert(text@.subrange(0, len as int) =~= text@);
    }
    r
}

/// File names of configuration files, by priority, within one directory.
pub open spec fn candidate_names() -> Seq<Seq<char>> {
    seq![
        "mom.private.yml"@,
        "mom.private.yaml"@,
        "mom.yml"@,
        "mom.yaml"@,
        "mom.root.yml"@,
        "mom.root.yaml"@,
    ]
}

/// Walks from a directory up through its parents, proposing in each the
/// configuration files by priority; a project-root file ends the walk.
pub struct MomFilePaths {
    /// Position in the priority list of the next file name.
    pub index: usize,
    /// Whether the walk is over.
    pub ended: bool,
    /// Directory being searched.
    pub current_dir: String,
}

impl MomFilePaths {
    /// Starts the walk at `path`.
    pub fn new(path: &str) -> (r: MomFilePaths)
        ensures
            r.index == 0,
            !r.ended,
            r.current_dir@ == path@,
    {
        MomFilePaths { index: 0, ended: false, current_dir: String::from_str(path) }
    }

    /// The file the walk checks next: the directory joined with the name at
    /// the current priority.
    pub fn candidate(&self) -> (r: String)
        requires
            self.index < 6,
        ensures
            r@ == relative_to_base(self.current_dir@, candidate_names()[self.index as int]),
    {
        let name = if self.index == 0 {
            "mom.private.yml"
        } else if self.index == 1 {
            "mom.private.yaml"
        } else if self.index == 2 {
            "mom.yml"
        } else if self.index == 3 {
            "mom.yaml"
        } else if self.index == 4 {
            "mom.root.yml"
        } else {
            "mom.root.yaml"
        };
        get_path_relative_to_base(self.current_dir.as_str(), name)
    }

    /// Advances the walk past the current candidate, given whether it is a
    /// file and the parent of the current directory. Returns the candidate
    /// when it is a file; a project-root file ends the walk, and so does
    /// running out of parents after the last name.
    pub fn step(&mut self, is_file: bool, parent: Option<String>) -> (r: Option<String>)
        requires
            old(self).index < 6,
            !old(self).ended,
        ensures
            final(self).index < 6,
            final(self).index == (old(self).index + 1) % 6,
            is_file ==> (r matches Some(p) && p@ == relative_to_base(
                old(self).current_dir@,
                candidate_names()[old(self).index as int],
            )),
            !is_file ==> r is None,
            final(self).ended == ((is_file && has_prefix(file_name_of(r->Some_0@), "mom.root."@)) || (
            final(self).index == 0 && parent is None)),
            final(self).current_dir@ == if final(self).index == 0 && parent is Some {
                parent->Some_0@
            } else {
                old(self).current_dir@
            },
    {
        let candidate = self.candidate();
        let found = if is_file {
            if self.is_root_mom_file(candidate.as_str()) {
                self.ended = true;
            }
            Some(candidate)
        } else {
            None
        };
        self.index = (self.index + 1) % 6;
        if self.index == 0 {
            match parent {
                None => {
                    self.ended = true;
                },
                Some(p) => {
                    self.current_dir = p;
                },
            }
        }
        found
    }

    /// Whether `path` names a project-root configuration file, one whose
    /// file name starts with `mom.root.`.
    pub fn is_root_mom_file(&self, path: &str) -> (r: bool)
        ensures
            r == has_prefix(file_name_of(path@), "mom.root."@),
    {
        let name = file_name(path);
        starts_with(name.as_str(), "mom.root.")
    }
}

/// The last component of a `/`-separated path.
pub fn file_name(path: &str) -> (r: String)
    ensures
        r@ == file_name_of(path@),
{
    let len = path.unicode_len();
    let mut start = len;
    while start > 0 && path.get_char(start - 1) != '/'
        invariant
            len == path@.len(),
            start <= len,
            forall|j: int| start <= j < len ==> path@[j] != '/',
        decreases start,
    {
        start = start - 1;
    }
    proof {
        lemma_file_name(path@, start as int);
    }
    String::from_str(path.substring_char(start, len))
}

proof fn lemma_file_name(path: Seq<char>, start: int)
    requires
        0 <= start <= path.len(),
        start == 0 || path[start - 1] == '/',
        forall|j: int| start <= j < path.len() ==> path[j] != '/',
    ensures
        file_name_of(path) == path.subrange(start, path.len() as int),
    decreases path.len(),
{
    if path.len() > start {
        lemma_file_name(path.drop_last(), start);
        assert(path.subrange(start, path.len() as int) =~= path.drop_last().subrange(start, path.len() - 1).push(path.last()));
    } else {
        if path.len() > 0 {
            assert(path.last() == '/');
        }
        assert(path.subrange(start, path.len() as int) =~= Seq::<char>::empty());
    }
}

/// Proposes the user-level configuration file, once.
pub struct GlobalMomFilePath {
    /// Whether it was proposed already.
    pub ended: bool,
}

impl GlobalMomFilePath {
    /// A walk that has proposed nothing yet.
    pub fn new() -> (r: GlobalMomFilePath)
        ensures
            !r.ended,
    {
        GlobalMomFilePath { ended: false }
    }
}

} // verus!
