//! What reading a file comes to, for the files that hold state.

use vstd::prelude::*;
use crate::text;

verus! {

/// What reading a file gave.
#[derive(Debug, Clone, PartialEq, Eq)]
pub enum FileRead {
    Contents(String),
    /// There is no such file.
    NotFound,
    /// Reading failed; the text says how.
    Failed(String),
}

/// A file of state that could not be taken in. `what` names the kind of file
/// and `cause` says what went wrong with it.
#[derive(Debug, Clone, PartialEq, Eq)]
pub enum LoadError {
    Parsing { what: &'static str, path: String, cause: String },
    Reading { what: &'static str, path: String, cause: String },
}

impl LoadError {
    pub open spec fn text(self) -> Seq<char> {
        match self {
            LoadError::Parsing { what, path, .. } => "parsing "@ + what@ + " "@ + path@,
            LoadError::Reading { what, path, .. } => "reading "@ + what@ + " "@ + path@,
        }
    }

    /// The error in words.
    pub fn message(&self) -> (r: String)
        ensures
            r@ == self.text(),
    {
        match self {
            LoadError::Parsing { what, path, .. } => {
                let mut out = "parsing ".to_owned();
                out.append(what);
                out.append(" ");
                out.append(path.as_str());
                out
            },
            LoadError::Reading { what, path, .. } => {
                let mut out = "reading ".to_owned();
                out.append(what);
                out.append(" ");
                out.append(path.as_str());
                out
            },
        }
    }
}

/// What is to be done with what reading a file gave.
pub enum Intake {
    /// There is nothing in it: start afresh.
    Fresh,
    /// Its text is to be parsed.
    Parse(String),
    /// It could not be read.
    Fail(LoadError),
}

/// A missing file and a blank one both start afresh; another text is parsed.
pub open spec fn taken_in(what: Seq<char>, path: Seq<char>, read: FileRead, r: Intake) -> bool {
    match read {
        FileRead::NotFound => r is Fresh,
        FileRead::Contents(s) => if text::is_blank(s@) {
            r is Fresh
        } else {
            r == Intake::Parse(s)
        },
        FileRead::Failed(e) => r matches Intake::Fail(
            LoadError::Reading { what: w, path: p, cause },
        ) && w@ == what && p@ == path && cause == e,
    }
}

/// Decides what is to be done with what reading a file gave.
pub fn take_in(what: &'static str, path: &str, read: FileRead) -> (r: Intake)
    ensures
        taken_in(what@, path@, read, r),
{
    match read {
        FileRead::NotFound => Intake::Fresh,
        FileRead::Contents(s) => if text::blank(s.as_str()) {
            Intake::Fresh
        } else {
            Intake::Parse(s)
        },
        FileRead::Failed(e) => Intake::Fail(
            LoadError::Reading { what, path: path.to_owned(), cause: e },
        ),
    }
}

/// A path below a directory.
pub open spec fn below(dir: Seq<char>, name: Seq<char>) -> Seq<char> {
    if dir.len() == 0 || dir.last() == '/' {
        dir + name
    } else {
        dir + "/"@ + name
    }
}

/// `name` below `dir`, with one slash between them.
pub fn join_path(dir: &str, name: &str) -> (r: String)
    ensures
        r@ == below(dir@, name@),
{
    let mut out = dir.to_owned();
    let cs = text::chars_of(dir);
    let n: usize = cs.len();
    if n > 0 && cs[n - 1] != '/' {
        out.append("/");
    }
    out.append(name);
    out
}

/// A file that is not there, or holds white space alone, is as good as new; one that
/// holds anything else is read as it is, and one that could not be read is a failure
/// that names it and the cause.
pub proof fn law_file_is_taken_in(what: &'static str, path: &str, read: FileRead, r: Intake)
    requires
        call_ensures(take_in, (what, path, read), r),
    ensures
        match read {
            FileRead::NotFound => r is Fresh,
            FileRead::Contents(s) => if exists|i: int|
                0 <= i < s@.len() && !text::is_white(#[trigger] s@[i]) {
                r == Intake::Parse(s)
            } else {
                r is Fresh
            },
            FileRead::Failed(e) => r matches Intake::Fail(
                LoadError::Reading { what: w, path: p, cause },
            ) && w@ == what@ && p@ == path@ && cause == e,
        },
{
}

/// A name below a directory stands behind one slash, the directory's own where it ends
/// in one; below none it stands alone.
pub proof fn law_name_stands_behind_one_slash(dir: &str, name: &str, r: String)
    requires
        call_ensures(join_path, (dir, name), r),
    ensures
        dir@.len() == 0 ==> r@ == name@,
        dir@.len() > 0 && dir@.last() == '/' ==> r@ == dir@ + name@,
        dir@.len() > 0 && dir@.last() != '/' ==> r@ == dir@ + seq!['/'] + name@,
{
    reveal_strlit("/");
    assert("/"@ =~= seq!['/']);
    if dir@.len() == 0 {
        assert(dir@ + name@ =~= name@);
    }
}

} // verus!
