use vstd::prelude::*;

verus! {

/// A question put to a file system about a path.
pub enum FsQuestion {
    Exists(Seq<char>),
    IsFile(Seq<char>),
    IsExecutable(Seq<char>),
    Canonicalize(Seq<char>),
    ReadText(Seq<char>),
    ReadBytes(Seq<char>),
    ReadLink(Seq<char>),
}

/// An answer of a file system: a yes or no, the text or bytes of a file
/// where it could be read, or a path or the text of the error.
pub enum FsAnswer {
    Flag(bool),
    Text(Option<Seq<char>>),
    Bytes(Option<Seq<u8>>),
    Path(Result<Seq<char>, Seq<char>>),
}

/// The view of a path result.
pub open spec fn path_answer(r: Result<String, String>) -> FsAnswer {
    FsAnswer::Path(
        match r {
            Ok(p) => Ok(p@),
            Err(e) => Err(e@),
        },
    )
}

/// The view of a text result.
pub open spec fn text_answer(r: Option<String>) -> FsAnswer {
    FsAnswer::Text(
        match r {
            Some(t) => Some(t@),
            None => None,
        },
    )
}

/// The view of a bytes result.
pub open spec fn bytes_answer(r: Option<Vec<u8>>) -> FsAnswer {
    FsAnswer::Bytes(
        match r {
            Some(b) => Some(b@),
            None => None,
        },
    )
}

/// Read access to the file system, as the filesystem and procfs backends
/// need it. Implementations decide how; each says which answers it may
/// give, and nothing more is taken of them.
pub trait FileSystem {
    /// Whether `a` is an answer this file system may give to `q`; any
    /// answer, unless the file system says otherwise.
    open spec fn may_answer(&self, q: FsQuestion, a: FsAnswer) -> bool {
        true
    }

    /// Whether something exists at `path`.
    fn path_exists(&self, path: &str) -> (r: bool)
        ensures
            self.may_answer(FsQuestion::Exists(path@), FsAnswer::Flag(r)),
    ;

    /// Whether `path` is a regular file, following symbolic links.
    fn is_file(&self, path: &str) -> (r: bool)
        ensures
            self.may_answer(FsQuestion::IsFile(path@), FsAnswer::Flag(r)),
    ;

    /// Whether `path` has any execute permission bit set; false where its
    /// metadata cannot be read.
    fn is_executable(&self, path: &str) -> (r: bool)
        ensures
            self.may_answer(FsQuestion::IsExecutable(path@), FsAnswer::Flag(r)),
    ;

    /// The canonical absolute form of `path`, or the text of the error.
    fn canonicalize(&self, path: &str) -> (r: Result<String, String>)
        ensures
            self.may_answer(FsQuestion::Canonicalize(path@), path_answer(r)),
    ;

    /// The contents of the file at `path` as text.
    fn read_to_string(&self, path: &str) -> (r: Option<String>)
        ensures
            self.may_answer(FsQuestion::ReadText(path@), text_answer(r)),
    ;

    /// The bytes of the file at `path`.
    fn read(&self, path: &str) -> (r: Option<Vec<u8>>)
        ensures
            self.may_answer(FsQuestion::ReadBytes(path@), bytes_answer(r)),
    ;

    /// The target of the symbolic link at `path`, or the text of the error.
    fn read_link(&self, path: &str) -> (r: Result<String, String>)
        ensures
            self.may_answer(FsQuestion::ReadLink(path@), path_answer(r)),
    ;
}

impl<T: FileSystem> FileSystem for &T {
    open spec fn may_answer(&self, q: FsQuestion, a: FsAnswer) -> bool {
        (**self).may_answer(q, a)
    }

    fn path_exists(&self, path: &str) -> (r: bool) {
        (**self).path_exists(path)
    }

    fn is_file(&self, path: &str) -> (r: bool) {
        (**self).is_file(path)
    }

    fn is_executable(&self, path: &str) -> (r: bool) {
        (**self).is_executable(path)
    }

    fn canonicalize(&self, path: &str) -> (r: Result<String, String>) {
        (**self).canonicalize(path)
    }

    fn read_to_string(&self, path: &str) -> (r: Option<String>) {
        (**self).read_to_string(path)
    }

    fn read(&self, path: &str) -> (r: Option<Vec<u8>>) {
        (**self).read(path)
    }

    fn read_link(&self, path: &str) -> (r: Result<String, String>) {
        (**self).read_link(path)
    }
}

} // verus!
