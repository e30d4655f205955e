//! Structured decode errors.
//!
//! Encoding is total; only decoding can fail.  An error names what went
//! wrong (`kind`) and where (`path`): the child and property names leading
//! from the node handed to the decoder down to the offending element.

use vstd::prelude::*;

verus! {

/// What went wrong while decoding.
#[derive(Clone, Copy, Debug, PartialEq, Eq)]
pub enum ErrorKind {
    /// A positional value was expected but the stream was exhausted.
    MissingArgument,
    /// A value was present but of the wrong type.
    WrongType,
    /// A required single child was absent.
    MissingChild,
}

/// A decode failure, tied to the path of the element it concerns.
#[derive(Clone, Debug, PartialEq)]
pub struct DecodeError {
    pub path: Vec<String>,
    pub kind: ErrorKind,
}

/// Mathematical mirror of [`DecodeError`].
#[verifier::ext_equal]
pub ghost struct DecodeErrorS {
    pub path: Seq<Seq<char>>,
    pub kind: ErrorKind,
}

impl DecodeError {
    pub open spec fn deep(&self) -> DecodeErrorS {
        DecodeErrorS { path: self.path.deep_view(), kind: self.kind }
    }
}

/// The same failure, seen from the enclosing node: the name of the child
/// the decoder was inside is put in front of the path.
pub open spec fn wrap(name: Seq<char>, e: DecodeErrorS) -> DecodeErrorS {
    DecodeErrorS { path: seq![name] + e.path, kind: e.kind }
}

/// An error with a one-element path.
pub open spec fn err_at(name: Seq<char>, kind: ErrorKind) -> DecodeErrorS {
    DecodeErrorS { path: seq![name], kind }
}

/// An error about the node itself, with an empty path.
pub open spec fn err_here(kind: ErrorKind) -> DecodeErrorS {
    DecodeErrorS { path: seq![], kind }
}

impl DecodeError {
    /// Builds the error that `err_here` describes.
    pub fn new_here(kind: ErrorKind) -> (r: DecodeError)
        ensures
            r.deep() == err_here(kind),
    {
        let r = DecodeError { path: Vec::new(), kind };
        proof {
            assert(r.deep().path =~= err_here(kind).path);
        }
        r
    }

    /// Builds the error that `err_at` describes.
    pub fn new_at(name: &str, kind: ErrorKind) -> (r: DecodeError)
        ensures
            r.deep() == err_at(name@, kind),
    {
        let mut path: Vec<String> = Vec::new();
        path.push(name.to_owned());
        let r = DecodeError { path, kind };
        proof {
            assert(r.deep().path =~= err_at(name@, kind).path);
        }
        r
    }

    /// Puts `name` in front of the path, as `wrap` describes.
    pub fn wrapped(self, name: &str) -> (r: DecodeError)
        ensures
            r.deep() == wrap(name@, self.deep()),
    {
        let ghost old_self = self;
        let mut path = self.path;
        path.insert(0, name.to_owned());
        let r = DecodeError { path, kind: self.kind };
        proof {
            assert(r.deep().path =~= wrap(name@, old_self.deep()).path);
        }
        r
    }
}

} // verus!
