//! The library's error value: a kind, a message and the messages of its causes.
use vstd::prelude::*;

use crate::text::string_views;

verus! {

/// What went wrong, by the stage at which it went wrong.
#[derive(Clone, Copy, Debug, PartialEq, Eq, Structural)]
pub enum ErrorKind {
    /// Malformed location syntax or a missing setting.
    Configuration,
    /// Listing or reading a location failed.
    Storage,
    /// A file name matched no known pattern.
    Unrecognized,
    /// A row lacked a field its type requires.
    MissingField,
    /// A graph submission failed.
    Upload,
    /// The adaptive delete made no progress even at the smallest batch.
    RetryExhausted,
}

pub struct Error {
    pub kind: ErrorKind,
    pub message: String,
    /// The messages of the errors that led to this one, nearest first.
    pub causes: Vec<String>,
}

impl Error {
    /// The messages of this error and its causes, outermost first.
    pub open spec fn chain(&self) -> Seq<Seq<char>> {
        seq![self.message@] + string_views(self.causes@)
    }

    pub fn new(kind: ErrorKind, message: String) -> (r: Error)
        ensures
            r.kind == kind,
            r.chain() == seq![message@],
    {
        let r = Error { kind, message, causes: Vec::new() };
        assert(string_views(r.causes@) =~= Seq::<Seq<char>>::empty());
        r
    }

    /// An error of the same kind as `error`, described by `message` and caused by `error`.
    pub fn wrap(message: String, error: Error) -> (r: Error)
        ensures
            r.kind == error.kind,
            r.chain() == seq![message@] + error.chain(),
    {
        let Error { kind, message: inner, causes } = error;
        let mut all: Vec<String> = Vec::new();
        all.push(inner);
        let mut i: usize = 0;
        while i < causes.len()
            invariant
                i <= causes@.len(),
                string_views(all@) == seq![error.message@] + string_views(causes@.take(i as int)),
            decreases causes@.len() - i,
        {
            let ghost before = string_views(all@);
            all.push(causes[i].clone());
            assert(string_views(causes@.take(i + 1)) =~= string_views(causes@.take(i as int)).push(
                causes@[i as int]@,
            ));
            assert(string_views(all@) =~= before.push(causes@[i as int]@));
            i = i + 1;
        }
        assert(causes@.take(causes@.len() as int) =~= causes@);
        let r = Error { kind, message, causes: all };
        assert(r.chain() =~= seq![message@] + error.chain());
        r
    }

    /// A copy of this error with the same kind and messages.
    pub fn approximate_clone(&self) -> (r: Error)
        ensures
            r.kind == self.kind,
            r.chain() == self.chain(),
    {
        let mut causes: Vec<String> = Vec::new();
        let mut i: usize = 0;
        while i < self.causes.len()
            invariant
                i <= self.causes@.len(),
                string_views(causes@) == string_views(self.causes@.take(i as int)),
            decreases self.causes@.len() - i,
        {
            let ghost before = string_views(causes@);
            causes.push(self.causes[i].clone());
            assert(string_views(self.causes@.take(i + 1)) =~= string_views(
                self.causes@.take(i as int),
            ).push(self.causes@[i as int]@));
            assert(string_views(causes@) =~= before.push(self.causes@[i as int]@));
            i = i + 1;
        }
        assert(self.causes@.take(self.causes@.len() as int) =~= self.causes@);
        let r = Error { kind: self.kind, message: self.message.clone(), causes };
        assert(r.chain() =~= self.chain());
        r
    }

    /// The error that caused this one, if any.
    pub fn source(&self) -> (r: Option<Error>)
        ensures
            self.causes@.len() == 0 <==> r is None,
            r matches Some(e) ==> e.kind == self.kind && e.chain() == self.chain().drop_first(),
    {
        if self.causes.len() == 0 {
            None
        } else {
            let mut rest: Vec<String> = Vec::new();
            let mut i: usize = 1;
            while i < self.causes.len()
                invariant
                    1 <= i <= self.causes@.len(),
                    string_views(rest@) == string_views(self.causes@.subrange(1, i as int)),
                decreases self.causes@.len() - i,
            {
                let ghost before = string_views(rest@);
                rest.push(self.causes[i].clone());
                assert(string_views(self.causes@.subrange(1, i + 1)) =~= string_views(
                    self.causes@.subrange(1, i as int),
                ).push(self.causes@[i as int]@));
                assert(string_views(rest@) =~= before.push(self.causes@[i as int]@));
                i = i + 1;
            }
            let e = Error { kind: self.kind, message: self.causes[0].clone(), causes: rest };
            assert(e.chain() =~= self.chain().drop_first());
            Some(e)
        }
    }

    /// The messages of this error and its causes, separated by ": ".
    pub fn describe(&self) -> (r: String)
        ensures
            r@ == joined_messages(self.chain()),
    {
        let mut r = self.message.clone();
        let mut i: usize = 0;
        while i < self.causes.len()
            invariant
                i <= self.causes@.len(),
                r@ == joined_messages(self.chain().take(i + 1)),
            decreases self.causes@.len() - i,
        {
            r.append(": ");
            r.append(self.causes[i].as_str());
            assert(self.chain().take(i + 2).drop_last() =~= self.chain().take(i + 1));
            i = i + 1;
        }
        assert(self.chain().take(self.causes@.len() + 1int) =~= self.chain());
        r
    }
}

/// The messages joined with ": " between consecutive ones.
pub open spec fn joined_messages(ms: Seq<Seq<char>>) -> Seq<char>
    decreases ms.len(),
{
    if ms.len() == 0 {
        Seq::<char>::empty()
    } else if ms.len() == 1 {
        ms[0]
    } else {
        joined_messages(ms.drop_last()) + ": "@ + ms.last()
    }
}

} // verus!
