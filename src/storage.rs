//! Locations (a local path or an object-store address), and the decisions of listing a
//! remote prefix page by page.
use vstd::prelude::*;

use crate::error::{Error, ErrorKind};
use crate::text::{
    chars_from, chars_of, find_first, first_of, starts_with_chars, string_of, take_chars,
};

verus! {

/// The scheme that marks a remote location.
pub open spec fn scheme() -> Seq<char> {
    "s3://"@
}

/// A bucket and a key in the object store.
pub struct S3Uri {
    pub bucket: String,
    pub key: String,
}

/// Where a file or directory is.
pub enum FilePath {
    Local(String),
    S3(S3Uri),
}

pub open spec fn has_scheme(s: Seq<char>) -> bool {
    scheme().len() <= s.len() && s.take(scheme().len() as int) == scheme()
}

/// The bucket and key of a remote address: the text after the scheme, cut at its first '/'.
pub open spec fn uri_parts(s: Seq<char>) -> Option<(Seq<char>, Seq<char>)> {
    if has_scheme(s) {
        let rest = s.skip(scheme().len() as int);
        let slash = first_of(rest, '/', '/') as int;
        if slash < rest.len() {
            Some((rest.take(slash), rest.skip(slash + 1)))
        } else {
            None
        }
    } else {
        None
    }
}

impl S3Uri {
    pub fn new(bucket: String, key: String) -> (r: S3Uri)
        ensures
            r.bucket == bucket,
            r.key == key,
    {
        S3Uri { bucket, key }
    }

    /// Reads `s3://<bucket>/<key>`; fails when the scheme or the separating '/' is missing.
    pub fn from_uri(uri: &str) -> (r: Result<S3Uri, Error>)
        ensures
            r is Ok <==> uri_parts(uri@) is Some,
            r matches Ok(u) ==> uri_parts(uri@) == Some((u.bucket@, u.key@)),
            r matches Err(e) ==> e.kind == ErrorKind::Configuration,
    {
        let chars = chars_of(uri);
        let prefix = chars_of("s3://");
        if !starts_with_chars(chars.as_slice(), prefix.as_slice()) {
            return Err(
                Error::new(
                    ErrorKind::Configuration,
                    String::from_str("S3 URI must start with 's3://'"),
                ),
            );
        }
        let rest = chars_from(chars.as_slice(), prefix.len());
        let slash = find_first(&rest, '/', '/');
        if slash >= rest.len() {
            return Err(
                Error::new(
                    ErrorKind::Configuration,
                    String::from_str("S3 URI must contain a bucket and key separated by '/'"),
                ),
            );
        }
        let bucket = string_of(take_chars(&rest, slash).as_slice());
        let key = string_of(chars_from(rest.as_slice(), slash + 1).as_slice());
        Ok(S3Uri { bucket, key })
    }

    /// The address as text: `s3://<bucket>/<key>`.
    pub fn to_text(&self) -> (r: String)
        ensures
            r@ == scheme() + self.bucket@ + "/"@ + self.key@,
    {
        let mut r = String::from_str("s3://");
        r.append(self.bucket.as_str());
        r.append("/");
        r.append(self.key.as_str());
        r
    }
}

impl FilePath {
    /// A remote location when the text starts with the scheme, a local path otherwise.
    pub fn from_path(path: &str) -> (r: Result<FilePath, Error>)
        ensures
            has_scheme(path@) ==> match uri_parts(path@) {
                Some((b, k)) => (r matches Ok(FilePath::S3(u)) && u.bucket@ == b && u.key@ == k),
                None => (r matches Err(e) && e.kind == ErrorKind::Configuration),
            },
            !has_scheme(path@) ==> (r matches Ok(FilePath::Local(p)) && p@ == path@),
    {
        let chars = chars_of(path);
        let prefix = chars_of("s3://");
        if starts_with_chars(chars.as_slice(), prefix.as_slice()) {
            match S3Uri::from_uri(path) {
                Ok(u) => Ok(FilePath::S3(u)),
                Err(e) => Err(e),
            }
        } else {
            Ok(FilePath::Local(path.to_owned()))
        }
    }
}

/// The text that names the entries of a directory location: the local path, or the scheme
/// and bucket, with a '/' added when it does not already end in one.
pub open spec fn entry_prefix(dir: FilePath) -> Seq<char> {
    let base = match dir {
        FilePath::Local(p) => p@,
        FilePath::S3(u) => scheme() + u.bucket@,
    };
    if base.len() > 0 && base.last() == '/' {
        base
    } else {
        base.push('/')
    }
}

/// Collects the entries of a listing as full names.
pub struct FileCollector {
    pub prefix: String,
    pub files: Vec<String>,
}

impl FileCollector {
    pub fn new(dir: &FilePath) -> (r: FileCollector)
        ensures
            r.prefix@ == entry_prefix(*dir),
            r.files@.len() == 0,
    {
        let mut prefix = match dir {
            FilePath::Local(p) => p.clone(),
            FilePath::S3(u) => {
                let mut s = String::from_str("s3://");
                s.append(u.bucket.as_str());
                s
            },
        };
        let chars = chars_of(prefix.as_str());
        if chars.len() == 0 || chars[chars.len() - 1] != '/' {
            prefix.append("/");
            proof {
                reveal_strlit("/");
                assert("/"@ =~= seq!['/']);
            }
        }
        FileCollector { prefix, files: Vec::new() }
    }

    /// Records one entry name.
    pub fn consume(&mut self, line: &str)
        ensures
            final(self).prefix == old(self).prefix,
            final(self).files@.len() == old(self).files@.len() + 1,
            forall|i: int|
                0 <= i < old(self).files@.len() ==> final(self).files@[i] == old(self).files@[i],
            final(self).files@.last()@ == old(self).prefix@ + line@,
    {
        let mut name = self.prefix.clone();
        name.append(line);
        self.files.push(name);
    }
}

/// Where a paginated listing stands.
pub enum Iteration {
    Start,
    Continuation(String),
    Complete,
}

/// The listing position after a page that reported `is_truncated` and `next_token`: another
/// page is owed exactly when the page says it is truncated, and then it must carry a token.
pub fn next_iteration(is_truncated: Option<bool>, next_token: Option<String>) -> (r: Result<
    Iteration,
    Error,
>)
    ensures
        is_truncated == Some(true) ==> match next_token {
            Some(t) => (r matches Ok(Iteration::Continuation(u)) && u == t),
            None => (r matches Err(e) && e.kind == ErrorKind::Storage),
        },
        is_truncated != Some(true) ==> r matches Ok(Iteration::Complete),
{
    match is_truncated {
        Some(true) => match next_token {
            Some(t) => Ok(Iteration::Continuation(t)),
            None => Err(
                Error::new(
                    ErrorKind::Storage,
                    String::from_str("No continuation token found in S3 response"),
                ),
            ),
        },
        _ => Ok(Iteration::Complete),
    }
}

/// The keys of one listing page; fails when the page has no contents or an entry has no key.
pub fn page_keys(contents: Option<Vec<Option<String>>>) -> (r: Result<Vec<String>, Error>)
    ensures
        r is Ok <==> (contents matches Some(c) && forall|i: int|
            0 <= i < c@.len() ==> (#[trigger] c@[i]) is Some),
        r matches Ok(keys) ==> (contents matches Some(c) && keys@.len() == c@.len() && forall|
            i: int,
        |
            0 <= i < c@.len() ==> c@[i] == Some(#[trigger] keys@[i])),
        r matches Err(e) ==> e.kind == ErrorKind::Storage,
{
    let items = match contents {
        Some(c) => c,
        None => {
            return Err(
                Error::new(ErrorKind::Storage, String::from_str("No contents found in S3 response")),
            )
        },
    };
    let mut keys: Vec<String> = Vec::new();
    let mut i: usize = 0;
    while i < items.len()
        invariant
            i <= items@.len(),
            contents == Some(items),
            keys@.len() == i,
            forall|j: int| 0 <= j < i ==> items@[j] == Some(#[trigger] keys@[j]),
        decreases items@.len() - i,
    {
        match &items[i] {
            Some(k) => keys.push(k.clone()),
            None => {
                return Err(
                    Error::new(ErrorKind::Storage, String::from_str("No key found in S3 object")),
                )
            },
        }
        i = i + 1;
    }
    assert forall|j: int| 0 <= j < items@.len() implies (#[trigger] items@[j]) is Some by {
        assert(items@[j] == Some(keys@[j]));
    }
    Ok(keys)
}

} // verus!
