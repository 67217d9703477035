//! File names of the form `<stem>.phewas_all_large.[Factor<f>.]*<suffix>`: classifying a
//! name into a kind and its factors, and rendering a kind and factors back into a name.
use vstd::prelude::*;

use crate::error::{Error, ErrorKind};
use crate::number::{digits_of, digits_text};
use crate::text::{
    chars_eq, chars_from, chars_of, join_chars, join_seq, lacks, lemma_split_join, split_chars,
    split_seq, starts_with_chars, string_of, string_views, views,
};

verus! {

/// The roles a data file can play, in their display order.
#[derive(Clone, Copy, Debug, PartialEq, Eq, Structural, PartialOrd, Ord, Hash)]
pub enum FileKind {
    Gss,
    Gs,
    F,
    GscOut,
    GscList,
    Gc,
    Pc,
    Pc1,
    Pc2,
    Pc3,
    PcList,
}

/// A file name's kind and the factors it carries, in order of appearance.
pub struct FileInfo {
    pub kind: FileKind,
    pub factors: Vec<String>,
}

pub open spec fn factor_prefix() -> Seq<char> {
    "Factor"@
}

pub open spec fn is_factor_token(t: Seq<char>) -> bool {
    factor_prefix().len() <= t.len() && t.take(factor_prefix().len() as int) == factor_prefix()
}

/// The factors named by the factor tokens of `ts`, prefix removed, in order.
pub open spec fn factors_in(ts: Seq<Seq<char>>) -> Seq<Seq<char>>
    decreases ts.len(),
{
    if ts.len() == 0 {
        Seq::<Seq<char>>::empty()
    } else if is_factor_token(ts.last()) {
        factors_in(ts.drop_last()).push(ts.last().skip(factor_prefix().len() as int))
    } else {
        factors_in(ts.drop_last())
    }
}

/// The tokens of `ts` that are not factor tokens, in order.
pub open spec fn circumfix_in(ts: Seq<Seq<char>>) -> Seq<Seq<char>>
    decreases ts.len(),
{
    if ts.len() == 0 {
        Seq::<Seq<char>>::empty()
    } else if is_factor_token(ts.last()) {
        circumfix_in(ts.drop_last())
    } else {
        circumfix_in(ts.drop_last()).push(ts.last())
    }
}

/// The tokens before the factors in a name of kind `k`.
pub open spec fn front_tokens(k: FileKind) -> Seq<Seq<char>> {
    let stem = match k {
        FileKind::Gss => "gss"@,
        FileKind::Gs => "gs"@,
        FileKind::F => "f"@,
        FileKind::GscOut | FileKind::GscList => "gsc"@,
        FileKind::Gc => "gc"@,
        _ => "pc"@,
    };
    seq![stem, "phewas_all_large"@]
}

/// The tokens after the factors in a name of kind `k`.
pub open spec fn back_tokens(k: FileKind) -> Seq<Seq<char>> {
    match k {
        FileKind::Gss | FileKind::Gs => seq!["temp"@, "txt"@],
        FileKind::GscList | FileKind::PcList => seq!["list"@],
        FileKind::Pc1 => seq!["1"@, "out"@],
        FileKind::Pc2 => seq!["2"@, "out"@],
        FileKind::Pc3 => seq!["3"@, "out"@],
        _ => seq!["out"@],
    }
}

/// The row of the table of recognized names for kind `k`: its tokens other than factors.
pub open spec fn circumfix(k: FileKind) -> Seq<Seq<char>> {
    front_tokens(k) + back_tokens(k)
}

/// The kind whose table row is `c`, if any.
pub open spec fn kind_of(c: Seq<Seq<char>>) -> Option<FileKind> {
    if c == circumfix(FileKind::Gss) {
        Some(FileKind::Gss)
    } else if c == circumfix(FileKind::Gs) {
        Some(FileKind::Gs)
    } else if c == circumfix(FileKind::F) {
        Some(FileKind::F)
    } else if c == circumfix(FileKind::GscOut) {
        Some(FileKind::GscOut)
    } else if c == circumfix(FileKind::GscList) {
        Some(FileKind::GscList)
    } else if c == circumfix(FileKind::Gc) {
        Some(FileKind::Gc)
    } else if c == circumfix(FileKind::Pc) {
        Some(FileKind::Pc)
    } else if c == circumfix(FileKind::Pc1) {
        Some(FileKind::Pc1)
    } else if c == circumfix(FileKind::Pc2) {
        Some(FileKind::Pc2)
    } else if c == circumfix(FileKind::Pc3) {
        Some(FileKind::Pc3)
    } else if c == circumfix(FileKind::PcList) {
        Some(FileKind::PcList)
    } else {
        None
    }
}

/// The kind and factors of a file name, or `None` when its tokens other than factors
/// match no row of the table.
pub open spec fn classify_spec(name: Seq<char>) -> Option<(FileKind, Seq<Seq<char>>)> {
    let ts = split_seq(name, '.');
    match kind_of(circumfix_in(ts)) {
        Some(k) => Some((k, factors_in(ts))),
        None => None,
    }
}

pub open spec fn factor_token(f: Seq<char>) -> Seq<char> {
    factor_prefix() + f
}

/// The tokens of the canonical name of kind `k` with factors `fs`.
pub open spec fn name_tokens(k: FileKind, fs: Seq<Seq<char>>) -> Seq<Seq<char>> {
    front_tokens(k) + fs.map_values(|f: Seq<char>| factor_token(f)) + back_tokens(k)
}

/// The canonical name of kind `k` with factors `fs`.
pub open spec fn render_spec(k: FileKind, fs: Seq<Seq<char>>) -> Seq<char> {
    join_seq(name_tokens(k, fs), '.')
}

proof fn lemma_factors_concat(a: Seq<Seq<char>>, b: Seq<Seq<char>>)
    ensures
        factors_in(a + b) == factors_in(a) + factors_in(b),
        circumfix_in(a + b) == circumfix_in(a) + circumfix_in(b),
    decreases b.len(),
{
    if b.len() == 0 {
        assert(a + b =~= a);
        assert(factors_in(a) + factors_in(b) =~= factors_in(a));
        assert(circumfix_in(a) + circumfix_in(b) =~= circumfix_in(a));
    } else {
        lemma_factors_concat(a, b.drop_last());
        assert((a + b).drop_last() =~= a + b.drop_last());
        assert((a + b).last() == b.last());
        assert((factors_in(a) + factors_in(b.drop_last())).push(
            b.last().skip(factor_prefix().len() as int),
        ) =~= factors_in(a) + factors_in(b.drop_last()).push(
            b.last().skip(factor_prefix().len() as int),
        ));
        assert((circumfix_in(a) + circumfix_in(b.drop_last())).push(b.last()) =~= circumfix_in(a)
            + circumfix_in(b.drop_last()).push(b.last()));
    }
}

proof fn lemma_factor_tokens(fs: Seq<Seq<char>>)
    ensures
        factors_in(fs.map_values(|f: Seq<char>| factor_token(f))) == fs,
        circumfix_in(fs.map_values(|f: Seq<char>| factor_token(f))) == Seq::<Seq<char>>::empty(),
    decreases fs.len(),
{
    let ts = fs.map_values(|f: Seq<char>| factor_token(f));
    if fs.len() > 0 {
        lemma_factor_tokens(fs.drop_last());
        assert(ts.drop_last() =~= fs.drop_last().map_values(|f: Seq<char>| factor_token(f)));
        let t = ts.last();
        assert(t == factor_prefix() + fs.last());
        assert(t.take(factor_prefix().len() as int) =~= factor_prefix());
        assert(t.skip(factor_prefix().len() as int) =~= fs.last());
        assert(fs.drop_last().push(fs.last()) =~= fs);
    } else {
        assert(ts =~= Seq::<Seq<char>>::empty());
        assert(fs =~= Seq::<Seq<char>>::empty());
    }
}

proof fn lemma_plain_tokens(ts: Seq<Seq<char>>)
    requires
        forall|i: int| 0 <= i < ts.len() ==> !is_factor_token(#[trigger] ts[i]),
    ensures
        factors_in(ts) == Seq::<Seq<char>>::empty(),
        circumfix_in(ts) == ts,
    decreases ts.len(),
{
    if ts.len() > 0 {
        let init = ts.drop_last();
        assert forall|i: int| 0 <= i < init.len() implies !is_factor_token(#[trigger] init[i]) by {
            assert(init[i] == ts[i]);
        }
        lemma_plain_tokens(init);
        assert(!is_factor_token(ts[ts.len() - 1]));
        assert(init.push(ts.last()) =~= ts);
    } else {
        assert(ts =~= Seq::<Seq<char>>::empty());
    }
}

proof fn lemma_rows_differ(k1: FileKind, k2: FileKind)
    requires
        k1 != k2,
    ensures
        circumfix(k1) != circumfix(k2),
{
    reveal_strlit("gss");
    reveal_strlit("gs");
    reveal_strlit("f");
    reveal_strlit("gsc");
    reveal_strlit("gc");
    reveal_strlit("pc");
    reveal_strlit("temp");
    reveal_strlit("txt");
    reveal_strlit("list");
    reveal_strlit("out");
    reveal_strlit("1");
    reveal_strlit("2");
    reveal_strlit("3");
    let a = circumfix(k1);
    let b = circumfix(k2);
    if a == b {
        assert(a.len() == b.len());
        assert(a[0] == b[0]);
        assert(a[a.len() - 1] == b[b.len() - 1]);
        if a.len() == 4 {
            assert(a[2] == b[2]);
            assert(a[2][0] == b[2][0]);
        }
        assert(a[0].len() == b[0].len());
        assert(a[0][0] == b[0][0]);
        assert(a[a.len() - 1].len() == b[b.len() - 1].len());
    }
}

proof fn lemma_table_tokens(k: FileKind)
    ensures
        forall|i: int|
            0 <= i < circumfix(k).len() ==> !is_factor_token(#[trigger] circumfix(k)[i]) && lacks(
                circumfix(k)[i],
                '.',
            ),
        kind_of(circumfix(k)) == Some(k),
{
    reveal_strlit("Factor");
    reveal_strlit("gss");
    reveal_strlit("gs");
    reveal_strlit("f");
    reveal_strlit("gsc");
    reveal_strlit("gc");
    reveal_strlit("pc");
    reveal_strlit("phewas_all_large");
    reveal_strlit("temp");
    reveal_strlit("txt");
    reveal_strlit("list");
    reveal_strlit("out");
    reveal_strlit("1");
    reveal_strlit("2");
    reveal_strlit("3");
    let c = circumfix(k);
    assert forall|i: int| 0 <= i < c.len() implies !is_factor_token(#[trigger] c[i]) && lacks(
        c[i],
        '.',
    ) by {
        reveal_strlit("Factor");
        reveal_strlit("gss");
        reveal_strlit("gs");
        reveal_strlit("f");
        reveal_strlit("gsc");
        reveal_strlit("gc");
        reveal_strlit("pc");
        reveal_strlit("phewas_all_large");
        reveal_strlit("temp");
        reveal_strlit("txt");
        reveal_strlit("list");
        reveal_strlit("out");
        reveal_strlit("1");
        reveal_strlit("2");
        reveal_strlit("3");
        if is_factor_token(c[i]) {
            assert(c[i].take(6)[0] == c[i][0]);
        }
    }
    if k != FileKind::Gss {
        lemma_rows_differ(k, FileKind::Gss);
    }
    if k != FileKind::Gs {
        lemma_rows_differ(k, FileKind::Gs);
    }
    if k != FileKind::F {
        lemma_rows_differ(k, FileKind::F);
    }
    if k != FileKind::GscOut {
        lemma_rows_differ(k, FileKind::GscOut);
    }
    if k != FileKind::GscList {
        lemma_rows_differ(k, FileKind::GscList);
    }
    if k != FileKind::Gc {
        lemma_rows_differ(k, FileKind::Gc);
    }
    if k != FileKind::Pc {
        lemma_rows_differ(k, FileKind::Pc);
    }
    if k != FileKind::Pc1 {
        lemma_rows_differ(k, FileKind::Pc1);
    }
    if k != FileKind::Pc2 {
        lemma_rows_differ(k, FileKind::Pc2);
    }
    if k != FileKind::Pc3 {
        lemma_rows_differ(k, FileKind::Pc3);
    }
}

/// Rendering a kind and factors and classifying the name gives them back, when no factor
/// holds the token separator.
pub proof fn lemma_classify_render(k: FileKind, fs: Seq<Seq<char>>)
    requires
        forall|i: int| 0 <= i < fs.len() ==> lacks(#[trigger] fs[i], '.'),
    ensures
        classify_spec(render_spec(k, fs)) == Some((k, fs)),
{
    lemma_table_tokens(k);
    reveal_strlit("Factor");
    let front = front_tokens(k);
    let back = back_tokens(k);
    let mid = fs.map_values(|f: Seq<char>| factor_token(f));
    let ts = name_tokens(k, fs);
    assert(ts == front + mid + back);
    assert forall|i: int| 0 <= i < ts.len() implies lacks(#[trigger] ts[i], '.') by {
        if i < front.len() {
            assert(ts[i] == circumfix(k)[i]);
        } else if i < front.len() + mid.len() {
            let f = fs[i - front.len()];
            assert(ts[i] == factor_prefix() + f);
            assert forall|j: int| 0 <= j < ts[i].len() implies ts[i][j] != '.' by {
                reveal_strlit("Factor");
                if j >= factor_prefix().len() {
                    assert(ts[i][j] == f[j - factor_prefix().len()]);
                }
            }
        } else {
            assert(ts[i] == circumfix(k)[i - mid.len()]);
        }
    }
    lemma_split_join(ts, '.');
    assert forall|i: int| 0 <= i < front.len() implies !is_factor_token(#[trigger] front[i]) by {
        assert(front[i] == circumfix(k)[i]);
    }
    assert forall|i: int| 0 <= i < back.len() implies !is_factor_token(#[trigger] back[i]) by {
        assert(back[i] == circumfix(k)[front.len() + i]);
    }
    lemma_plain_tokens(front);
    lemma_plain_tokens(back);
    lemma_factor_tokens(fs);
    lemma_factors_concat(front + mid, back);
    lemma_factors_concat(front, mid);
    assert(circumfix_in(ts) =~= circumfix(k));
    assert(factors_in(ts) =~= fs);
}

fn front_exec(k: FileKind) -> (r: Vec<Vec<char>>)
    ensures
        views(r@) == front_tokens(k),
{
    let stem = match k {
        FileKind::Gss => chars_of("gss"),
        FileKind::Gs => chars_of("gs"),
        FileKind::F => chars_of("f"),
        FileKind::GscOut | FileKind::GscList => chars_of("gsc"),
        FileKind::Gc => chars_of("gc"),
        _ => chars_of("pc"),
    };
    let r = vec![stem, chars_of("phewas_all_large")];
    assert(views(r@) =~= front_tokens(k));
    r
}

fn back_exec(k: FileKind) -> (r: Vec<Vec<char>>)
    ensures
        views(r@) == back_tokens(k),
{
    let r = match k {
        FileKind::Gss | FileKind::Gs => vec![chars_of("temp"), chars_of("txt")],
        FileKind::GscList | FileKind::PcList => vec![chars_of("list")],
        FileKind::Pc1 => vec![chars_of("1"), chars_of("out")],
        FileKind::Pc2 => vec![chars_of("2"), chars_of("out")],
        FileKind::Pc3 => vec![chars_of("3"), chars_of("out")],
        _ => vec![chars_of("out")],
    };
    assert(views(r@) =~= back_tokens(k));
    r
}

fn append_all(dst: &mut Vec<Vec<char>>, src: Vec<Vec<char>>)
    ensures
        views(final(dst)@) == views(old(dst)@) + views(src@),
{
    let mut src = src;
    let ghost s0 = views(src@);
    let ghost d0 = views(dst@);
    dst.append(&mut src);
    assert(views(dst@) =~= d0 + s0);
}

fn circumfix_exec(k: FileKind) -> (r: Vec<Vec<char>>)
    ensures
        views(r@) == circumfix(k),
{
    let mut r = front_exec(k);
    append_all(&mut r, back_exec(k));
    r
}

fn tokens_eq(a: &Vec<Vec<char>>, b: &Vec<Vec<char>>) -> (r: bool)
    ensures
        r == (views(a@) == views(b@)),
{
    if a.len() != b.len() {
        assert(views(a@).len() != views(b@).len());
        return false;
    }
    let mut i: usize = 0;
    while i < a.len()
        invariant
            i <= a@.len() == b@.len(),
            forall|j: int| 0 <= j < i ==> a@[j]@ == b@[j]@,
        decreases a@.len() - i,
    {
        if !chars_eq(a[i].as_slice(), b[i].as_slice()) {
            assert(views(a@)[i as int] != views(b@)[i as int]);
            return false;
        }
        i = i + 1;
    }
    assert(views(a@) =~= views(b@));
    true
}

fn kind_for(c: &Vec<Vec<char>>) -> (r: Option<FileKind>)
    ensures
        r == kind_of(views(c@)),
{
    if tokens_eq(c, &circumfix_exec(FileKind::Gss)) {
        Some(FileKind::Gss)
    } else if tokens_eq(c, &circumfix_exec(FileKind::Gs)) {
        Some(FileKind::Gs)
    } else if tokens_eq(c, &circumfix_exec(FileKind::F)) {
        Some(FileKind::F)
    } else if tokens_eq(c, &circumfix_exec(FileKind::GscOut)) {
        Some(FileKind::GscOut)
    } else if tokens_eq(c, &circumfix_exec(FileKind::GscList)) {
        Some(FileKind::GscList)
    } else if tokens_eq(c, &circumfix_exec(FileKind::Gc)) {
        Some(FileKind::Gc)
    } else if tokens_eq(c, &circumfix_exec(FileKind::Pc)) {
        Some(FileKind::Pc)
    } else if tokens_eq(c, &circumfix_exec(FileKind::Pc1)) {
        Some(FileKind::Pc1)
    } else if tokens_eq(c, &circumfix_exec(FileKind::Pc2)) {
        Some(FileKind::Pc2)
    } else if tokens_eq(c, &circumfix_exec(FileKind::Pc3)) {
        Some(FileKind::Pc3)
    } else if tokens_eq(c, &circumfix_exec(FileKind::PcList)) {
        Some(FileKind::PcList)
    } else {
        None
    }
}

/// The error for a file whose name is not recognized.
pub fn unrecognized_path(path: &str) -> (r: Error)
    ensures
        r.kind == ErrorKind::Unrecognized,
        r.chain() == seq!["Unrecognized file: '"@ + path@ + "'."@],
{
    let mut message = String::from_str("Unrecognized file: '");
    message.append(path);
    message.append("'.");
    Error::new(ErrorKind::Unrecognized, message)
}

impl FileInfo {
    /// Classifies a file name: its factor tokens give the factors, its other tokens
    /// must form a row of the table of recognized names.
    pub fn from_name(name: &str) -> (r: Result<FileInfo, Error>)
        ensures
            match classify_spec(name@) {
                Some((k, fs)) => r matches Ok(info) && info.kind == k && string_views(
                    info.factors@,
                ) == fs,
                None => r matches Err(e) && e.kind == ErrorKind::Unrecognized && e.chain() == seq![
                    "Unrecognized file: '"@ + name@ + "'."@,
                ],
            },
    {
        let chars = chars_of(name);
        let tokens = split_chars(&chars, '.');
        let prefix = chars_of("Factor");
        let mut factors: Vec<String> = Vec::new();
        let mut circ: Vec<Vec<char>> = Vec::new();
        let ghost ts = views(tokens@);
        let mut i: usize = 0;
        while i < tokens.len()
            invariant
                i <= tokens@.len(),
                ts == views(tokens@),
                prefix@ == factor_prefix(),
                string_views(factors@) == factors_in(ts.take(i as int)),
                views(circ@) == circumfix_in(ts.take(i as int)),
            decreases tokens@.len() - i,
        {
            let t = &tokens[i];
            assert(ts.take(i + 1).drop_last() =~= ts.take(i as int));
            assert(ts.take(i + 1).last() == t@);
            if starts_with_chars(t.as_slice(), prefix.as_slice()) {
                let rest = chars_from(t.as_slice(), prefix.len());
                let ghost before = string_views(factors@);
                factors.push(string_of(rest.as_slice()));
                assert(string_views(factors@) =~= before.push(t@.skip(factor_prefix().len() as int)));
            } else {
                let ghost before = views(circ@);
                circ.push(t.clone());
                assert(views(circ@) =~= before.push(t@));
            }
            i = i + 1;
        }
        assert(ts.take(tokens@.len() as int) =~= ts);
        match kind_for(&circ) {
            Some(kind) => Ok(FileInfo { kind, factors }),
            None => Err(unrecognized_path(name)),
        }
    }

    /// Classifies the last component of a slash-separated path.
    pub fn from_path(path: &str) -> (r: Result<FileInfo, Error>)
        ensures
            match classify_spec(split_seq(path@, '/').last()) {
                Some((k, fs)) => r matches Ok(info) && info.kind == k && string_views(
                    info.factors@,
                ) == fs,
                None => r matches Err(e) && e.kind == ErrorKind::Unrecognized && e.chain() == seq![
                    "Unrecognized file: '"@ + split_seq(path@, '/').last() + "'."@,
                ],
            },
    {
        let chars = chars_of(path);
        let parts = split_chars(&chars, '/');
        proof {
            crate::text::lemma_split_nonempty(path@, '/');
        }
        let last = string_of(parts[parts.len() - 1].as_slice());
        FileInfo::from_name(last.as_str())
    }
}

impl FileKind {
    /// The canonical file name of this kind with the given factors.
    pub fn create_name(&self, factors: &Vec<String>) -> (r: String)
        ensures
            r@ == render_spec(*self, string_views(factors@)),
    {
        let mut tokens = front_exec(*self);
        let prefix = chars_of("Factor");
        let ghost fs = string_views(factors@);
        let ghost front = views(tokens@);
        let mut i: usize = 0;
        while i < factors.len()
            invariant
                i <= factors@.len(),
                fs == string_views(factors@),
                prefix@ == factor_prefix(),
                views(tokens@) == front + fs.take(i as int).map_values(
                    |f: Seq<char>| factor_token(f),
                ),
            decreases factors@.len() - i,
        {
            let mut t = prefix.clone();
            let mut f = chars_of(factors[i].as_str());
            t.append(&mut f);
            let ghost before = views(tokens@);
            tokens.push(t);
            assert(views(tokens@) =~= before.push(t@));
            assert(fs.take(i + 1).map_values(|f: Seq<char>| factor_token(f)) =~= fs.take(
                i as int,
            ).map_values(|f: Seq<char>| factor_token(f)).push(factor_token(fs[i as int])));
            i = i + 1;
        }
        assert(fs.take(factors@.len() as int) =~= fs);
        append_all(&mut tokens, back_exec(*self));
        assert(views(tokens@) =~= name_tokens(*self, fs));
        join_chars(&tokens, '.')
    }

    /// The name shown for this kind.
    pub fn label(&self) -> (r: &'static str)
        ensures
            r@ == kind_label(*self),
    {
        match self {
            FileKind::Gss => "GSS",
            FileKind::Gs => "GS",
            FileKind::F => "F",
            FileKind::GscOut => "GSC out",
            FileKind::GscList => "GSC list",
            FileKind::Gc => "GC",
            FileKind::Pc => "PC",
            FileKind::Pc1 => "PC1",
            FileKind::Pc2 => "PC2",
            FileKind::Pc3 => "PC3",
            FileKind::PcList => "PC list",
        }
    }
}

pub open spec fn kind_label(k: FileKind) -> Seq<char> {
    match k {
        FileKind::Gss => "GSS"@,
        FileKind::Gs => "GS"@,
        FileKind::F => "F"@,
        FileKind::GscOut => "GSC out"@,
        FileKind::GscList => "GSC list"@,
        FileKind::Gc => "GC"@,
        FileKind::Pc => "PC"@,
        FileKind::Pc1 => "PC1"@,
        FileKind::Pc2 => "PC2"@,
        FileKind::Pc3 => "PC3"@,
        FileKind::PcList => "PC list"@,
    }
}

/// The position of a kind in the display order.
pub open spec fn kind_index(k: FileKind) -> nat {
    match k {
        FileKind::Gss => 0,
        FileKind::Gs => 1,
        FileKind::F => 2,
        FileKind::GscOut => 3,
        FileKind::GscList => 4,
        FileKind::Gc => 5,
        FileKind::Pc => 6,
        FileKind::Pc1 => 7,
        FileKind::Pc2 => 8,
        FileKind::Pc3 => 9,
        FileKind::PcList => 10,
    }
}

impl FileKind {
    pub fn index(&self) -> (r: u8)
        ensures
            r as nat == kind_index(*self),
    {
        match self {
            FileKind::Gss => 0,
            FileKind::Gs => 1,
            FileKind::F => 2,
            FileKind::GscOut => 3,
            FileKind::GscList => 4,
            FileKind::Gc => 5,
            FileKind::Pc => 6,
            FileKind::Pc1 => 7,
            FileKind::Pc2 => 8,
            FileKind::Pc3 => 9,
            FileKind::PcList => 10,
        }
    }
}

/// The kinds seen for one factor list, in display order and without repeats.
pub struct FileGroup {
    pub kinds: Vec<FileKind>,
}

pub open spec fn sorted_kinds(ks: Seq<FileKind>) -> bool {
    forall|i: int, j: int| 0 <= i < j < ks.len() ==> kind_index(ks[i]) < kind_index(ks[j])
}

impl FileGroup {
    pub open spec fn wf(&self) -> bool {
        sorted_kinds(self.kinds@)
    }

    pub fn new() -> (r: FileGroup)
        ensures
            r.wf(),
            r.kinds@ == Seq::<FileKind>::empty(),
    {
        FileGroup { kinds: Vec::new() }
    }

    /// Records that a file of `kind` was seen.
    pub fn add(&mut self, kind: FileKind)
        requires
            old(self).wf(),
        ensures
            final(self).wf(),
            forall|k: FileKind| #[trigger]
                final(self).kinds@.contains(k) <==> old(self).kinds@.contains(k) || k == kind,
    {
        let n = kind.index();
        let mut i: usize = 0;
        while i < self.kinds.len() && self.kinds[i].index() < n
            invariant
                i <= self.kinds@.len(),
                self.wf(),
                n as nat == kind_index(kind),
                forall|j: int| 0 <= j < i ==> kind_index(#[trigger] self.kinds@[j]) < n,
            decreases self.kinds@.len() - i,
        {
            i = i + 1;
        }
        if i < self.kinds.len() && self.kinds[i].index() == n {
            proof {
                let k = self.kinds@[i as int];
                assert(kind_index(k) == kind_index(kind));
                assert(k == kind);
            }
            return;
        }
        let ghost old_kinds = self.kinds@;
        proof {
            assert forall|j: int| i <= j < old_kinds.len() implies kind_index(old_kinds[j]) > n by {
                assert(kind_index(old_kinds[i as int]) > n);
                if j > i {
                    assert(kind_index(old_kinds[i as int]) < kind_index(old_kinds[j]));
                }
            }
        }
        self.kinds.insert(i, kind);
        proof {
            assert(self.kinds@ =~= old_kinds.insert(i as int, kind));
            assert forall|a: int, b: int| 0 <= a < b < self.kinds@.len() implies kind_index(
                self.kinds@[a],
            ) < kind_index(self.kinds@[b]) by {
                if b < i {
                    assert(self.kinds@[a] == old_kinds[a]);
                    assert(self.kinds@[b] == old_kinds[b]);
                } else if b == i {
                    assert(self.kinds@[a] == old_kinds[a]);
                } else if a < i {
                    assert(self.kinds@[a] == old_kinds[a]);
                    assert(self.kinds@[b] == old_kinds[b - 1]);
                } else if a == i {
                    assert(self.kinds@[b] == old_kinds[b - 1]);
                } else {
                    assert(self.kinds@[a] == old_kinds[a - 1]);
                    assert(self.kinds@[b] == old_kinds[b - 1]);
                }
            }
            assert forall|k: FileKind| #[trigger]
                self.kinds@.contains(k) <==> old_kinds.contains(k) || k == kind by {
                if self.kinds@.contains(k) {
                    let j = choose|j: int| 0 <= j < self.kinds@.len() && self.kinds@[j] == k;
                    if j < i {
                        assert(old_kinds[j] == k);
                    } else if j > i {
                        assert(old_kinds[j - 1] == k);
                    }
                }
                if old_kinds.contains(k) {
                    let j = choose|j: int| 0 <= j < old_kinds.len() && old_kinds[j] == k;
                    if j < i {
                        assert(self.kinds@[j] == k);
                    } else {
                        assert(self.kinds@[j + 1] == k);
                    }
                }
                if k == kind {
                    assert(self.kinds@[i as int] == k);
                }
            }
        }
    }
}

pub open spec fn group_key(gs: Seq<(Vec<String>, FileGroup)>, i: int) -> Seq<Seq<char>> {
    string_views(gs[i].0@)
}

/// Every group is well formed and no two groups share a factor list.
pub open spec fn groups_wf(gs: Seq<(Vec<String>, FileGroup)>) -> bool {
    &&& forall|i: int| 0 <= i < gs.len() ==> (#[trigger] gs[i]).1.wf()
    &&& forall|i: int, j: int|
        0 <= i < j < gs.len() ==> #[trigger] group_key(gs, i) != #[trigger] group_key(gs, j)
}

/// The labels joined with ", " between consecutive ones.
pub open spec fn label_list(ks: Seq<FileKind>) -> Seq<char>
    decreases ks.len(),
{
    if ks.len() == 0 {
        Seq::<char>::empty()
    } else if ks.len() == 1 {
        kind_label(ks[0])
    } else {
        label_list(ks.drop_last()) + ", "@ + kind_label(ks.last())
    }
}

impl FileGroup {
    /// The group's kinds and how many there are: `GC, PC (2 files)`.
    pub fn summary(&self) -> (r: String)
        ensures
            r@ == label_list(self.kinds@) + " ("@ + digits_of(self.kinds@.len()) + " files)"@,
    {
        let mut r = String::new();
        let mut i: usize = 0;
        while i < self.kinds.len()
            invariant
                i <= self.kinds@.len(),
                r@ == label_list(self.kinds@.take(i as int)),
            decreases self.kinds@.len() - i,
        {
            if i > 0 {
                r.append(", ");
            }
            r.append(self.kinds[i].label());
            proof {
                let next = self.kinds@.take(i + 1);
                assert(next.drop_last() =~= self.kinds@.take(i as int));
                assert(next.last() == self.kinds@[i as int]);
                if i == 0 {
                    assert(r@ =~= kind_label(next[0]));
                }
            }
            i = i + 1;
        }
        assert(self.kinds@.take(self.kinds@.len() as int) =~= self.kinds@);
        r.append(" (");
        let n = digits_text(self.kinds.len() as u64);
        r.append(n.as_str());
        r.append(" files)");
        r
    }
}

/// The files seen so far, grouped by their factor lists in order of first appearance.
pub struct FileInfos {
    pub groups: Vec<(Vec<String>, FileGroup)>,
    pub n_files: usize,
}

impl FileInfos {
    pub open spec fn key(&self, i: int) -> Seq<Seq<char>> {
        group_key(self.groups@, i)
    }

    pub open spec fn wf(&self) -> bool {
        groups_wf(self.groups@)
    }

    pub fn new() -> (r: FileInfos)
        ensures
            r.wf(),
            r.groups@.len() == 0,
            r.n_files == 0,
    {
        FileInfos { groups: Vec::new(), n_files: 0 }
    }

    /// Records a classified file under its factor list.
    pub fn add(&mut self, file_info: FileInfo)
        requires
            old(self).wf(),
            old(self).n_files < usize::MAX,
        ensures
            final(self).wf(),
            final(self).n_files == old(self).n_files + 1,
            ({
                let key = string_views(file_info.factors@);
                if exists|j: int| 0 <= j < old(self).groups@.len() && old(self).key(j) == key {
                    &&& final(self).groups@.len() == old(self).groups@.len()
                    &&& forall|j: int|
                        0 <= j < old(self).groups@.len() ==> final(self).key(j) == old(self).key(j)
                    &&& forall|j: int, k: FileKind|
                        0 <= j < old(self).groups@.len() ==> (
                        #[trigger] final(self).groups@[j].1.kinds@.contains(k) <==> old(
                            self,
                        ).groups@[j].1.kinds@.contains(k) || (old(self).key(j) == key && k
                            == file_info.kind))
                } else {
                    &&& final(self).groups@.len() == old(self).groups@.len() + 1
                    &&& forall|j: int|
                        0 <= j < old(self).groups@.len() ==> final(self).groups@[j] == old(
                            self,
                        ).groups@[j]
                    &&& final(self).key(old(self).groups@.len() as int) == key
                    &&& final(self).groups@.last().1.kinds@ == seq![file_info.kind]
                }
            }),
    {
        let ghost key = string_views(file_info.factors@);
        let kind = file_info.kind;
        let factors = file_info.factors;
        let mut i: usize = 0;
        while i < self.groups.len()
            invariant
                i <= self.groups@.len(),
                forall|j: int| 0 <= j < i ==> self.key(j) != key,
                key == string_views(factors@),
                key == string_views(file_info.factors@),
                kind == file_info.kind,
                *self == *old(self),
                self.n_files < usize::MAX,
                self.wf(),
            decreases self.groups@.len() - i,
        {
            if strings_eq(&self.groups[i].0, &factors) {
                let ghost old_groups = self.groups@;
                let ghost prev = *self;
                let mut entry = self.groups.remove(i);
                entry.1.add(kind);
                self.groups.insert(i, entry);
                self.n_files = self.n_files + 1;
                proof {
                    assert(self.groups@ =~= old_groups.update(i as int, entry));
                    assert forall|a: int| 0 <= a < self.groups@.len() implies #[trigger] self.key(a) == prev.key(a) by {
                        if a != i {
                            assert(self.groups@[a] == old_groups[a]);
                        }
                    }
                    assert forall|j: int| 0 <= j < self.groups@.len() implies (#[trigger] self.groups@[j]).1.wf() by {
                        if j != i {
                            assert(self.groups@[j] == old_groups[j]);
                        }
                    }
                    assert forall|a: int, b: int|
                        0 <= a < b < self.groups@.len() implies #[trigger] group_key(self.groups@, a) != #[trigger] group_key(self.groups@, b) by {
                        assert(prev.key(a) != prev.key(b));
                        assert(self.key(a) == prev.key(a));
                        assert(self.key(b) == prev.key(b));
                    }
                    assert(prev.key(i as int) == key);
                    assert forall|j: int, k: FileKind|
                        0 <= j < prev.groups@.len() implies (
                        #[trigger] self.groups@[j].1.kinds@.contains(k) <==> prev.groups@[j].1.kinds@.contains(k)
                            || (prev.key(j) == key && k == kind)) by {
                        if j != i {
                            assert(self.groups@[j] == old_groups[j]);
                            if j < i {
                                assert(group_key(prev.groups@, j) != group_key(prev.groups@, i as int));
                            } else {
                                assert(group_key(prev.groups@, i as int) != group_key(prev.groups@, j));
                            }
                        }
                    }
                }
                return;
            }
            i = i + 1;
        }
        let mut group = FileGroup::new();
        group.add(kind);
        proof {
            assert(group.kinds@.contains(kind));
            assert(group.kinds@.len() == 1) by {
                if group.kinds@.len() > 1 {
                    assert(group.kinds@.contains(group.kinds@[1]));
                    assert(group.kinds@.contains(group.kinds@[0]));
                }
            }
            assert(group.kinds@ =~= seq![kind]);
        }
        let ghost prev = *self;
        self.groups.push((factors, group));
        proof {
            assert forall|a: int, b: int|
                0 <= a < b < self.groups@.len() implies #[trigger] group_key(self.groups@, a) != #[trigger] group_key(self.groups@, b) by {
                assert(self.groups@[a] == prev.groups@[a]);
                assert(self.key(a) == prev.key(a));
                if b < prev.groups@.len() {
                    assert(self.groups@[b] == prev.groups@[b]);
                    assert(prev.key(a) != prev.key(b));
                } else {
                    assert(prev.key(a) != key);
                }
            }
            assert forall|j: int| 0 <= j < self.groups@.len() implies (#[trigger] self.groups@[j]).1.wf() by {
                if j < prev.groups@.len() {
                    assert(self.groups@[j] == prev.groups@[j]);
                }
            }
        }
        self.n_files = self.n_files + 1;
    }
}

impl FileInfos {
    /// The closing line of a survey: how many files in how many groups.
    pub fn totals(&self) -> (r: String)
        ensures
            r@ == "Identified "@ + digits_of(self.n_files as nat) + " data files in "@ + digits_of(
                self.groups@.len(),
            ) + " groups."@,
    {
        let mut r = String::from_str("Identified ");
        r.append(digits_text(self.n_files as u64).as_str());
        r.append(" data files in ");
        r.append(digits_text(self.groups.len() as u64).as_str());
        r.append(" groups.");
        r
    }
}

/// Whether two lists of strings hold the same strings in the same order.
pub fn strings_eq(a: &Vec<String>, b: &Vec<String>) -> (r: bool)
    ensures
        r == (string_views(a@) == string_views(b@)),
{
    if a.len() != b.len() {
        assert(string_views(a@).len() != string_views(b@).len());
        return false;
    }
    let mut i: usize = 0;
    while i < a.len()
        invariant
            i <= a@.len() == b@.len(),
            forall|j: int| 0 <= j < i ==> a@[j]@ == b@[j]@,
        decreases a@.len() - i,
    {
        if a[i] != b[i] {
            assert(string_views(a@)[i as int] != string_views(b@)[i as int]);
            return false;
        }
        i = i + 1;
    }
    assert(string_views(a@) =~= string_views(b@));
    true
}

/// How many of `names` the classifier recognizes.
pub open spec fn recognized_count(names: Seq<Seq<char>>) -> nat
    decreases names.len(),
{
    if names.len() == 0 {
        0
    } else {
        recognized_count(names.drop_last()) + if classify_spec(names.last()) is Some {
            1nat
        } else {
            0nat
        }
    }
}

/// The names the classifier does not recognize, in order.
pub open spec fn unrecognized(names: Seq<Seq<char>>) -> Seq<Seq<char>>
    decreases names.len(),
{
    if names.len() == 0 {
        Seq::<Seq<char>>::empty()
    } else if classify_spec(names.last()) is None {
        unrecognized(names.drop_last()).push(names.last())
    } else {
        unrecognized(names.drop_last())
    }
}

/// The kind a recognized name is classified as.
pub open spec fn classified_kind(name: Seq<char>) -> FileKind {
    match classify_spec(name) {
        Some((k, _)) => k,
        None => FileKind::Gss,
    }
}

/// The factors of a recognized name.
pub open spec fn classified_factors(name: Seq<char>) -> Seq<Seq<char>> {
    match classify_spec(name) {
        Some((_, fs)) => fs,
        None => Seq::<Seq<char>>::empty(),
    }
}

/// Every kind of every group was classified, with that group's factors, from one of the
/// first `n` names.
#[verifier::opaque]
pub open spec fn groups_from(infos: FileInfos, names: Seq<Seq<char>>, n: int) -> bool {
    forall|j: int, k: FileKind|
        0 <= j < infos.groups@.len() && #[trigger] infos.groups@[j].1.kinds@.contains(k) ==> exists|
            t: int,
        |
            0 <= t < n && #[trigger] classify_spec(names[t]) == Some((k, infos.key(j)))
}

/// Every name among the first `n` that the classifier recognizes has its kind in the group of
/// its factors.
#[verifier::opaque]
pub open spec fn names_grouped(infos: FileInfos, names: Seq<Seq<char>>, n: int) -> bool {
    forall|t: int|
        0 <= t < n && (#[trigger] classify_spec(names[t])) is Some ==> exists|j: int|
            0 <= j < infos.groups@.len() && infos.key(j) == classified_factors(names[t])
                && #[trigger] infos.groups@[j].1.kinds@.contains(classified_kind(names[t]))
}

/// No group is empty.
#[verifier::opaque]
pub open spec fn groups_nonempty(infos: FileInfos) -> bool {
    forall|j: int| 0 <= j < infos.groups@.len() ==> (#[trigger] infos.groups@[j]).1.kinds@.len() > 0
}

/// Some name before position `t` is recognized with factors `key`.
pub open spec fn seen_before(names: Seq<Seq<char>>, key: Seq<Seq<char>>, t: int) -> bool {
    exists|t1: int|
        0 <= t1 < t && (#[trigger] classify_spec(names[t1])) is Some && classified_factors(
            names[t1],
        ) == key
}

/// The groups stand in order of first appearance among the first `n` names: a name with the
/// factors of a group comes after some name with the factors of each earlier group.
#[verifier::opaque]
pub open spec fn groups_ordered(infos: FileInfos, names: Seq<Seq<char>>, n: int) -> bool {
    forall|j1: int, j2: int, t2: int|
        #![trigger classify_spec(names[t2]), infos.key(j1), infos.key(j2)]
        0 <= j1 < j2 < infos.groups@.len() && 0 <= t2 < n && classify_spec(names[t2]) is Some
            && classified_factors(names[t2]) == infos.key(j2) ==> seen_before(
            names,
            infos.key(j1),
            t2,
        )
}

/// A group that is not empty has its factors from some name among the first `n`.
proof fn lemma_group_witness(infos: FileInfos, names: Seq<Seq<char>>, n: int, j: int) -> (t: int)
    requires
        0 <= j < infos.groups@.len(),
        groups_nonempty(infos),
        groups_from(infos, names, n),
    ensures
        0 <= t < n,
        classify_spec(names[t]) is Some,
        classified_factors(names[t]) == infos.key(j),
{
    reveal(groups_nonempty);
    reveal(groups_from);
    let k = infos.groups@[j].1.kinds@[0];
    assert(infos.groups@[j].1.kinds@.contains(k));
    choose|t: int| 0 <= t < n && #[trigger] classify_spec(names[t]) == Some((k, infos.key(j)))
}

#[verifier::rlimit(50)]
proof fn lemma_survey_order(
    before: FileInfos,
    after: FileInfos,
    all: Seq<Seq<char>>,
    i: int,
    kind: FileKind,
    key: Seq<Seq<char>>,
)
    requires
        0 <= i < all.len(),
        classify_spec(all[i]) == Some((kind, key)),
        groups_from(before, all, i),
        names_grouped(before, all, i),
        groups_nonempty(before),
        groups_ordered(before, all, i),
        groups_from(after, all, i + 1),
        if exists|j: int| 0 <= j < before.groups@.len() && before.key(j) == key {
            &&& after.groups@.len() == before.groups@.len()
            &&& forall|j: int| 0 <= j < before.groups@.len() ==> after.key(j) == before.key(j)
            &&& forall|j: int, k: FileKind|
                0 <= j < before.groups@.len() ==> (#[trigger] after.groups@[j].1.kinds@.contains(k)
                    <==> before.groups@[j].1.kinds@.contains(k) || (before.key(j) == key && k
                    == kind))
        } else {
            &&& after.groups@.len() == before.groups@.len() + 1
            &&& forall|j: int|
                0 <= j < before.groups@.len() ==> after.groups@[j] == before.groups@[j]
            &&& after.key(before.groups@.len() as int) == key
            &&& after.groups@.last().1.kinds@ == seq![kind]
        },
    ensures
        groups_nonempty(after),
        groups_ordered(after, all, i + 1),
{
    reveal(groups_nonempty);
    reveal(groups_ordered);
    reveal(names_grouped);
    let found = exists|j: int| 0 <= j < before.groups@.len() && before.key(j) == key;
    let n = before.groups@.len() as int;
    assert forall|j: int| 0 <= j < after.groups@.len() implies (
    #[trigger] after.groups@[j]).1.kinds@.len() > 0 by {
        if j < n {
            let k = before.groups@[j].1.kinds@[0];
            assert(before.groups@[j].1.kinds@.contains(k));
            if found {
                assert(after.groups@[j].1.kinds@.contains(k));
            } else {
                assert(after.groups@[j] == before.groups@[j]);
            }
        } else {
            assert(after.groups@[j].1.kinds@ == seq![kind]);
        }
    }
    assert forall|j1: int, j2: int, t2: int|
        #![trigger classify_spec(all[t2]), after.key(j1), after.key(j2)]
        0 <= j1 < j2 < after.groups@.len() && 0 <= t2 < i + 1 && classify_spec(all[t2]) is Some
            && classified_factors(all[t2]) == after.key(j2) implies seen_before(
        all,
        after.key(j1),
        t2,
    ) by {
        assert(after.key(j1) == before.key(j1)) by {
            if !found {
                assert(after.groups@[j1] == before.groups@[j1]);
            }
        }
        if j2 < n {
            assert(after.key(j2) == before.key(j2)) by {
                if !found {
                    assert(after.groups@[j2] == before.groups@[j2]);
                }
            }
            if t2 == i {
                let t1 = lemma_group_witness(before, all, i, j1);
                assert(classify_spec(all[t1]) is Some);
            }
        } else {
            assert(!found);
            if t2 < i {
                let j = choose|j: int|
                    0 <= j < before.groups@.len() && before.key(j) == classified_factors(all[t2])
                        && #[trigger] before.groups@[j].1.kinds@.contains(classified_kind(all[t2]));
                assert(before.key(j) == key);
                assert(false);
            }
            let t1 = lemma_group_witness(before, all, i, j1);
            assert(classify_spec(all[t1]) is Some);
        }
    }
}

proof fn lemma_survey_skip(infos: FileInfos, all: Seq<Seq<char>>, i: int)
    requires
        0 <= i < all.len(),
        classify_spec(all[i]) is None,
        groups_from(infos, all, i),
        names_grouped(infos, all, i),
        groups_ordered(infos, all, i),
    ensures
        groups_from(infos, all, i + 1),
        names_grouped(infos, all, i + 1),
        groups_ordered(infos, all, i + 1),
{
    lemma_skip_from(infos, all, i);
    lemma_skip_grouped(infos, all, i);
    lemma_skip_ordered(infos, all, i);
}

proof fn lemma_skip_from(infos: FileInfos, all: Seq<Seq<char>>, i: int)
    requires
        0 <= i < all.len(),
        groups_from(infos, all, i),
    ensures
        groups_from(infos, all, i + 1),
{
    reveal(groups_from);
    assert forall|j: int, k: FileKind|
        0 <= j < infos.groups@.len() && #[trigger] infos.groups@[j].1.kinds@.contains(k)
        implies exists|t: int|
        0 <= t < i + 1 && #[trigger] classify_spec(all[t]) == Some((k, infos.key(j))) by {
        let t = choose|t: int|
            0 <= t < i && #[trigger] classify_spec(all[t]) == Some((k, infos.key(j)));
    }
}

proof fn lemma_skip_grouped(infos: FileInfos, all: Seq<Seq<char>>, i: int)
    requires
        0 <= i < all.len(),
        classify_spec(all[i]) is None,
        names_grouped(infos, all, i),
    ensures
        names_grouped(infos, all, i + 1),
{
    reveal(names_grouped);
    assert forall|t: int|
        0 <= t < i + 1 && (#[trigger] classify_spec(all[t])) is Some implies exists|j: int|
        0 <= j < infos.groups@.len() && infos.key(j) == classified_factors(all[t])
            && #[trigger] infos.groups@[j].1.kinds@.contains(classified_kind(all[t])) by {
        assert(t < i);
    }
}

proof fn lemma_skip_ordered(infos: FileInfos, all: Seq<Seq<char>>, i: int)
    requires
        0 <= i < all.len(),
        classify_spec(all[i]) is None,
        groups_ordered(infos, all, i),
    ensures
        groups_ordered(infos, all, i + 1),
{
    reveal(groups_ordered);
    assert forall|j1: int, j2: int, t2: int|
        #![trigger classify_spec(all[t2]), infos.key(j1), infos.key(j2)]
        0 <= j1 < j2 < infos.groups@.len() && 0 <= t2 < i + 1 && classify_spec(all[t2]) is Some
            && classified_factors(all[t2]) == infos.key(j2) implies seen_before(
        all,
        infos.key(j1),
        t2,
    ) by {
        assert(t2 < i);
    }
}

#[verifier::rlimit(50)]
proof fn lemma_survey_add(
    before: FileInfos,
    after: FileInfos,
    all: Seq<Seq<char>>,
    i: int,
    kind: FileKind,
    key: Seq<Seq<char>>,
)
    requires
        0 <= i < all.len(),
        classify_spec(all[i]) == Some((kind, key)),
        groups_from(before, all, i),
        names_grouped(before, all, i),
        if exists|j: int| 0 <= j < before.groups@.len() && before.key(j) == key {
            &&& after.groups@.len() == before.groups@.len()
            &&& forall|j: int| 0 <= j < before.groups@.len() ==> after.key(j) == before.key(j)
            &&& forall|j: int, k: FileKind|
                0 <= j < before.groups@.len() ==> (#[trigger] after.groups@[j].1.kinds@.contains(k)
                    <==> before.groups@[j].1.kinds@.contains(k) || (before.key(j) == key && k
                    == kind))
        } else {
            &&& after.groups@.len() == before.groups@.len() + 1
            &&& forall|j: int|
                0 <= j < before.groups@.len() ==> after.groups@[j] == before.groups@[j]
            &&& after.key(before.groups@.len() as int) == key
            &&& after.groups@.last().1.kinds@ == seq![kind]
        },
    ensures
        groups_from(after, all, i + 1),
        names_grouped(after, all, i + 1),
{
    reveal(groups_from);
    reveal(names_grouped);
    let found = exists|j: int| 0 <= j < before.groups@.len() && before.key(j) == key;
    let n = before.groups@.len() as int;
    assert forall|j: int, k: FileKind|
        0 <= j < after.groups@.len() && #[trigger] after.groups@[j].1.kinds@.contains(k)
        implies exists|t: int|
        0 <= t < i + 1 && #[trigger] classify_spec(all[t]) == Some((k, after.key(j))) by {
        if j < n && before.groups@[j].1.kinds@.contains(k) {
            let t = choose|t: int|
                0 <= t < i && #[trigger] classify_spec(all[t]) == Some((k, before.key(j)));
            if !found {
                assert(after.groups@[j] == before.groups@[j]);
            }
            assert(after.key(j) == before.key(j));
            assert(classify_spec(all[t]) == Some((k, after.key(j))));
        } else {
            if !found && j == n {
                assert(after.groups@[j].1.kinds@ == seq![kind]);
                assert(k == kind);
            } else if !found {
                assert(after.groups@[j] == before.groups@[j]);
            }
            assert(classify_spec(all[i]) == Some((k, after.key(j))));
        }
    }
    assert forall|t: int|
        0 <= t < i + 1 && (#[trigger] classify_spec(all[t])) is Some implies exists|j: int|
        0 <= j < after.groups@.len() && after.key(j) == classified_factors(all[t])
            && #[trigger] after.groups@[j].1.kinds@.contains(classified_kind(all[t])) by {
        if t < i {
            let j = choose|j: int|
                0 <= j < before.groups@.len() && before.key(j) == classified_factors(all[t])
                    && #[trigger] before.groups@[j].1.kinds@.contains(classified_kind(all[t]));
            if found {
                assert(after.key(j) == before.key(j));
                assert(after.groups@[j].1.kinds@.contains(classified_kind(all[t])));
            } else {
                assert(after.groups@[j] == before.groups@[j]);
            }
        } else {
            assert(classified_kind(all[t]) == kind && classified_factors(all[t]) == key);
            if found {
                let j = choose|j: int| 0 <= j < before.groups@.len() && before.key(j) == key;
                assert(after.key(j) == before.key(j));
                assert(after.groups@[j].1.kinds@.contains(kind));
            } else {
                assert(after.groups@[n].1.kinds@ == seq![kind]);
                assert(after.groups@[n].1.kinds@[0] == kind);
                assert(after.groups@[n].1.kinds@.contains(kind));
            }
        }
    }
}

/// Groups the recognized names by their factor lists, in order of first appearance, and
/// returns the names it does not recognize, which are skipped rather than failing the survey.
pub fn survey_names(names: &Vec<String>) -> (r: (FileInfos, Vec<String>))
    requires
        names@.len() < usize::MAX,
    ensures
        r.0.wf(),
        r.0.n_files == recognized_count(string_views(names@)),
        string_views(r.1@) == unrecognized(string_views(names@)),
        groups_from(r.0, string_views(names@), names@.len() as int),
        names_grouped(r.0, string_views(names@), names@.len() as int),
        groups_nonempty(r.0),
        groups_ordered(r.0, string_views(names@), names@.len() as int),
{
    let mut infos = FileInfos::new();
    let mut skipped: Vec<String> = Vec::new();
    let ghost all = string_views(names@);
    proof {
        reveal(groups_from);
        reveal(names_grouped);
        reveal(groups_nonempty);
        reveal(groups_ordered);
    }
    let mut i: usize = 0;
    while i < names.len()
        invariant
            i <= names@.len() < usize::MAX,
            all == string_views(names@),
            infos.wf(),
            infos.n_files == recognized_count(all.take(i as int)),
            recognized_count(all.take(i as int)) <= i,
            string_views(skipped@) == unrecognized(all.take(i as int)),
            groups_from(infos, all, i as int),
            names_grouped(infos, all, i as int),
            groups_nonempty(infos),
            groups_ordered(infos, all, i as int),
        decreases names@.len() - i,
    {
        assert(all.take(i + 1).drop_last() =~= all.take(i as int));
        assert(all.take(i + 1).last() == names@[i as int]@);
        assert(all[i as int] == names@[i as int]@);
        let ghost before = infos;
        match FileInfo::from_name(names[i].as_str()) {
            Ok(info) => {
                let ghost key = string_views(info.factors@);
                let ghost kind = info.kind;
                infos.add(info);
                proof {
                    lemma_survey_add(before, infos, all, i as int, kind, key);
                    lemma_survey_order(before, infos, all, i as int, kind, key);
                }
            },
            Err(_) => {
                let ghost sk = string_views(skipped@);
                skipped.push(names[i].clone());
                assert(string_views(skipped@) =~= sk.push(all[i as int]));
                proof {
                    lemma_survey_skip(infos, all, i as int);
                }
            },
        }
        i = i + 1;
    }
    assert(all.take(names@.len() as int) =~= all);
    (infos, skipped)
}

} // verus!
