//! Phenotype-to-gene and phenotype-to-gene-set tables.
use vstd::prelude::*;

use crate::number::{number_text_spec, Decimal, Number};
use crate::pigean::{above, is_above, last_three_parts, last_three_spec, min_weight, one, one_hundredth};
use crate::record::{Layout, Record};
use crate::table::{csv_record, row_line};
use crate::text::string_views;

verus! {

/// The result files of a phenotype that this table set reads or skips.
#[derive(Clone, Copy, Debug, PartialEq, Eq, Structural)]
pub enum FileKind {
    Ggss,
    Gss,
    Gs,
    Ge,
}

/// A result file: its full path, its phenotype and its kind.
pub struct FileInfo {
    pub name: String,
    pub pheno: String,
    pub kind: FileKind,
}

pub open spec fn kind_of_local(local: Seq<char>) -> Option<FileKind> {
    if local == "ggss.out"@ {
        Some(FileKind::Ggss)
    } else if local == "gss.out"@ {
        Some(FileKind::Gss)
    } else if local == "gs.out"@ {
        Some(FileKind::Gs)
    } else if local == "ge.out"@ {
        Some(FileKind::Ge)
    } else {
        None
    }
}

/// A path `.../<pheno>/<sub_dir>/<name>` whose name is a known result file.
pub fn classify_file(file: &str, sub_dir: &str) -> (r: Option<FileInfo>)
    ensures
        match last_three_spec(file@) {
            Some((pheno, sub, local)) => if sub == sub_dir@ && kind_of_local(local) is Some {
                r matches Some(info) && info.name@ == file@ && info.pheno@ == pheno && Some(
                    info.kind,
                ) == kind_of_local(local)
            } else {
                r is None
            },
            None => r is None,
        },
{
    match last_three_parts(file) {
        None => None,
        Some((pheno, sub, local)) => {
            if sub != sub_dir.to_owned() {
                return None;
            }
            let kind = if local == "ggss.out".to_owned() {
                FileKind::Ggss
            } else if local == "gss.out".to_owned() {
                FileKind::Gss
            } else if local == "gs.out".to_owned() {
                FileKind::Gs
            } else if local == "ge.out".to_owned() {
                FileKind::Ge
            } else {
                return None;
            };
            Some(FileInfo { name: file.to_owned(), pheno, kind })
        },
    }
}

/// The columns of a phenotype's gene results: the gene, and three scores.
pub fn pheno_gene_layout() -> (r: Layout)
    ensures
        string_views(r.required@) == seq!["Gene"@],
        string_views(r.numeric@) == seq!["combined"@, "log_bf"@, "prior"@],
{
    let r = crate::pigean::layout_of(vec!["Gene"], vec!["combined", "log_bf", "prior"]);
    assert(string_views(r.required@) =~= seq!["Gene"@]);
    assert(string_views(r.numeric@) =~= seq!["combined"@, "log_bf"@, "prior"@]);
    r
}

/// The columns of a phenotype's gene-set results: the gene set, and two effects.
pub fn pheno_geneset_layout() -> (r: Layout)
    ensures
        string_views(r.required@) == seq!["Gene_Set"@],
        string_views(r.numeric@) == seq!["beta_uncorrected"@, "beta"@],
{
    let r = crate::pigean::layout_of(vec!["Gene_Set"], vec!["beta_uncorrected", "beta"]);
    assert(string_views(r.required@) =~= seq!["Gene_Set"@]);
    assert(string_views(r.numeric@) =~= seq!["beta_uncorrected"@, "beta"@]);
    r
}

/// The phenotype-gene line of a gene result row, kept when its combined score is above one.
pub fn pheno_gene_line(pheno: &str, r: &Record) -> (l: Option<String>)
    requires
        r.texts@.len() == 1,
        r.numbers@.len() == 3,
    ensures
        l is Some <==> above(r.numbers@[0], one()),
        l matches Some(x) ==> x@ == csv_record(
            seq![pheno@, r.texts@[0]@] + r.numbers@.map_values(|n: Number| number_text_spec(n)),
        ),
{
    if is_above(r.numbers[0], Decimal { negative: false, mantissa: 1, exponent: 0 }) {
        let texts = vec![pheno, r.texts[0].as_str()];
        assert(texts@.map_values(|s: &str| s@) =~= seq![pheno@, r.texts@[0]@]);
        Some(row_line(&texts, &r.numbers))
    } else {
        None
    }
}

/// The phenotype-gene-set line of a gene set result row, kept when its uncorrected effect
/// is above one hundredth.
pub fn pheno_geneset_line(pheno: &str, r: &Record) -> (l: Option<String>)
    requires
        r.texts@.len() == 1,
        r.numbers@.len() == 2,
    ensures
        l is Some <==> above(r.numbers@[0], one_hundredth()),
        l matches Some(x) ==> x@ == csv_record(
            seq![pheno@, r.texts@[0]@] + r.numbers@.map_values(|n: Number| number_text_spec(n)),
        ),
{
    if is_above(r.numbers[0], min_weight()) {
        let texts = vec![pheno, r.texts[0].as_str()];
        assert(texts@.map_values(|s: &str| s@) =~= seq![pheno@, r.texts@[0]@]);
        Some(row_line(&texts, &r.numbers))
    } else {
        None
    }
}

} // verus!
