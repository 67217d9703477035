//! Phenotype-to-gene-set and gene-to-gene-set tables, keyed by phenotype gene sets.
use vstd::prelude::*;

use crate::number::{number_text_spec, Number};
use crate::pigean::{above, is_above, last_three_parts, last_three_spec, min_weight, one_hundredth};
use crate::record::{Layout, Record};
use crate::table::{csv_record, row_line};
use crate::text::string_views;

verus! {

/// A gene set as found in one phenotype's results.
pub struct PhenoGeneSet {
    pub pheno: String,
    pub gene_set: String,
}

impl PhenoGeneSet {
    pub fn new(pheno: String, gene_set: String) -> (r: PhenoGeneSet)
        ensures
            r.pheno == pheno,
            r.gene_set == gene_set,
    {
        PhenoGeneSet { pheno, gene_set }
    }

    /// The name in the tables: `<gene_set>:<pheno>`.
    pub fn to_text(&self) -> (r: String)
        ensures
            r@ == self.gene_set@ + ":"@ + self.pheno@,
    {
        let mut r = self.gene_set.clone();
        r.append(":");
        r.append(self.pheno.as_str());
        r
    }
}

/// The result files this table set reads.
#[derive(Clone, Copy, Debug, PartialEq, Eq, Structural)]
pub enum FileKind {
    PhenoGeneSet,
    GeneGeneSet,
}

/// A result file: its full path, its phenotype and its kind.
pub struct FileInfo {
    pub path: String,
    pub pheno: String,
    pub kind: FileKind,
}

pub open spec fn kind_of_local(local: Seq<char>) -> Option<FileKind> {
    if local == "gss.out"@ {
        Some(FileKind::PhenoGeneSet)
    } else if local == "ggss.out"@ {
        Some(FileKind::GeneGeneSet)
    } else {
        None
    }
}

/// A path `.../<pheno>/<sub_dir>/<name>` whose name is a known result file.
pub fn classify_file(file: &str, sub_dir: &str) -> (r: Option<FileInfo>)
    ensures
        match last_three_spec(file@) {
            Some((pheno, sub, local)) => if sub == sub_dir@ && kind_of_local(local) is Some {
                r matches Some(info) && info.path@ == file@ && info.pheno@ == pheno && Some(
                    info.kind,
                ) == kind_of_local(local)
            } else {
                r is None
            },
            None => r is None,
        },
{
    match last_three_parts(file) {
        None => None,
        Some((pheno, sub, local)) => {
            if sub != sub_dir.to_owned() {
                return None;
            }
            let kind = if local == "gss.out".to_owned() {
                FileKind::PhenoGeneSet
            } else if local == "ggss.out".to_owned() {
                FileKind::GeneGeneSet
            } else {
                return None;
            };
            Some(FileInfo { path: file.to_owned(), pheno, kind })
        },
    }
}

/// The columns of a gene-to-gene-set file: gene and gene set required, and the effect.
pub fn gene_pgs_layout() -> (r: Layout)
    ensures
        string_views(r.required@) == seq!["Gene"@, "gene_set"@],
        string_views(r.numeric@) == seq!["beta"@],
{
    let r = crate::pigean::layout_of(vec!["Gene", "gene_set"], vec!["beta"]);
    assert(string_views(r.required@) =~= seq!["Gene"@, "gene_set"@]);
    assert(string_views(r.numeric@) =~= seq!["beta"@]);
    r
}

/// The columns of a phenotype-to-gene-set file: gene set and label required, and two effects.
pub fn pheno_pgs_layout() -> (r: Layout)
    ensures
        string_views(r.required@) == seq!["Gene_Set"@, "label"@],
        string_views(r.numeric@) == seq!["beta_uncorrected"@, "beta"@],
{
    let r = crate::pigean::layout_of(vec!["Gene_Set", "label"], vec!["beta_uncorrected", "beta"]);
    assert(string_views(r.required@) =~= seq!["Gene_Set"@, "label"@]);
    assert(string_views(r.numeric@) =~= seq!["beta_uncorrected"@, "beta"@]);
    r
}

/// The trait-gene-set line of a phenotype gene set row, kept when its effect is above one
/// hundredth: the phenotype, the gene set named `<gene_set>:<pheno>`, its source label and
/// both effects.
pub fn pheno_pgs_line(pheno: &str, r: &Record) -> (l: Option<String>)
    requires
        r.texts@.len() == 2,
        r.numbers@.len() == 2,
    ensures
        l is Some <==> above(r.numbers@[1], one_hundredth()),
        l matches Some(x) ==> x@ == csv_record(
            seq![pheno@, r.texts@[0]@ + ":"@ + pheno@, r.texts@[1]@] + r.numbers@.map_values(
                |n: Number| number_text_spec(n),
            ),
        ),
{
    if is_above(r.numbers[1], min_weight()) {
        let set = PhenoGeneSet::new(pheno.to_owned(), r.texts[0].clone()).to_text();
        let texts = vec![pheno, set.as_str(), r.texts[1].as_str()];
        assert(texts@.map_values(|s: &str| s@) =~= seq![
            pheno@,
            r.texts@[0]@ + ":"@ + pheno@,
            r.texts@[1]@,
        ]);
        Some(row_line(&texts, &r.numbers))
    } else {
        None
    }
}

/// The gene-gene-set line of a gene row, kept when its effect is above one hundredth.
pub fn gene_pgs_line(pheno: &str, r: &Record) -> (l: Option<String>)
    requires
        r.texts@.len() == 2,
        r.numbers@.len() == 1,
    ensures
        l is Some <==> above(r.numbers@[0], one_hundredth()),
        l matches Some(x) ==> x@ == csv_record(
            seq![r.texts@[0]@, r.texts@[1]@ + ":"@ + pheno@] + r.numbers@.map_values(
                |n: Number| number_text_spec(n),
            ),
        ),
{
    if is_above(r.numbers[0], min_weight()) {
        let set = PhenoGeneSet::new(pheno.to_owned(), r.texts[1].clone()).to_text();
        let texts = vec![r.texts[0].as_str(), set.as_str()];
        assert(texts@.map_values(|s: &str| s@) =~= seq![
            r.texts@[0]@,
            r.texts@[1]@ + ":"@ + pheno@,
        ]);
        Some(row_line(&texts, &r.numbers))
    } else {
        None
    }
}

} // verus!
