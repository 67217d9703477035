//! Factor-to-gene, factor-to-gene-set and factor label tables.
use vstd::prelude::*;

use crate::number::{number_text_spec, Number};
use crate::pigean::{above, is_above, last_three_parts, last_three_spec, min_weight, one_hundredth};
use crate::record::{Layout, Record};
use crate::table::{csv_record, row_line};
use crate::text::string_views;
use crate::upload::{EntityRow, EntityUploadEaterMaker};

verus! {

/// A factor of one phenotype's results.
pub struct Factor {
    pub prefix: String,
    pub pheno: String,
}

impl Factor {
    pub fn new(prefix: String, pheno: String) -> (r: Factor)
        ensures
            r.prefix == prefix,
            r.pheno == pheno,
    {
        Factor { prefix, pheno }
    }

    /// The factor's name in the tables: `<prefix>_<pheno>`.
    pub fn to_text(&self) -> (r: String)
        ensures
            r@ == self.prefix@ + "_"@ + self.pheno@,
    {
        let mut r = self.prefix.clone();
        r.append("_");
        r.append(self.pheno.as_str());
        r
    }
}

/// The factor results files this table set reads.
#[derive(Clone, Copy, Debug, PartialEq, Eq, Structural)]
pub enum FactorFileKind {
    Genes,
    GeneSets,
    Labels,
}

/// A result file: its full path, its phenotype and its kind.
pub struct FileInfo {
    pub path: String,
    pub pheno: String,
    pub kind: FactorFileKind,
}

pub open spec fn kind_of_local(local: Seq<char>) -> Option<FactorFileKind> {
    if local == "gc.out"@ {
        Some(FactorFileKind::Genes)
    } else if local == "gsac.out"@ {
        Some(FactorFileKind::GeneSets)
    } else if local == "f.out"@ {
        Some(FactorFileKind::Labels)
    } else {
        None
    }
}

/// A path `.../<pheno>/<sub_dir>/<name>` whose name is a known factor results file.
pub fn classify_file(file: &str, sub_dir: &str) -> (r: Option<FileInfo>)
    ensures
        match last_three_spec(file@) {
            Some((pheno, sub, local)) => if sub == sub_dir@ && kind_of_local(local) is Some {
                r matches Some(info) && info.path@ == file@ && info.pheno@ == pheno && Some(
                    info.kind,
                ) == kind_of_local(local)
            } else {
                r is None
            },
            None => r is None,
        },
{
    match last_three_parts(file) {
        None => None,
        Some((pheno, sub, local)) => {
            if sub != sub_dir.to_owned() {
                return None;
            }
            let kind = if local == "gc.out".to_owned() {
                FactorFileKind::Genes
            } else if local == "gsac.out".to_owned() {
                FactorFileKind::GeneSets
            } else if local == "f.out".to_owned() {
                FactorFileKind::Labels
            } else {
                return None;
            };
            Some(FileInfo { path: file.to_owned(), pheno, kind })
        },
    }
}

/// The columns of a factor label file: the factor and its label, both required.
pub fn factor_labels_layout() -> (r: Layout)
    ensures
        string_views(r.required@) == seq!["Factor"@, "label"@],
        string_views(r.numeric@) == Seq::<Seq<char>>::empty(),
{
    let r = crate::pigean::layout_of(vec!["Factor", "label"], Vec::new());
    assert(string_views(r.required@) =~= seq!["Factor"@, "label"@]);
    assert(string_views(r.numeric@) =~= Seq::<Seq<char>>::empty());
    r
}

/// Builders for the rows of a weight file of genes or of gene sets: the entity column, and
/// one weight per factor column.
pub fn weights_maker(kind: FactorFileKind) -> (r: EntityUploadEaterMaker)
    ensures
        kind == FactorFileKind::Genes ==> r.entity_class@ == "Gene"@,
        kind != FactorFileKind::Genes ==> r.entity_class@ == "Gene_Set"@,
{
    match kind {
        FactorFileKind::Genes => EntityUploadEaterMaker::new(String::from_str("Gene")),
        _ => EntityUploadEaterMaker::new(String::from_str("Gene_Set")),
    }
}

/// The table name of the factor whose weight column was `Factor<subkey>`, in `pheno`'s results.
pub fn factor_column_name(subkey: &str, pheno: &str) -> (r: String)
    ensures
        r@ == "Factor"@ + subkey@ + "_"@ + pheno@,
{
    let mut r = String::from_str("Factor");
    r.append(subkey);
    r.append("_");
    r.append(pheno);
    r
}

/// The factor label line of a label row: the factor named `<prefix>_<pheno>` and its label.
pub fn factor_label_line(pheno: &str, r: &Record) -> (l: String)
    requires
        r.texts@.len() == 2,
    ensures
        l@ == csv_record(seq![r.texts@[0]@ + "_"@ + pheno@, r.texts@[1]@]),
{
    let factor = Factor::new(r.texts[0].clone(), pheno.to_owned()).to_text();
    let texts = vec![factor.as_str(), r.texts[1].as_str()];
    let numbers: Vec<Number> = Vec::new();
    assert(texts@.map_values(|s: &str| s@) + numbers@.map_values(|n: Number| number_text_spec(n))
        =~= seq![r.texts@[0]@ + "_"@ + pheno@, r.texts@[1]@]);
    row_line(&texts, &numbers)
}

/// The lines of a weight row: one per factor weight above one hundredth, in column order,
/// each naming the factor `Factor<subkey>_<pheno>`, the entity and the weight.
pub open spec fn weight_lines(
    pheno: Seq<char>,
    entity: Seq<char>,
    subkeys: Seq<Seq<char>>,
    weights: Seq<Number>,
) -> Seq<Seq<char>>
    decreases weights.len(),
{
    if weights.len() == 0 || subkeys.len() == 0 {
        Seq::<Seq<char>>::empty()
    } else {
        let prev = weight_lines(pheno, entity, subkeys.drop_last(), weights.drop_last());
        if above(weights.last(), one_hundredth()) {
            prev.push(
                csv_record(
                    seq![
                        "Factor"@ + subkeys.last() + "_"@ + pheno,
                        entity,
                        number_text_spec(weights.last()),
                    ],
                ),
            )
        } else {
            prev
        }
    }
}

pub fn factor_weight_lines(pheno: &str, row: &EntityRow) -> (r: Vec<String>)
    requires
        row.subkeys@.len() == row.weights@.len(),
    ensures
        string_views(r@) == weight_lines(
            pheno@,
            row.entity@,
            string_views(row.subkeys@),
            row.weights@,
        ),
{
    let mut out: Vec<String> = Vec::new();
    let ghost subs = string_views(row.subkeys@);
    let mut i: usize = 0;
    while i < row.weights.len()
        invariant
            i <= row.weights@.len() == row.subkeys@.len(),
            subs == string_views(row.subkeys@),
            string_views(out@) == weight_lines(
                pheno@,
                row.entity@,
                subs.take(i as int),
                row.weights@.take(i as int),
            ),
        decreases row.weights@.len() - i,
    {
        assert(subs.take(i + 1).drop_last() =~= subs.take(i as int));
        assert(row.weights@.take(i + 1).drop_last() =~= row.weights@.take(i as int));
        assert(subs.take(i + 1).last() == row.subkeys@[i as int]@);
        assert(row.weights@.take(i + 1).last() == row.weights@[i as int]);
        if is_above(row.weights[i], min_weight()) {
            let factor = factor_column_name(row.subkeys[i].as_str(), pheno);
            let texts = vec![factor.as_str(), row.entity.as_str()];
            let numbers = vec![row.weights[i]];
            let line = row_line(&texts, &numbers);
            assert(texts@.map_values(|s: &str| s@) + numbers@.map_values(
                |n: Number| number_text_spec(n),
            ) =~= seq![
                "Factor"@ + row.subkeys@[i as int]@ + "_"@ + pheno@,
                row.entity@,
                number_text_spec(row.weights@[i as int]),
            ]);
            let ghost before = string_views(out@);
            out.push(line);
            assert(string_views(out@) =~= before.push(line@));
        }
        i = i + 1;
    }
    assert(subs.take(row.weights@.len() as int) =~= subs);
    assert(row.weights@.take(row.weights@.len() as int) =~= row.weights@);
    out
}

} // verus!
