//! Bulk-load tables for PIGEAN results: which result files to read, the columns each one
//! gives, which rows are kept, and the composite names the tables use.
use vstd::prelude::*;

use crate::number::{dec_lt, Decimal, Number};
use crate::record::Layout;
use crate::table::{csv_record, header_line};
use crate::text::{split_seq, split_str, string_views};

pub mod factors;
pub mod pgs;
pub mod phenos;

verus! {

/// The last three '/'-separated parts of a path with at least three separators.
pub open spec fn last_three_spec(s: Seq<char>) -> Option<(Seq<char>, Seq<char>, Seq<char>)> {
    let parts = split_seq(s, '/');
    let n = parts.len();
    if n >= 4 {
        Some((parts[n - 3], parts[n - 2], parts[n - 1]))
    } else {
        None
    }
}

pub fn last_three_parts(s: &str) -> (r: Option<(String, String, String)>)
    ensures
        match last_three_spec(s@) {
            Some((a, b, c)) => r matches Some((x, y, z)) && x@ == a && y@ == b && z@ == c,
            None => r is None,
        },
{
    let mut parts = split_str(s, '/');
    let n = parts.len();
    assert(string_views(parts@).len() == n);
    if n < 4 {
        return None;
    }
    let ghost v = string_views(parts@);
    let third = parts.pop().unwrap();
    let second = parts.pop().unwrap();
    let first = parts.pop().unwrap();
    assert(third@ == v[n - 1]);
    assert(second@ == v[n - 2]);
    assert(first@ == v[n - 3]);
    Some((first, second, third))
}

/// Whether a numeric field holds a number above `threshold`. Numbers read from text always
/// have an exponent in the comparable range; others are never kept.
pub open spec fn above(n: Number, threshold: Decimal) -> bool {
    match n {
        Number::Finite(d) => d.wf() && dec_lt(threshold, d),
        Number::NotANumber => false,
    }
}

pub fn is_above(n: Number, threshold: Decimal) -> (r: bool)
    requires
        threshold.wf(),
    ensures
        r == above(n, threshold),
{
    match n {
        Number::Finite(d) => d.in_range() && threshold.less_than(&d),
        Number::NotANumber => false,
    }
}

/// One, the smallest combined score the phenotype-gene table keeps.
pub open spec fn one() -> Decimal {
    Decimal { negative: false, mantissa: 1, exponent: 0 }
}

/// The bulk-load tables, each with its file name and columns.
#[derive(Clone, Copy, Debug, PartialEq, Eq, Structural)]
pub enum Table {
    PhenoGene,
    PhenoGeneSet,
    FactorGene,
    FactorGeneSet,
    FactorLabels,
    TraitGeneSet,
    GeneGeneSet,
}

pub open spec fn table_columns(t: Table) -> Seq<Seq<char>> {
    match t {
        Table::PhenoGene => seq!["pheno"@, "gene"@, "combined"@, "log_bf"@, "prior"@],
        Table::PhenoGeneSet => seq!["pheno"@, "gene_set"@, "beta_uncorrected"@, "beta"@],
        Table::FactorGene => seq!["factor"@, "gene"@, "weight"@],
        Table::FactorGeneSet => seq!["factor"@, "gene_set"@, "weight"@],
        Table::FactorLabels => seq!["factor"@, "label"@],
        Table::TraitGeneSet => seq!["pheno"@, "pgs"@, "source"@, "beta_uncorrected"@, "beta"@],
        Table::GeneGeneSet => seq!["gene"@, "pgs"@, "beta"@],
    }
}

pub open spec fn table_file(t: Table) -> Seq<char> {
    match t {
        Table::PhenoGene => "pheno_gene.csv"@,
        Table::PhenoGeneSet | Table::TraitGeneSet => "pheno_geneset.csv"@,
        Table::FactorGene => "factor_gene.csv"@,
        Table::FactorGeneSet => "factor_geneset.csv"@,
        Table::FactorLabels => "factor_labels.csv"@,
        Table::GeneGeneSet => "gene_geneset.csv"@,
    }
}

impl Table {
    pub fn file_name(&self) -> (r: &'static str)
        ensures
            r@ == table_file(*self),
    {
        match self {
            Table::PhenoGene => "pheno_gene.csv",
            Table::PhenoGeneSet | Table::TraitGeneSet => "pheno_geneset.csv",
            Table::FactorGene => "factor_gene.csv",
            Table::FactorGeneSet => "factor_geneset.csv",
            Table::FactorLabels => "factor_labels.csv",
            Table::GeneGeneSet => "gene_geneset.csv",
        }
    }

    /// The header line of the table.
    pub fn header(&self) -> (r: String)
        ensures
            r@ == csv_record(table_columns(*self)),
    {
        let names = match self {
            Table::PhenoGene => vec!["pheno", "gene", "combined", "log_bf", "prior"],
            Table::PhenoGeneSet => vec!["pheno", "gene_set", "beta_uncorrected", "beta"],
            Table::FactorGene => vec!["factor", "gene", "weight"],
            Table::FactorGeneSet => vec!["factor", "gene_set", "weight"],
            Table::FactorLabels => vec!["factor", "label"],
            Table::TraitGeneSet => vec!["pheno", "pgs", "source", "beta_uncorrected", "beta"],
            Table::GeneGeneSet => vec!["gene", "pgs", "beta"],
        };
        assert(names@.map_values(|s: &str| s@) =~= table_columns(*self));
        header_line(&names)
    }
}

/// One hundredth, the smallest weight or effect the tables keep.
pub open spec fn one_hundredth() -> Decimal {
    Decimal { negative: false, mantissa: 1, exponent: -2i64 }
}

pub fn min_weight() -> (r: Decimal)
    ensures
        r == one_hundredth(),
        r.wf(),
{
    Decimal { negative: false, mantissa: 1, exponent: -2 }
}

/// A layout from lists of literal column names.
pub fn layout_of(required: Vec<&str>, numeric: Vec<&str>) -> (r: Layout)
    ensures
        string_views(r.required@) == required@.map_values(|s: &str| s@),
        string_views(r.numeric@) == numeric@.map_values(|s: &str| s@),
{
    Layout { required: owned_all(&required), numeric: owned_all(&numeric) }
}

fn owned_all(v: &Vec<&str>) -> (r: Vec<String>)
    ensures
        string_views(r@) == v@.map_values(|s: &str| s@),
{
    let mut r: Vec<String> = Vec::new();
    let mut i: usize = 0;
    while i < v.len()
        invariant
            i <= v@.len(),
            string_views(r@) == v@.take(i as int).map_values(|s: &str| s@),
        decreases v@.len() - i,
    {
        let ghost before = string_views(r@);
        r.push(v[i].to_owned());
        assert(string_views(r@) =~= before.push(v@[i as int]@));
        assert(v@.take(i + 1).map_values(|s: &str| s@) =~= v@.take(i as int).map_values(
            |s: &str| s@,
        ).push(v@[i as int]@));
        i = i + 1;
    }
    assert(v@.take(v@.len() as int) =~= v@);
    r
}

} // verus!
