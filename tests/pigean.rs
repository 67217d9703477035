use ygramul::number::{Decimal, Number};
use ygramul::pigean::factors::{self, factor_column_name, Factor, FactorFileKind};
use ygramul::pigean::pgs::{self, PhenoGeneSet};
use ygramul::pigean::phenos::{self, FileKind};
use ygramul::pigean::{is_above, last_three_parts, min_weight, Table};
use ygramul::record::Record;
use ygramul::table::{header_line, row_line};
use ygramul::tsv::parse_record;

#[test]
fn last_three_parts_needs_three_separators() {
    let (a, b, c) = last_three_parts("s3://bucket/T2D/run/gs.out").unwrap();
    assert_eq!((a.as_str(), b.as_str(), c.as_str()), ("T2D", "run", "gs.out"));
    assert!(last_three_parts("T2D/run/gs.out").is_none());
    let (a, _, _) = last_three_parts("/x/y/z").unwrap();
    assert_eq!(a, "x");
}

#[test]
fn result_files_are_classified_by_name_and_sub_dir() {
    let info = phenos::classify_file("/d/T2D/run/gss.out", "run").unwrap();
    assert_eq!(info.kind, FileKind::Gss);
    assert_eq!(info.pheno, "T2D");
    assert_eq!(info.name, "/d/T2D/run/gss.out");
    assert!(phenos::classify_file("/d/T2D/other/gss.out", "run").is_none());
    assert!(phenos::classify_file("/d/T2D/run/x.out", "run").is_none());
    let f = factors::classify_file("/d/BMI/f/gsac.out", "f").unwrap();
    assert_eq!(f.kind, FactorFileKind::GeneSets);
    let p = pgs::classify_file("/d/BMI/s/ggss.out", "s").unwrap();
    assert_eq!(p.kind, pgs::FileKind::GeneGeneSet);
}

#[test]
fn composite_names() {
    let f = Factor::new("Factor3".to_string(), "T2D".to_string());
    assert_eq!(f.to_text(), "Factor3_T2D");
    assert_eq!(factor_column_name("3", "T2D"), "Factor3_T2D");
    let p = PhenoGeneSet::new("T2D".to_string(), "GS1".to_string());
    assert_eq!(p.to_text(), "GS1:T2D");
}

#[test]
fn rows_kept_above_one_hundredth() {
    let t = min_weight();
    assert!(!is_above(Number::Finite(Decimal { negative: false, mantissa: 1, exponent: -2 }), t));
    assert!(is_above(Number::Finite(Decimal { negative: false, mantissa: 11, exponent: -3 }), t));
    assert!(!is_above(Number::NotANumber, t));
}

#[test]
fn layouts_read_their_columns() {
    let layout = pgs::pheno_pgs_layout();
    let columns: Vec<String> = ["Gene_Set", "beta", "label"].iter().map(|s| s.to_string()).collect();
    let r = parse_record(&layout, &columns, "GS\t0.5\tsrc", '\t').ok().unwrap();
    assert_eq!(r.texts, vec!["GS".to_string(), "src".to_string()]);
    assert_eq!(r.numbers[0], Number::NotANumber);
    assert_eq!(r.numbers[1], Number::Finite(Decimal { negative: false, mantissa: 5, exponent: -1 }));
    let w = factors::weights_maker(FactorFileKind::GeneSets);
    assert_eq!(w.entity_class, "Gene_Set");
    assert_eq!(phenos::pheno_gene_layout().numeric.len(), 3);
    assert_eq!(factors::factor_labels_layout().required.len(), 2);
    assert_eq!(pgs::gene_pgs_layout().required.len(), 2);
    assert_eq!(phenos::pheno_geneset_layout().numeric.len(), 2);
}

#[test]
fn table_lines_quote_where_needed() {
    assert_eq!(header_line(&vec!["factor", "label"]), "factor,label\n");
    let n = Number::Finite(Decimal { negative: false, mantissa: 5, exponent: -1 });
    let m = Number::Finite(Decimal { negative: true, mantissa: 12, exponent: 3 });
    assert_eq!(row_line(&vec!["a,b", "x"], &vec![n, m, Number::NotANumber]), "\"a,b\",x,0.5,-12000.0,NaN\n");
    assert_eq!(row_line(&vec!["k"], &vec![Number::Finite(Decimal { negative: true, mantissa: 0, exponent: 0 })]), "k,0.0\n");
}

#[test]
fn table_rows_keep_and_format() {
    let half = Number::Finite(Decimal { negative: false, mantissa: 5, exponent: -1 });
    let two = Number::Finite(Decimal { negative: false, mantissa: 2, exponent: 0 });
    let r = Record { texts: vec!["G1".to_string()], numbers: vec![two, half, Number::NotANumber] };
    assert_eq!(phenos::pheno_gene_line("T2D", &r).unwrap(), "T2D,G1,2.0,0.5,NaN\n");
    let low = Record { texts: vec!["G1".to_string()], numbers: vec![half, half, half] };
    assert!(phenos::pheno_gene_line("T2D", &low).is_none());
    let gs = Record { texts: vec!["GS".to_string(), "src".to_string()], numbers: vec![half, half] };
    assert_eq!(pgs::pheno_pgs_line("T2D", &gs).unwrap(), "T2D,GS:T2D,src,0.5,0.5\n");
    let labels = Record { texts: vec!["Factor3".to_string(), "immune, innate".to_string()], numbers: vec![] };
    assert_eq!(factors::factor_label_line("T2D", &labels), "Factor3_T2D,\"immune, innate\"\n");
    assert_eq!(Table::FactorGene.header(), "factor,gene,weight\n");
    assert_eq!(Table::TraitGeneSet.file_name(), "pheno_geneset.csv");
}

#[test]
fn weight_rows_give_one_line_per_kept_factor() {
    let maker = factors::weights_maker(FactorFileKind::Genes);
    let columns: Vec<String> = ["Gene", "Factor1", "Factor2"].iter().map(|s| s.to_string()).collect();
    let row = parse_record(&maker, &columns, "G\t0.005\t0.25", '\t').ok().unwrap();
    assert_eq!(factors::factor_weight_lines("BMI", &row), vec!["Factor2_BMI,G,0.25\n".to_string()]);
}
