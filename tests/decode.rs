use ygramul::error::ErrorKind;
use ygramul::number::{parse_number, Decimal, Number};
use ygramul::record::Layout;
use ygramul::tsv::{decode_lines, parse_record, LinesOf, TsvConsumer, TsvReader};
use ygramul::upload::{EntityRow, EntityUploadEaterMaker};

fn strings(v: &[&str]) -> Vec<String> {
    v.iter().map(|s| s.to_string()).collect()
}

fn dec(negative: bool, mantissa: u64, exponent: i64) -> Number {
    Number::Finite(Decimal { negative, mantissa, exponent })
}

fn weight_of(row: &EntityRow, subkey: &str) -> Number {
    let i = row.subkeys.iter().position(|s| s == subkey).expect("subkey present");
    row.weights[i]
}

#[test]
fn fields_are_found_by_name() {
    let maker = EntityUploadEaterMaker::new("Gene".to_string());
    let columns = strings(&["Gene", "Factor1", "Factor2"]);
    let row = parse_record(&maker, &columns, "G1\t0.2\t0.9", '\t').ok().unwrap();
    assert_eq!(row.entity, "G1");
    assert_eq!(weight_of(&row, "1"), dec(false, 2, -1));
    assert_eq!(weight_of(&row, "2"), dec(false, 9, -1));
    assert_eq!(row.weight_max, Decimal { negative: false, mantissa: 9, exponent: -1 });
}

#[test]
fn swapped_columns_give_the_same_fields() {
    let maker = EntityUploadEaterMaker::new("Gene".to_string());
    let columns = strings(&["Factor2", "Gene", "Factor1"]);
    let row = parse_record(&maker, &columns, "0.9\tG1\t0.2", '\t').ok().unwrap();
    assert_eq!(row.entity, "G1");
    assert_eq!(weight_of(&row, "1"), dec(false, 2, -1));
    assert_eq!(weight_of(&row, "2"), dec(false, 9, -1));
}

#[test]
fn a_row_missing_its_required_field_does_not_stop_the_rest() {
    let maker = EntityUploadEaterMaker::new("Gene".to_string());
    let lines = strings(&["Factor1\tGene", "0.5\tG1", "0.3", "0.25\tG3"]);
    let rows = decode_lines(&maker, '\t', &lines).ok().unwrap();
    assert_eq!(rows.len(), 3);
    assert_eq!(rows.iter().filter(|r| r.is_ok()).count(), 2);
    assert_eq!(rows.iter().filter(|r| r.is_err()).count(), 1);
    assert!(rows[1].is_err());
    assert_eq!(rows[2].as_ref().ok().unwrap().entity, "G3");
    assert_eq!(rows[1].as_ref().err().unwrap().describe(), "Missing Gene");
    let layout = Layout { required: strings(&["Gene"]), numeric: strings(&["Factor1"]) };
    let rows = decode_lines(&layout, '\t', &lines).ok().unwrap();
    assert_eq!(rows.iter().filter(|r| r.is_ok()).count(), 2);
    assert!(rows[1].is_err());
    let header_only = strings(&["Factor1\tGene"]);
    assert!(decode_lines(&maker, '\t', &header_only).ok().unwrap().is_empty());
}

#[test]
fn missing_field_error_names_the_column() {
    let layout = Layout { required: strings(&["Factor", "label"]), numeric: vec![] };
    let columns = strings(&["Factor", "other"]);
    let e = parse_record(&layout, &columns, "3\tx", '\t').err().unwrap();
    assert_eq!(e.kind, ErrorKind::MissingField);
    assert_eq!(e.describe(), "Missing label");
}

#[test]
fn empty_text_has_no_header() {
    let maker = EntityUploadEaterMaker::new("Gene".to_string());
    let e = decode_lines(&maker, '\t', &vec![]).err().unwrap();
    assert_eq!(e.kind, ErrorKind::Storage);
}

#[test]
fn extra_and_missing_values_are_ignored() {
    let layout = Layout { required: strings(&["a"]), numeric: strings(&["b", "c"]) };
    let columns = strings(&["a", "b", "c"]);
    let r = parse_record(&layout, &columns, "x,1.5,2,9,9", ',').ok().unwrap();
    assert_eq!(r.texts, strings(&["x"]));
    assert_eq!(r.numbers, vec![dec(false, 15, -1), dec(false, 2, 0)]);
    let r = parse_record(&layout, &columns, "x", ',').ok().unwrap();
    assert_eq!(r.numbers, vec![Number::NotANumber, Number::NotANumber]);
}

#[test]
fn push_mode_takes_header_then_rows() {
    let mut consumer = TsvConsumer::new(',', Layout { required: strings(&["k"]), numeric: vec![] });
    assert!(consumer.consume("k,v").is_none());
    let row = consumer.consume("a,b").unwrap().ok().unwrap();
    assert_eq!(row.texts, strings(&["a"]));
    assert!(consumer.consume("").unwrap().is_ok());
    assert_eq!(consumer.consume("").unwrap().ok().unwrap().texts, strings(&[""]));
}

#[test]
fn pull_mode_reads_rows_on_demand() {
    let source = LinesOf::new(strings(&["x\ty", "1\t2", "3"]));
    let layout = Layout { required: strings(&["y"]), numeric: strings(&["x"]) };
    let mut reader = TsvReader::new(source, '\t', layout).ok().unwrap();
    let first = reader.next().unwrap().ok().unwrap();
    assert_eq!(first.texts, strings(&["2"]));
    assert_eq!(first.numbers, vec![dec(false, 1, 0)]);
    assert!(reader.next().unwrap().is_err());
    assert!(reader.next().is_none());
    let e = TsvReader::new(LinesOf::new(vec![]), '\t', Layout { required: vec![], numeric: vec![] });
    assert_eq!(e.err().unwrap().describe(), "Empty TSV file");
}

#[test]
fn numbers_read_exactly() {
    assert_eq!(parse_number("0.2"), dec(false, 2, -1));
    assert_eq!(parse_number("-12.50"), dec(true, 1250, -2));
    assert_eq!(parse_number("1e-5"), dec(false, 1, -5));
    assert_eq!(parse_number("+3.E2"), dec(false, 3, 2));
    assert_eq!(parse_number(".5"), dec(false, 5, -1));
    assert_eq!(parse_number("7"), dec(false, 7, 0));
}

#[test]
fn unreadable_numbers_are_not_a_number() {
    for text in ["", "abc", "1.2.3", "e5", "1e", "NaN", "--1", ".", "1 "] {
        assert_eq!(parse_number(text), Number::NotANumber, "{text}");
    }
}

#[test]
fn long_digit_strings_round_into_the_exponent() {
    assert_eq!(parse_number("99999999999999999999"), dec(false, 10_000_000_000_000_000_000, 1));
    assert_eq!(
        parse_number("0.000123456789012345678912"),
        dec(false, 1_234_567_890_123_456_789, -22)
    );
    assert_eq!(
        parse_number("-1234567890123456789049"),
        dec(true, 1_234_567_890_123_456_789, 3)
    );
}

#[test]
fn decimals_compare_by_value() {
    let a = Decimal { negative: false, mantissa: 5, exponent: -1 };
    let b = Decimal { negative: false, mantissa: 50, exponent: -2 };
    let c = Decimal { negative: false, mantissa: 51, exponent: -2 };
    let d = Decimal { negative: true, mantissa: 1, exponent: 3 };
    let z = Decimal { negative: true, mantissa: 0, exponent: 7 };
    assert!(!a.less_than(&b) && !b.less_than(&a));
    assert!(a.less_than(&c));
    assert!(d.less_than(&a));
    assert!(d.less_than(&z));
    assert!(!z.less_than(&Decimal { negative: false, mantissa: 0, exponent: 0 }));
    let big = Decimal { negative: false, mantissa: 1, exponent: 30 };
    let many = Decimal { negative: false, mantissa: u64::MAX, exponent: 0 };
    assert!(many.less_than(&big));
    assert!(Decimal { negative: true, mantissa: 1, exponent: 30 }.less_than(&Decimal { negative: true, mantissa: u64::MAX, exponent: 0 }));
}
