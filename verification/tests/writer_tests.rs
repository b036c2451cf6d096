use vcf2csv::tags::Cardinality;
use vcf2csv::tags::Catalog;
use vcf2csv::tags::TagDecl;
use vcf2csv::tags::TagDescriptor;
use vcf2csv::tags::TagType;
use vcf2csv::valuefmt::int_to_text;
use vcf2csv::writer::Writer;
use vcf2csv::ParseError;

#[test]
fn write_field_inserts_delimiter_between_fields_only() {
    let mut w = Writer::new();
    w.write_field(b"a");
    w.write_field(b"b");
    w.write_field(b"");
    w.write_field(b"c");
    assert_eq!(w.take_bytes(), b"a\tb\t\tc".to_vec());
}

#[test]
fn newline_resets_the_field_counter() {
    let mut w = Writer::new();
    w.write_field(b"a");
    w.newline();
    w.write_field(b"b");
    w.newline();
    assert_eq!(w.into_bytes(), b"a\nb\n".to_vec());
}

#[test]
fn take_bytes_drains_mid_row() {
    let mut w = Writer::new();
    w.write_field(b"a");
    assert_eq!(w.take_bytes(), b"a".to_vec());
    // The field counter survives the drain, so the row continues with a
    // delimiter.
    w.write_field(b"b");
    assert_eq!(w.take_bytes(), b"\tb".to_vec());
}

#[test]
fn write_integer_renders_decimal_and_missing() {
    let mut w = Writer::new();
    w.write_integer(0);
    w.write_integer(-1);
    w.write_integer(1234567);
    w.write_integer(i32::MIN);
    w.write_integer(i32::MIN + 1);
    w.write_integer(i32::MAX);
    assert_eq!(
        w.into_bytes(),
        b"0\t-1\t1234567\t\t-2147483647\t2147483647".to_vec()
    );
}

#[test]
fn write_float_renders_text_or_empty() {
    let mut w = Writer::new();
    w.write_float(&Some(b"0.25".to_vec()));
    w.write_float(&None);
    assert_eq!(w.into_bytes(), b"0.25\t".to_vec());
}

#[test]
fn write_flag_renders_boolean_text() {
    let mut w = Writer::new();
    w.write_flag(true);
    w.write_flag(false);
    assert_eq!(w.into_bytes(), b"true\tfalse".to_vec());
}

#[test]
fn int_to_text_exact_values() {
    assert_eq!(int_to_text(10), b"10".to_vec());
    assert_eq!(int_to_text(-305), b"-305".to_vec());
    assert_eq!(int_to_text(i32::MIN), Vec::<u8>::new());
}

#[test]
fn describe_looks_tags_up_by_identifier() {
    let cat = Catalog {
        samples: Vec::new(),
        info: vec![
            TagDescriptor {
                id: b"DP".to_vec(),
                decl: Some(TagDecl {
                    ty: TagType::Integer,
                    card: Cardinality::Fixed(1),
                }),
            },
            TagDescriptor {
                id: b"AF".to_vec(),
                decl: Some(TagDecl {
                    ty: TagType::Float,
                    card: Cardinality::PerAltAllele,
                }),
            },
        ],
        format: vec![TagDescriptor {
            id: b"GT".to_vec(),
            decl: Some(TagDecl {
                ty: TagType::Text,
                card: Cardinality::Fixed(1),
            }),
        }],
    };
    let af = cat.describe_info(b"AF").unwrap();
    assert_eq!(af.decl.unwrap().ty, TagType::Float);
    assert!(cat.describe_info(b"GT").is_none());
    assert!(cat.describe_format(b"GT").is_some());
    assert!(cat.describe_format(b"ZZ").is_none());
}

#[test]
fn error_messages_name_the_cause() {
    assert!(ParseError::UnsupportedTagLength
        .message()
        .contains("multiplicities"));
    assert!(ParseError::FlagFormatTag.message().contains("FORMAT"));
}
