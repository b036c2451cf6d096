use vcf2csv::flatten::convert_records;
use vcf2csv::flatten::flatten_record;
use vcf2csv::flatten::render_filters;
use vcf2csv::flatten::write_header;
use vcf2csv::record::FormatEntry;
use vcf2csv::record::InfoEntry;
use vcf2csv::record::Record;
use vcf2csv::record::TagValue;
use vcf2csv::tags::Cardinality;
use vcf2csv::tags::Catalog;
use vcf2csv::tags::TagDecl;
use vcf2csv::tags::TagDescriptor;
use vcf2csv::tags::TagType;
use vcf2csv::writer::Writer;
use vcf2csv::ParseError;

fn desc(id: &str, ty: TagType, card: Cardinality) -> TagDescriptor {
    TagDescriptor {
        id: id.as_bytes().to_vec(),
        decl: Some(TagDecl { ty, card }),
    }
}

fn undefined_desc(id: &str) -> TagDescriptor {
    TagDescriptor {
        id: id.as_bytes().to_vec(),
        decl: None,
    }
}

fn base_record() -> Record {
    Record {
        contig: b"chr1".to_vec(),
        pos: 99,
        alleles: vec![b"A".to_vec(), b"C".to_vec(), b"G".to_vec()],
        qual: Some(b"50".to_vec()),
        filters: vec![b"PASS".to_vec()],
        info: Vec::new(),
        format: Vec::new(),
        genotypes: vec![b"0/1".to_vec()],
    }
}

#[test]
fn end_to_end_two_alternates() {
    // One sample, one record with reference A and alternates [C, G], a
    // fixed-count integer INFO tag DP=10, a per-alternate float INFO tag
    // AF=[0.1, 0.2], and the genotype FORMAT tag with genotype 0/1.
    let cat = Catalog {
        samples: vec![b"S1".to_vec()],
        info: vec![
            desc("DP", TagType::Integer, Cardinality::Fixed(1)),
            desc("AF", TagType::Float, Cardinality::PerAltAllele),
        ],
        format: vec![desc("GT", TagType::Text, Cardinality::Fixed(1))],
    };
    let mut rec = base_record();
    rec.info = vec![
        InfoEntry {
            id: b"DP".to_vec(),
            value: TagValue::Ints(vec![10]),
        },
        InfoEntry {
            id: b"AF".to_vec(),
            value: TagValue::Floats(vec![Some(b"0.1".to_vec()), Some(b"0.2".to_vec())]),
        },
    ];
    let out = convert_records(&cat, &vec![rec]).unwrap();
    let mut expected = String::new();
    expected.push_str("VARIANT\tVARIANT\tVARIANT\tVARIANT\tVARIANT\tVARIANT\tVARIANT\tVARIANT\tS1\n");
    expected.push_str("CHROM\tPOS\tREF\tALT\tQUAL\tFILTER\tDP\tAF\tGT\n");
    expected.push_str("chr1\t100\tA\tC\t50\tPASS\t10\t0.1\t0/1\n");
    expected.push_str("chr1\t100\tA\tG\t50\tPASS\t10\t0.2\t0/1\n");
    assert_eq!(out, expected.as_bytes().to_vec());
}

#[test]
fn row_count_matches_alternate_count_and_columns_are_uniform() {
    let cat = Catalog {
        samples: vec![b"S1".to_vec(), b"S2".to_vec()],
        info: vec![desc("DP", TagType::Integer, Cardinality::Fixed(1))],
        format: vec![
            desc("GT", TagType::Text, Cardinality::Fixed(1)),
            desc("GQ", TagType::Integer, Cardinality::Fixed(1)),
        ],
    };
    let mut rec = base_record();
    rec.alleles = vec![b"A".to_vec(), b"C".to_vec(), b"G".to_vec(), b"T".to_vec()];
    rec.genotypes = vec![b"0/1".to_vec(), b"1/1".to_vec()];
    let out = convert_records(&cat, &vec![rec]).unwrap();
    let text = String::from_utf8(out).unwrap();
    let lines: Vec<&str> = text.split_terminator('\n').collect();
    // Two header rows, then one row per alternate allele.
    assert_eq!(lines.len(), 2 + 3);
    // Every row has 6 + |INFO| + |samples| * |FORMAT| = 11 columns.
    for line in lines {
        assert_eq!(line.split('\t').count(), 11);
    }
}

#[test]
fn zero_alternates_zero_rows() {
    let cat = Catalog {
        samples: vec![b"S1".to_vec()],
        info: vec![desc("DP", TagType::Integer, Cardinality::Fixed(1))],
        format: vec![desc("GT", TagType::Text, Cardinality::Fixed(1))],
    };
    let mut rec = base_record();
    rec.alleles = vec![b"A".to_vec()];
    let out = convert_records(&cat, &vec![rec]).unwrap();
    let text = String::from_utf8(out).unwrap();
    // Only the two header rows remain.
    assert_eq!(text.split_terminator('\n').count(), 2);
}

#[test]
fn fixed_tag_identical_on_every_row() {
    let cat = Catalog {
        samples: Vec::new(),
        info: vec![desc("DP", TagType::Integer, Cardinality::Fixed(1))],
        format: Vec::new(),
    };
    let mut rec = base_record();
    rec.info = vec![InfoEntry {
        id: b"DP".to_vec(),
        value: TagValue::Ints(vec![7]),
    }];
    let out = convert_records(&cat, &vec![rec]).unwrap();
    let text = String::from_utf8(out).unwrap();
    let data: Vec<&str> = text.split_terminator('\n').skip(2).collect();
    assert_eq!(data.len(), 2);
    for line in &data {
        assert_eq!(line.split('\t').last().unwrap(), "7");
    }
}

#[test]
fn per_alt_allele_tag_selects_own_value() {
    let cat = Catalog {
        samples: Vec::new(),
        info: vec![desc("AC", TagType::Integer, Cardinality::PerAltAllele)],
        format: Vec::new(),
    };
    let mut rec = base_record();
    rec.info = vec![InfoEntry {
        id: b"AC".to_vec(),
        value: TagValue::Ints(vec![11, 22]),
    }];
    let out = convert_records(&cat, &vec![rec]).unwrap();
    let text = String::from_utf8(out).unwrap();
    let data: Vec<&str> = text.split_terminator('\n').skip(2).collect();
    assert_eq!(data[0].split('\t').last().unwrap(), "11");
    assert_eq!(data[1].split('\t').last().unwrap(), "22");
}

#[test]
fn per_allele_tag_skips_reference_value() {
    let cat = Catalog {
        samples: Vec::new(),
        info: vec![desc("AD", TagType::Integer, Cardinality::PerAllele)],
        format: Vec::new(),
    };
    let mut rec = base_record();
    rec.info = vec![InfoEntry {
        id: b"AD".to_vec(),
        value: TagValue::Ints(vec![99, 11, 22]),
    }];
    let out = convert_records(&cat, &vec![rec]).unwrap();
    let text = String::from_utf8(out).unwrap();
    let data: Vec<&str> = text.split_terminator('\n').skip(2).collect();
    // The reference's value 99 never surfaces.
    assert_eq!(data[0].split('\t').last().unwrap(), "11");
    assert_eq!(data[1].split('\t').last().unwrap(), "22");
}

#[test]
fn missing_sentinels_render_empty() {
    let cat = Catalog {
        samples: Vec::new(),
        info: vec![
            desc("DP", TagType::Integer, Cardinality::Fixed(1)),
            desc("AF", TagType::Float, Cardinality::Fixed(1)),
        ],
        format: Vec::new(),
    };
    let mut rec = base_record();
    rec.alleles = vec![b"A".to_vec(), b"C".to_vec()];
    rec.qual = None;
    rec.filters = Vec::new();
    rec.info = vec![
        InfoEntry {
            id: b"DP".to_vec(),
            value: TagValue::Ints(vec![i32::MIN]),
        },
        InfoEntry {
            id: b"AF".to_vec(),
            value: TagValue::Floats(vec![None]),
        },
    ];
    let out = convert_records(&cat, &vec![rec]).unwrap();
    let text = String::from_utf8(out).unwrap();
    let data: Vec<&str> = text.split_terminator('\n').skip(2).collect();
    assert_eq!(data, vec!["chr1\t100\tA\tC\t\t\t\t"]);
}

#[test]
fn absent_and_undefined_tags_render_empty() {
    let cat = Catalog {
        samples: vec![b"S1".to_vec()],
        info: vec![
            desc("DP", TagType::Integer, Cardinality::Fixed(1)),
            undefined_desc("XX"),
        ],
        format: vec![
            desc("GQ", TagType::Integer, Cardinality::Fixed(1)),
            undefined_desc("YY"),
        ],
    };
    let mut rec = base_record();
    // DP declared but absent from the record; XX not declared at all; the
    // sample carries no GQ value and no YY value.
    let out = convert_records(&cat, &vec![rec.clone()]).unwrap();
    let text = String::from_utf8(out).unwrap();
    let data: Vec<&str> = text.split_terminator('\n').skip(2).collect();
    assert_eq!(data[0], "chr1\t100\tA\tC\t50\tPASS\t\t\t\t");
    assert_eq!(data[1], "chr1\t100\tA\tG\t50\tPASS\t\t\t\t");

    // The same tags absent on a record with values for neither: still Ok on
    // a second record carrying a DP value, which then fills only its own
    // cell.
    rec.info = vec![InfoEntry {
        id: b"DP".to_vec(),
        value: TagValue::Ints(vec![3]),
    }];
    let out2 = convert_records(&cat, &vec![rec]).unwrap();
    let text2 = String::from_utf8(out2).unwrap();
    let data2: Vec<&str> = text2.split_terminator('\n').skip(2).collect();
    assert_eq!(data2[0], "chr1\t100\tA\tC\t50\tPASS\t3\t\t\t");
}

#[test]
fn filter_rendering_cases() {
    // Unset filter: empty cell.
    assert_eq!(render_filters(&Vec::new()), b"".to_vec());
    // Sole pass filter: the pass label alone.
    assert_eq!(render_filters(&vec![b"PASS".to_vec()]), b"PASS".to_vec());
    // Two filters join with a semicolon in declaration order.
    assert_eq!(
        render_filters(&vec![b"q10".to_vec(), b"s50".to_vec()]),
        b"q10;s50".to_vec()
    );
}

#[test]
fn unsupported_format_cardinality_is_fatal() {
    let cat = Catalog {
        samples: vec![b"S1".to_vec()],
        info: Vec::new(),
        format: vec![desc("AD", TagType::Integer, Cardinality::Variable)],
    };
    let rec = base_record();
    assert_eq!(
        convert_records(&cat, &vec![rec]),
        Err(ParseError::UnsupportedTagLength)
    );
}

#[test]
fn per_genotype_format_cardinality_is_fatal() {
    let cat = Catalog {
        samples: vec![b"S1".to_vec()],
        info: Vec::new(),
        format: vec![desc("PL", TagType::Integer, Cardinality::PerGenotype)],
    };
    let rec = base_record();
    assert_eq!(
        convert_records(&cat, &vec![rec]),
        Err(ParseError::UnsupportedTagLength)
    );
}

#[test]
fn flag_typed_format_tag_is_fatal() {
    let cat = Catalog {
        samples: vec![b"S1".to_vec()],
        info: Vec::new(),
        format: vec![desc("FL", TagType::Flag, Cardinality::Fixed(1))],
    };
    let rec = base_record();
    assert_eq!(
        convert_records(&cat, &vec![rec]),
        Err(ParseError::FlagFormatTag)
    );
}

#[test]
fn format_schema_error_needs_samples_and_alternates() {
    // With no samples the bad FORMAT tag is never exercised.
    let no_samples = Catalog {
        samples: Vec::new(),
        info: Vec::new(),
        format: vec![desc("AD", TagType::Integer, Cardinality::Variable)],
    };
    assert!(convert_records(&no_samples, &vec![base_record()]).is_ok());
    // With no alternates no row is emitted and the error is not exercised.
    let with_samples = Catalog {
        samples: vec![b"S1".to_vec()],
        info: Vec::new(),
        format: vec![desc("AD", TagType::Integer, Cardinality::Variable)],
    };
    let mut rec = base_record();
    rec.alleles = vec![b"A".to_vec()];
    assert!(convert_records(&with_samples, &vec![rec]).is_ok());
}

#[test]
fn schema_error_leaves_writer_untouched() {
    let cat = Catalog {
        samples: vec![b"S1".to_vec()],
        info: Vec::new(),
        format: vec![desc("AD", TagType::Integer, Cardinality::Variable)],
    };
    let mut w = Writer::new();
    write_header(&mut w, &cat);
    let header = w.take_bytes();
    assert!(!header.is_empty());
    let rec = base_record();
    assert_eq!(
        flatten_record(&mut w, &cat, &rec),
        Err(ParseError::UnsupportedTagLength)
    );
    // Nothing of the failing record reached the buffer.
    assert_eq!(w.take_bytes(), Vec::<u8>::new());
}

#[test]
fn genotype_tag_uses_precomputed_text_whatever_the_declared_type() {
    let cat = Catalog {
        samples: vec![b"S1".to_vec()],
        info: Vec::new(),
        format: vec![desc("GT", TagType::Integer, Cardinality::Fixed(1))],
    };
    let mut rec = base_record();
    rec.alleles = vec![b"A".to_vec(), b"C".to_vec()];
    rec.genotypes = vec![b"1|1".to_vec()];
    let out = convert_records(&cat, &vec![rec]).unwrap();
    let text = String::from_utf8(out).unwrap();
    let data: Vec<&str> = text.split_terminator('\n').skip(2).collect();
    assert_eq!(data[0].split('\t').last().unwrap(), "1|1");
}

#[test]
fn info_flag_renders_true_or_false() {
    let cat = Catalog {
        samples: Vec::new(),
        info: vec![
            desc("DB", TagType::Flag, Cardinality::Fixed(0)),
            desc("H2", TagType::Flag, Cardinality::Fixed(0)),
        ],
        format: Vec::new(),
    };
    let mut rec = base_record();
    rec.alleles = vec![b"A".to_vec(), b"C".to_vec()];
    rec.info = vec![InfoEntry {
        id: b"DB".to_vec(),
        value: TagValue::Flag(true),
    }];
    let out = convert_records(&cat, &vec![rec]).unwrap();
    let text = String::from_utf8(out).unwrap();
    let data: Vec<&str> = text.split_terminator('\n').skip(2).collect();
    let cells: Vec<&str> = data[0].split('\t').collect();
    assert_eq!(cells[6], "true");
    assert_eq!(cells[7], "false");
}

#[test]
fn format_values_resolve_per_sample_and_per_allele() {
    let cat = Catalog {
        samples: vec![b"S1".to_vec(), b"S2".to_vec()],
        info: Vec::new(),
        format: vec![desc("AO", TagType::Integer, Cardinality::PerAltAllele)],
    };
    let mut rec = base_record();
    rec.genotypes = vec![b"0/1".to_vec(), b"0/2".to_vec()];
    rec.format = vec![FormatEntry {
        id: b"AO".to_vec(),
        per_sample: vec![
            TagValue::Ints(vec![5, 6]),
            TagValue::Ints(vec![7, 8]),
        ],
    }];
    let out = convert_records(&cat, &vec![rec]).unwrap();
    let text = String::from_utf8(out).unwrap();
    let data: Vec<&str> = text.split_terminator('\n').skip(2).collect();
    let row0: Vec<&str> = data[0].split('\t').collect();
    let row1: Vec<&str> = data[1].split('\t').collect();
    assert_eq!(&row0[6..], &["5", "7"]);
    assert_eq!(&row1[6..], &["6", "8"]);
}

#[test]
fn value_list_too_short_renders_empty() {
    let cat = Catalog {
        samples: Vec::new(),
        info: vec![desc("AC", TagType::Integer, Cardinality::PerAltAllele)],
        format: Vec::new(),
    };
    let mut rec = base_record();
    rec.info = vec![InfoEntry {
        id: b"AC".to_vec(),
        value: TagValue::Ints(vec![11]),
    }];
    let out = convert_records(&cat, &vec![rec]).unwrap();
    let text = String::from_utf8(out).unwrap();
    let data: Vec<&str> = text.split_terminator('\n').skip(2).collect();
    assert_eq!(data[0].split('\t').last().unwrap(), "11");
    assert_eq!(data[1].split('\t').last().unwrap(), "");
}

#[test]
fn multiple_records_stream_in_order() {
    let cat = Catalog {
        samples: Vec::new(),
        info: Vec::new(),
        format: Vec::new(),
    };
    let mut rec1 = base_record();
    rec1.alleles = vec![b"A".to_vec(), b"C".to_vec()];
    let mut rec2 = base_record();
    rec2.contig = b"chr2".to_vec();
    rec2.pos = 7;
    rec2.alleles = vec![b"T".to_vec(), b"G".to_vec()];
    rec2.qual = None;
    rec2.filters = Vec::new();
    let out = convert_records(&cat, &vec![rec1, rec2]).unwrap();
    let text = String::from_utf8(out).unwrap();
    let data: Vec<&str> = text.split_terminator('\n').skip(2).collect();
    assert_eq!(data, vec!["chr1\t100\tA\tC\t50\tPASS", "chr2\t8\tT\tG\t\t"]);
}

#[test]
fn text_and_float_format_values_render_per_allele() {
    let cat = Catalog {
        samples: vec![b"S1".to_vec()],
        info: Vec::new(),
        format: vec![
            desc("TX", TagType::Text, Cardinality::PerAltAllele),
            desc("VF", TagType::Float, Cardinality::PerAltAllele),
        ],
    };
    let mut rec = base_record();
    rec.format = vec![
        FormatEntry {
            id: b"TX".to_vec(),
            per_sample: vec![TagValue::Texts(vec![b"left".to_vec(), b"right".to_vec()])],
        },
        FormatEntry {
            id: b"VF".to_vec(),
            per_sample: vec![TagValue::Floats(vec![Some(b"0.5".to_vec()), None])],
        },
    ];
    let out = convert_records(&cat, &vec![rec]).unwrap();
    let text = String::from_utf8(out).unwrap();
    let data: Vec<&str> = text.split_terminator('\n').skip(2).collect();
    let row0: Vec<&str> = data[0].split('\t').collect();
    let row1: Vec<&str> = data[1].split('\t').collect();
    assert_eq!(&row0[6..], &["left", "0.5"]);
    // The second alternate's float is the missing sentinel: empty, never a
    // missing token.
    assert_eq!(&row1[6..], &["right", ""]);
}

#[test]
fn info_text_values_render_verbatim() {
    let cat = Catalog {
        samples: Vec::new(),
        info: vec![desc("TY", TagType::Text, Cardinality::Fixed(1))],
        format: Vec::new(),
    };
    let mut rec = base_record();
    rec.alleles = vec![b"A".to_vec(), b"C".to_vec()];
    rec.info = vec![InfoEntry {
        id: b"TY".to_vec(),
        value: TagValue::Texts(vec![b"snp".to_vec()]),
    }];
    let out = convert_records(&cat, &vec![rec]).unwrap();
    let text = String::from_utf8(out).unwrap();
    let data: Vec<&str> = text.split_terminator('\n').skip(2).collect();
    assert_eq!(data[0].split('\t').last().unwrap(), "snp");
}

#[test]
fn lookup_takes_the_first_entry_under_an_identifier() {
    let cat = Catalog {
        samples: Vec::new(),
        info: vec![desc("DP", TagType::Integer, Cardinality::Fixed(1))],
        format: Vec::new(),
    };
    let mut rec = base_record();
    rec.alleles = vec![b"A".to_vec(), b"C".to_vec()];
    rec.info = vec![
        InfoEntry {
            id: b"DP".to_vec(),
            value: TagValue::Ints(vec![1]),
        },
        InfoEntry {
            id: b"DP".to_vec(),
            value: TagValue::Ints(vec![2]),
        },
    ];
    let out = convert_records(&cat, &vec![rec]).unwrap();
    let text = String::from_utf8(out).unwrap();
    let data: Vec<&str> = text.split_terminator('\n').skip(2).collect();
    assert_eq!(data[0].split('\t').last().unwrap(), "1");
}

#[test]
fn declared_type_and_stored_value_mismatch_renders_empty() {
    let cat = Catalog {
        samples: Vec::new(),
        info: vec![desc("DP", TagType::Integer, Cardinality::Fixed(1))],
        format: Vec::new(),
    };
    let mut rec = base_record();
    rec.alleles = vec![b"A".to_vec(), b"C".to_vec()];
    rec.info = vec![InfoEntry {
        id: b"DP".to_vec(),
        value: TagValue::Texts(vec![b"oops".to_vec()]),
    }];
    let out = convert_records(&cat, &vec![rec]).unwrap();
    let text = String::from_utf8(out).unwrap();
    let data: Vec<&str> = text.split_terminator('\n').skip(2).collect();
    assert_eq!(data[0].split('\t').last().unwrap(), "");
}
