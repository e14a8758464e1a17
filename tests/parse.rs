use sam_compare::parse::{parse_sam, read_line, LineError, ParseError, SamParser};
use sam_compare::record::Sam;

fn line(qname: &str, flag: u32, rname: &str, pos: u32, mapq: u32, seq_len: usize) -> String {
    format!(
        "{}\t{}\t{}\t{}\t{}\t50M\t*\t0\t0\t{}\t*",
        qname,
        flag,
        rname,
        pos,
        mapq,
        "A".repeat(seq_len)
    )
}

fn lines(v: &[String]) -> Vec<String> {
    v.to_vec()
}

#[test]
fn primary_line_fields() {
    let input = lines(&[line("read1", 0, "chr1", 100, 60, 50)]);
    let (records, _) = parse_sam(&input, &vec![60, 10, 1, 0]).unwrap();
    assert_eq!(records.len(), 1);
    match &records[0] {
        Sam::Mapped(m) => {
            assert_eq!(m.qname, "read1");
            assert_eq!(m.len, 50);
            assert_eq!(m.rname, "chr1");
            assert_eq!(m.pos, 100);
            assert!(!m.reverse);
            assert_eq!(m.mapq, 60);
            assert!(m.secondaries.is_empty());
            assert!(m.supplementaries.is_empty());
        }
        Sam::Unmapped(_) => panic!("expected a mapped record"),
    }
}

#[test]
fn flag_16_is_reverse() {
    let input = lines(&[line("r", 16, "chr2", 7, 3, 10)]);
    let (records, _) = parse_sam(&input, &vec![0]).unwrap();
    match &records[0] {
        Sam::Mapped(m) => assert!(m.reverse),
        Sam::Unmapped(_) => panic!("expected a mapped record"),
    }
}

#[test]
fn header_lines_are_skipped() {
    let input = lines(&[
        "@HD\tVN:1.6".to_string(),
        "@SQ\tSN:chr1\tLN:1000".to_string(),
        line("r1", 4, "*", 0, 0, 12),
    ]);
    let (records, _) = parse_sam(&input, &vec![0]).unwrap();
    assert_eq!(records.len(), 1);
    match &records[0] {
        Sam::Unmapped(u) => {
            assert_eq!(u.qname, "r1");
            assert_eq!(u.len, 12);
        }
        Sam::Mapped(_) => panic!("expected an unmapped record"),
    }
}

#[test]
fn sub_alignments_attach_to_previous_primary() {
    let input = lines(&[
        line("r1", 0, "chr1", 100, 60, 50),
        line("r1", 256, "chr3", 500, 0, 50),
        line("r1", 256 + 16, "chr4", 600, 0, 50),
        line("r1", 2048 + 16, "chr5", 700, 0, 20),
        line("r2", 16, "chr1", 300, 10, 40),
    ]);
    let (records, _) = parse_sam(&input, &vec![60, 10, 1, 0]).unwrap();
    assert_eq!(records.len(), 2);
    match &records[0] {
        Sam::Mapped(m) => {
            assert_eq!(m.secondaries.len(), 2);
            assert_eq!(m.secondaries[0].rname, "chr3");
            assert_eq!(m.secondaries[0].pos, 500);
            assert!(!m.secondaries[0].reverse);
            assert_eq!(m.secondaries[1].rname, "chr4");
            assert!(m.secondaries[1].reverse);
            assert_eq!(m.supplementaries.len(), 1);
            assert_eq!(m.supplementaries[0].rname, "chr5");
            assert_eq!(m.supplementaries[0].pos, 700);
            assert_eq!(m.supplementaries[0].len, 20);
            assert!(m.supplementaries[0].reverse);
        }
        Sam::Unmapped(_) => panic!("expected a mapped record"),
    }
}

#[test]
fn secondary_as_first_data_line_is_orphan() {
    let input = lines(&["@HD\tVN:1.6".to_string(), line("r1", 256, "chr1", 100, 0, 50)]);
    let err = parse_sam(&input, &vec![60, 10, 1, 0]).unwrap_err();
    assert_eq!(err, ParseError { line: 1, kind: LineError::OrphanSubAlignment });
}

#[test]
fn supplementary_after_unmapped_is_orphan() {
    let input = lines(&[line("r1", 4, "*", 0, 0, 50), line("r1", 2048, "chr1", 100, 0, 50)]);
    let err = parse_sam(&input, &vec![0]).unwrap_err();
    assert_eq!(err, ParseError { line: 1, kind: LineError::OrphanSubAlignment });
}

#[test]
fn unknown_flag_is_rejected() {
    let input = lines(&[line("r1", 0, "chr1", 1, 1, 5), line("r2", 1, "chr1", 100, 0, 50)]);
    let err = parse_sam(&input, &vec![0]).unwrap_err();
    assert_eq!(err, ParseError { line: 1, kind: LineError::UnknownFlag(1) });
}

#[test]
fn malformed_lines_are_rejected() {
    let bad_flag = "r1\tx\tchr1\t1\t1\t*\t*\t0\t0\tAC\t*".to_string();
    assert_eq!(
        parse_sam(&vec![bad_flag], &vec![0]).unwrap_err(),
        ParseError { line: 0, kind: LineError::MalformedRecord }
    );
    let short = "r1\t0\tchr1\t1\t1".to_string();
    assert_eq!(
        parse_sam(&vec![short], &vec![0]).unwrap_err(),
        ParseError { line: 0, kind: LineError::MalformedRecord }
    );
    let big_mapq = line("r1", 0, "chr1", 1, 256, 3);
    assert_eq!(
        parse_sam(&vec![big_mapq], &vec![0]).unwrap_err(),
        ParseError { line: 0, kind: LineError::MalformedRecord }
    );
    assert_eq!(
        parse_sam(&vec![String::new()], &vec![0]).unwrap_err(),
        ParseError { line: 0, kind: LineError::MalformedRecord }
    );
}

#[test]
fn mapped_counts_use_first_bucket() {
    let input = lines(&[
        line("a", 0, "chr1", 1, 60, 5),
        line("b", 0, "chr1", 1, 59, 5),
        line("c", 16, "chr1", 1, 0, 5),
        line("d", 4, "*", 0, 0, 5),
        line("e", 0, "chr1", 1, 200, 5),
    ]);
    let (_, counts) = parse_sam(&input, &vec![60, 10, 1, 0]).unwrap();
    assert_eq!(counts, vec![2, 1, 0, 1]);
}

#[test]
fn parser_keeps_records_on_error() {
    let mut p = SamParser::new(&vec![0]);
    assert!(p.push_line(&line("a", 4, "*", 0, 0, 3)).is_ok());
    assert_eq!(p.push_line(&line("a", 256, "chr1", 4, 0, 3)), Err(LineError::OrphanSubAlignment));
    let (records, counts) = p.finish();
    assert_eq!(records.len(), 1);
    assert_eq!(counts, vec![0]);
}

#[test]
fn read_line_recognises_header() {
    assert!(matches!(read_line("@PG\tID:x"), sam_compare::parse::Line::Header));
}
