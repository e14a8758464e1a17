use sam_compare::bucket::{bucket_index, increase_counter};
use sam_compare::classify::{classify, compare_sam, Outcome, RecordCountMismatch, Report};
use sam_compare::compare::{tolerance, DistanceFraction, Mode};
use sam_compare::parse::parse_sam;
use sam_compare::record::Sam;

const QUALITIES: [u8; 4] = [60, 10, 1, 0];

fn line(qname: &str, flag: u32, rname: &str, pos: u32, mapq: u32, seq_len: usize) -> String {
    format!(
        "{}\t{}\t{}\t{}\t{}\t50M\t*\t0\t0\t{}\t*",
        qname,
        flag,
        rname,
        pos,
        mapq,
        "A".repeat(seq_len)
    )
}

fn records(v: &[String]) -> Vec<Sam> {
    parse_sam(&v.to_vec(), &QUALITIES.to_vec()).unwrap().0
}

fn run(tgt: &[String], test: &[String], fraction: DistanceFraction, mode: Mode) -> Report {
    compare_sam(&records(tgt), &records(test), &fraction, &QUALITIES.to_vec(), true, mode).unwrap()
}

fn one() -> DistanceFraction {
    DistanceFraction::one()
}

#[test]
fn offset_within_read_length_is_concordant() {
    let tgt = [line("read1", 0, "chr1", 100, 60, 50)];
    let test = [line("read1", 0, "chr1", 140, 60, 50)];
    for mode in [Mode::All, Mode::PrimTgt, Mode::Prim, Mode::PrimSupp] {
        let r = run(&tgt, &test, one(), mode);
        assert_eq!(r.diff, vec![0, 0, 0, 0]);
        assert_eq!(r.gain, vec![0, 0, 0, 0]);
        assert_eq!(r.loss, vec![0, 0, 0, 0]);
        assert!(r.diff_names.is_empty());
    }
}

#[test]
fn offset_beyond_read_length_is_discordant() {
    let tgt = [line("read1", 0, "chr1", 100, 60, 50)];
    let test = [line("read1", 0, "chr1", 200, 60, 50)];
    let r = run(&tgt, &test, one(), Mode::Prim);
    assert_eq!(r.diff, vec![1, 0, 0, 0]);
    assert_eq!(r.diff_names, vec!["read1".to_string()]);
    assert_eq!(r.gain, vec![0, 0, 0, 0]);
    assert_eq!(r.loss, vec![0, 0, 0, 0]);
}

#[test]
fn tolerance_boundary_is_inclusive() {
    let tgt = [line("r", 0, "chr1", 100, 60, 50)];
    let at = [line("r", 0, "chr1", 150, 60, 50)];
    let past = [line("r", 0, "chr1", 151, 60, 50)];
    let below = [line("r", 0, "chr1", 50, 60, 50)];
    let under = [line("r", 0, "chr1", 49, 60, 50)];
    assert_eq!(run(&tgt, &at, one(), Mode::Prim).diff, vec![0, 0, 0, 0]);
    assert_eq!(run(&tgt, &past, one(), Mode::Prim).diff, vec![1, 0, 0, 0]);
    assert_eq!(run(&tgt, &below, one(), Mode::Prim).diff, vec![0, 0, 0, 0]);
    assert_eq!(run(&tgt, &under, one(), Mode::Prim).diff, vec![1, 0, 0, 0]);
}

#[test]
fn tolerance_larger_than_position_does_not_underflow() {
    let tgt = [line("r", 0, "chr1", 3, 60, 50)];
    let test = [line("r", 0, "chr1", 1, 60, 50)];
    assert_eq!(run(&tgt, &test, one(), Mode::Prim).diff, vec![0, 0, 0, 0]);
}

#[test]
fn other_reference_or_strand_is_discordant() {
    let tgt = [line("r", 0, "chr1", 100, 10, 50)];
    let other_ref = [line("r", 0, "chr2", 100, 60, 50)];
    let other_strand = [line("r", 16, "chr1", 100, 60, 50)];
    assert_eq!(run(&tgt, &other_ref, one(), Mode::Prim).diff, vec![0, 1, 0, 0]);
    assert_eq!(run(&tgt, &other_strand, one(), Mode::Prim).diff, vec![0, 1, 0, 0]);
}

#[test]
fn gain_and_loss_use_the_mapped_side_quality() {
    let tgt = [line("g", 4, "*", 0, 0, 50), line("l", 0, "chr1", 100, 5, 50)];
    let test = [line("g", 0, "chr1", 12345, 30, 50), line("l", 4, "*", 0, 0, 50)];
    let r = run(&tgt, &test, one(), Mode::All);
    assert_eq!(r.gain, vec![0, 1, 0, 0]);
    assert_eq!(r.loss, vec![0, 0, 1, 0]);
    assert_eq!(r.diff, vec![0, 0, 0, 0]);
    assert_eq!(r.gain_names, vec!["g".to_string()]);
    assert_eq!(r.loss_names, vec!["l".to_string()]);
}

#[test]
fn both_unmapped_is_concordant() {
    let tgt = [line("u", 4, "*", 0, 0, 50)];
    let r = run(&tgt, &tgt, one(), Mode::All);
    assert_eq!(r.gain, vec![0, 0, 0, 0]);
    assert_eq!(r.loss, vec![0, 0, 0, 0]);
    assert_eq!(r.diff, vec![0, 0, 0, 0]);
}

#[test]
fn record_count_mismatch_is_an_error() {
    let tgt: Vec<String> = (0..100).map(|i| line(&format!("r{}", i), 4, "*", 0, 0, 5)).collect();
    let test: Vec<String> = (0..99).map(|i| line(&format!("r{}", i), 4, "*", 0, 0, 5)).collect();
    let r = compare_sam(
        &records(&tgt),
        &records(&test),
        &one(),
        &QUALITIES.to_vec(),
        true,
        Mode::All,
    );
    assert_eq!(r.err(), Some(RecordCountMismatch { target: 100, test: 99 }));
}

#[test]
fn names_are_left_out_when_not_asked_for() {
    let tgt = [line("a", 0, "chr1", 100, 60, 50), line("b", 4, "*", 0, 0, 50)];
    let test = [line("a", 0, "chr1", 900, 60, 50), line("b", 0, "chr1", 1, 1, 50)];
    let r = compare_sam(&records(&tgt), &records(&test), &one(), &QUALITIES.to_vec(), false, Mode::All)
        .unwrap();
    assert_eq!(r.diff, vec![1, 0, 0, 0]);
    assert_eq!(r.gain, vec![0, 0, 1, 0]);
    assert!(r.diff_names.is_empty());
    assert!(r.gain_names.is_empty());
}

#[test]
fn running_twice_gives_the_same_report() {
    let tgt = [
        line("a", 0, "chr1", 100, 60, 50),
        line("b", 4, "*", 0, 0, 50),
        line("c", 0, "chr1", 100, 3, 50),
    ];
    let test = [
        line("a", 0, "chr1", 900, 60, 50),
        line("b", 0, "chr1", 1, 1, 50),
        line("c", 4, "*", 0, 0, 50),
    ];
    let t = records(&tgt);
    let s = records(&test);
    let q = QUALITIES.to_vec();
    let first = compare_sam(&t, &s, &one(), &q, true, Mode::All).unwrap();
    let second = compare_sam(&t, &s, &one(), &q, true, Mode::All).unwrap();
    assert_eq!(first.gain, second.gain);
    assert_eq!(first.loss, second.loss);
    assert_eq!(first.diff, second.diff);
    assert_eq!(first.gain_names, second.gain_names);
    assert_eq!(first.loss_names, second.loss_names);
    assert_eq!(first.diff_names, second.diff_names);
}

#[test]
fn equal_positions_agree_with_zero_tolerance() {
    let zero = DistanceFraction { num: 0, den: 1 };
    let tgt = [line("r", 0, "chr1", 100, 60, 50)];
    let same = [line("r", 0, "chr1", 100, 60, 50)];
    let next = [line("r", 0, "chr1", 101, 60, 50)];
    assert_eq!(run(&tgt, &same, zero, Mode::Prim).diff, vec![0, 0, 0, 0]);
    assert_eq!(run(&tgt, &next, zero, Mode::Prim).diff, vec![1, 0, 0, 0]);
}

#[test]
fn wider_fraction_turns_discordant_into_concordant() {
    let half = DistanceFraction { num: 1, den: 2 };
    let tgt = [line("r", 0, "chr1", 100, 60, 50)];
    let test = [line("r", 0, "chr1", 140, 60, 50)];
    assert_eq!(run(&tgt, &test, half, Mode::Prim).diff, vec![1, 0, 0, 0]);
    assert_eq!(run(&tgt, &test, one(), Mode::Prim).diff, vec![0, 0, 0, 0]);
}

#[test]
fn all_is_stricter_than_prim() {
    let tgt = [line("r", 0, "chr1", 100, 60, 50), line("r", 256, "chr9", 5000, 0, 50)];
    let test = [line("r", 0, "chr1", 100, 60, 50)];
    assert_eq!(run(&tgt, &test, one(), Mode::Prim).diff, vec![0, 0, 0, 0]);
    assert_eq!(run(&tgt, &test, one(), Mode::All).diff, vec![1, 0, 0, 0]);
}

#[test]
fn all_accepts_matching_secondaries() {
    let tgt = [line("r", 0, "chr1", 100, 60, 50), line("r", 256, "chr9", 5000, 0, 50)];
    let test = [
        line("r", 0, "chr1", 120, 60, 50),
        line("r", 256, "chr2", 7, 0, 50),
        line("r", 256, "chr9", 5040, 0, 50),
    ];
    assert_eq!(run(&tgt, &test, one(), Mode::All).diff, vec![0, 0, 0, 0]);
}

#[test]
fn prim_tgt_rescues_through_secondary_or_supplementary() {
    let tgt = [line("r", 0, "chr1", 100, 60, 50)];
    let by_secondary = [line("r", 0, "chr7", 1, 60, 50), line("r", 256, "chr1", 110, 0, 50)];
    let by_supplementary = [line("r", 0, "chr7", 1, 60, 50), line("r", 2048, "chr1", 90, 0, 20)];
    let neither = [line("r", 0, "chr7", 1, 60, 50), line("r", 256, "chr1", 400, 0, 50)];
    assert_eq!(run(&tgt, &by_secondary, one(), Mode::PrimTgt).diff, vec![0, 0, 0, 0]);
    assert_eq!(run(&tgt, &by_supplementary, one(), Mode::PrimTgt).diff, vec![0, 0, 0, 0]);
    assert_eq!(run(&tgt, &neither, one(), Mode::PrimTgt).diff, vec![1, 0, 0, 0]);
}

#[test]
fn prim_supp_rescues_only_through_supplementary() {
    let tgt = [line("r", 0, "chr1", 100, 60, 50)];
    let by_secondary = [line("r", 0, "chr7", 1, 60, 50), line("r", 256, "chr1", 110, 0, 50)];
    let by_supplementary = [line("r", 0, "chr7", 1, 60, 50), line("r", 2048, "chr1", 90, 0, 20)];
    assert_eq!(run(&tgt, &by_secondary, one(), Mode::PrimSupp).diff, vec![1, 0, 0, 0]);
    assert_eq!(run(&tgt, &by_supplementary, one(), Mode::PrimSupp).diff, vec![0, 0, 0, 0]);
}

#[test]
fn classify_gives_each_outcome() {
    let t = records(&[
        line("a", 4, "*", 0, 0, 5),
        line("b", 4, "*", 0, 0, 5),
        line("c", 0, "chr1", 10, 1, 5),
        line("d", 0, "chr1", 10, 1, 5),
        line("e", 0, "chr1", 10, 1, 5),
    ]);
    let s = records(&[
        line("a", 4, "*", 0, 0, 5),
        line("b", 0, "chr1", 10, 1, 5),
        line("c", 4, "*", 0, 0, 5),
        line("d", 0, "chr1", 12, 1, 5),
        line("e", 0, "chr1", 30, 1, 5),
    ]);
    let f = one();
    assert_eq!(classify(&t[0], &s[0], Mode::All, &f), Outcome::Concordant);
    assert_eq!(classify(&t[1], &s[1], Mode::All, &f), Outcome::Gain);
    assert_eq!(classify(&t[2], &s[2], Mode::All, &f), Outcome::Loss);
    assert_eq!(classify(&t[3], &s[3], Mode::All, &f), Outcome::Concordant);
    assert_eq!(classify(&t[4], &s[4], Mode::All, &f), Outcome::Discordant);
}

#[test]
fn tolerance_rounds_up() {
    assert_eq!(tolerance(&DistanceFraction { num: 1, den: 10 }, 51), 6);
    assert_eq!(tolerance(&DistanceFraction { num: 1, den: 10 }, 50), 5);
    assert_eq!(tolerance(&DistanceFraction { num: 10, den: 10 }, 50), 50);
    assert_eq!(tolerance(&DistanceFraction { num: 0, den: 1 }, 50), 0);
    assert_eq!(tolerance(&DistanceFraction { num: 3, den: 2 }, 7), 11);
    assert_eq!(tolerance(&DistanceFraction { num: u32::MAX, den: 1 }, u32::MAX), 0xffff_fffe_0000_0001);
}

#[test]
fn every_score_has_one_bucket() {
    let q = QUALITIES.to_vec();
    assert_eq!(bucket_index(&q, 255), Some(0));
    assert_eq!(bucket_index(&q, 60), Some(0));
    assert_eq!(bucket_index(&q, 59), Some(1));
    assert_eq!(bucket_index(&q, 10), Some(1));
    assert_eq!(bucket_index(&q, 9), Some(2));
    assert_eq!(bucket_index(&q, 1), Some(2));
    assert_eq!(bucket_index(&q, 0), Some(3));
    for score in 0..=255u8 {
        assert!(bucket_index(&q, score).is_some());
    }
}

#[test]
fn score_below_every_threshold_has_no_bucket() {
    assert_eq!(bucket_index(&vec![60, 10], 5), None);
    assert_eq!(bucket_index(&vec![], 5), None);
}

#[test]
fn counter_counts_only_the_first_bucket() {
    let q = QUALITIES.to_vec();
    let mut count = vec![0usize; 4];
    increase_counter(&mut count, &q, 30);
    increase_counter(&mut count, &q, 60);
    increase_counter(&mut count, &q, 0);
    assert_eq!(count, vec![1, 1, 0, 1]);
    let mut none = vec![0usize; 2];
    increase_counter(&mut none, &vec![60, 10], 3);
    assert_eq!(none, vec![0, 0]);
}
