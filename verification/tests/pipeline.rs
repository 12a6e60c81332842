use keysearch::rng::XorShift128;
use keysearch::search::{is_match, make_candidate, search_step, test_candidate, SearchConfig,
    StepOutcome};
use keysearch::sink::{format_record, RecordSink};

const KEY_ONE_ADDRESS: &str = "1BgGZ9tcN4rm9KBzDn7KprQz87SZ26SAMH";

#[test]
fn match_predicate_on_the_target_prefix() {
    let cfg = SearchConfig::standard();
    assert!(is_match("1PWoXXXXabcdefghijkmnopqrstuvwxyz", &cfg.target));
    assert!(!is_match("1QWoXXXXabcdefghijkmnopqrstuvwxyz", &cfg.target));
    assert!(!is_match("1PW", &cfg.target));
    assert!(is_match("1PWo", &cfg.target));
}

#[test]
fn candidates_have_the_documented_shape() {
    let cfg = SearchConfig::standard();
    let mut rng = XorShift128::new_lane(123_456_789, 0);
    for _ in 0..1000 {
        let c = make_candidate(&cfg, &mut rng);
        assert_eq!(c.len(), 36);
        assert_eq!(&c[..24], &cfg.prefix[..]);
        assert!(cfg.first_scale.contains(&c[24]));
        for j in 25..36 {
            assert!(cfg.scale.contains(&c[j]));
        }
    }
}

#[test]
fn candidate_construction_is_deterministic() {
    let cfg = SearchConfig::standard();
    let mut a = XorShift128::new([9, 8, 7, 6]);
    let mut b = XorShift128::new([9, 8, 7, 6]);
    for _ in 0..100 {
        assert_eq!(make_candidate(&cfg, &mut a), make_candidate(&cfg, &mut b));
    }
}

#[test]
fn test_candidate_reports_a_match_on_its_own_address_prefix() {
    // "2" decodes to the scalar 1, whose address is the published vector;
    // against a target that is its own first four characters the candidate
    // matches, against the production target it does not.
    match test_candidate(b"2", b"1BgG") {
        StepOutcome::Matched { address } => assert_eq!(address, KEY_ONE_ADDRESS),
        _ => panic!("expected a match"),
    }
    match test_candidate(b"2", b"1PWo") {
        StepOutcome::Unmatched { address } => assert_eq!(address, KEY_ONE_ADDRESS),
        _ => panic!("expected no match"),
    }
}

#[test]
fn test_candidate_rejects_bad_input() {
    // An out-of-alphabet character.
    assert!(matches!(test_candidate(b"10", b"1PWo"), StepOutcome::Rejected));
    // The zero scalar.
    assert!(matches!(test_candidate(b"1", b"1PWo"), StepOutcome::Rejected));
    // A decode overflow.
    assert!(matches!(test_candidate(&[b'z'; 44], b"1PWo"), StepOutcome::Rejected));
}

#[test]
fn search_step_produces_addresses_for_standard_candidates() {
    // Every standard candidate decodes to a small nonzero scalar, so the
    // pipeline always reaches an address.
    let cfg = SearchConfig::standard();
    let mut rng = XorShift128::new_lane(42, 3);
    for _ in 0..50 {
        let (candidate, outcome) = search_step(&cfg, &mut rng);
        assert_eq!(candidate.len(), 36);
        match outcome {
            StepOutcome::Matched { address } | StepOutcome::Unmatched { address } => {
                assert!(address.starts_with('1'));
            },
            StepOutcome::Rejected => panic!("a standard candidate never rejects"),
        }
    }
}

#[test]
fn record_format_is_two_labelled_lines_and_a_blank_separator() {
    let rec = format_record(b"11111111111111111111111223456789ABCD", "1PWoDummy");
    assert_eq!(
        rec,
        b"Number: 11111111111111111111111223456789ABCD\nAddress: 1PWoDummy\n\n".to_vec()
    );
}

#[test]
fn sink_keeps_every_record_whole_and_in_order() {
    // Eight lanes, a thousand records each, appended through the shared
    // sink: the log holds exactly the total count, every record whole.
    let mut sink = RecordSink::new();
    let mut expected: Vec<u8> = Vec::new();
    for lane in 0..8u32 {
        for i in 0..1000u32 {
            let number = format!("lane{}cand{}", lane, i);
            let address = format!("1PWoaddr{}x{}", lane, i);
            sink.append(number.as_bytes(), &address);
            expected.extend_from_slice(format_record(number.as_bytes(), &address).as_slice());
        }
    }
    assert_eq!(sink.count, 8000);
    assert_eq!(sink.data, expected);
    let text = String::from_utf8(sink.data.clone()).expect("ascii");
    assert_eq!(text.matches("Number: ").count(), 8000);
    assert_eq!(text.matches("Address: ").count(), 8000);
}
