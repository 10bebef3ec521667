use httpbin_rs::sampling::select;
use httpbin_rs::specifier::{parse, Candidate, WEIGHT_ONE};

#[test]
fn parses_a_single_code_with_the_default_weight() {
    let cands = parse("200").unwrap();
    assert_eq!(
        cands,
        vec![Candidate {
            code: 200,
            weight: WEIGHT_ONE
        }]
    );
}

#[test]
fn parses_a_list_with_explicit_weights() {
    let cands = parse("200:0.1,201:0.25,202:0.75,204:1").unwrap();
    assert_eq!(
        cands,
        vec![
            Candidate {
                code: 200,
                weight: 100_000
            },
            Candidate {
                code: 201,
                weight: 250_000
            },
            Candidate {
                code: 202,
                weight: 750_000
            },
            Candidate {
                code: 204,
                weight: 1_000_000
            },
        ]
    );
}

#[test]
fn parses_a_list_with_implicit_weights() {
    let cands = parse("200,201,202,204").unwrap();
    assert_eq!(cands.len(), 4);
    for (cand, code) in cands.iter().zip([200u16, 201, 202, 204]) {
        assert_eq!(cand.code, code);
        assert_eq!(cand.weight, WEIGHT_ONE);
    }
}

#[test]
fn unparseable_weights_fall_back_to_the_default() {
    for specifier in [
        "200:jalapeno,201",
        "200:,201",
        "200:1:2,201",
        "200:1.2.3,201",
        "200:-1,201",
        "200:.,201",
        "200:1e3,201",
        "200: 1,201",
    ] {
        let cands = parse(specifier).unwrap();
        assert_eq!(cands[0].weight, WEIGHT_ONE, "specifier {:?}", specifier);
        assert_eq!(cands[0].code, 200);
        assert_eq!(cands[1].code, 201);
    }
}

#[test]
fn weights_keep_a_millionth_of_resolution() {
    let cands = parse("200:2.5,201:0.000001,202:3.,203:.5").unwrap();
    assert_eq!(cands[0].weight, 2_500_000);
    assert_eq!(cands[1].weight, 1);
    assert_eq!(cands[2].weight, 3_000_000);
    assert_eq!(cands[3].weight, 500_000);
}

#[test]
fn weights_past_the_resolution_or_range_fall_back() {
    let cands = parse("200:0.0000001,201:0,202:1000001,203:1000000").unwrap();
    // below a millionth
    assert_eq!(cands[0].weight, WEIGHT_ONE);
    // zero is not positive
    assert_eq!(cands[1].weight, WEIGHT_ONE);
    // over the largest representable weight
    assert_eq!(cands[2].weight, WEIGHT_ONE);
    // the largest representable weight itself
    assert_eq!(cands[3].weight, 1_000_000_000_000);
}

#[test]
fn weight_digits_past_the_sixth_are_dropped() {
    let cands = parse("200:0.1234567,201").unwrap();
    assert_eq!(cands[0].weight, 123_456);
}

#[test]
fn invalid_specifiers_are_rejected_whole() {
    assert!(parse("jalapeno").is_err());
    assert!(parse("200,201,204,jalapeno").is_err());
    assert!(parse("").is_err());
    assert!(parse(",").is_err());
    assert!(parse("200,,204").is_err());
    assert!(parse("200:0.5").is_err());
}

#[test]
fn a_single_candidate_is_always_selected() {
    let cands = parse("418").unwrap();
    for _ in 0..100 {
        assert_eq!(select(&cands), 418);
    }
}

#[test]
fn selection_only_yields_listed_codes() {
    let cands = parse("301,418,503").unwrap();
    for _ in 0..200 {
        let code = select(&cands);
        assert!(code == 301 || code == 418 || code == 503);
    }
}
