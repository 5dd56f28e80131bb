//! The matcher's tolerance rules on concrete bytecodes.

use verification::matcher::{
    ByteSpan, LinkReference, CompiledContract, creation_outcome, deployed_match,
    strip_metadata, mask_spans, substitute_links, find_match,
};

fn span(offset: usize, length: usize) -> ByteSpan {
    ByteSpan { offset, length }
}

#[test]
fn creation_prefix_yields_constructor_args() {
    let candidate = vec![0x60, 0x80, 0x60, 0x40];
    let mut claimed = candidate.clone();
    claimed.extend_from_slice(&[0xca, 0xfe]);
    let outcome = creation_outcome(&candidate, &claimed);
    assert_eq!(outcome, Some(Some(vec![0xca, 0xfe])));
}

#[test]
fn creation_exact_match_has_no_args() {
    let candidate = vec![0x60, 0x80];
    let claimed = vec![0x60, 0x80];
    assert_eq!(creation_outcome(&candidate, &claimed), Some(None));
}

#[test]
fn creation_mismatch_is_no_match() {
    // Trailing [0xff, 0xff] encodes a metadata length far beyond the
    // code, so nothing is stripped and the bytes must differ plainly.
    let candidate = vec![0x60, 0x80, 0xff, 0xff];
    let claimed = vec![0x61, 0x80, 0xff, 0xff];
    assert_eq!(creation_outcome(&candidate, &claimed), None);
}

#[test]
fn metadata_difference_is_tolerated() {
    // Same leading code, different trailing metadata sections
    // (payload plus two big-endian length bytes).
    let a = vec![1, 2, 3, 0xaa, 0x00, 0x01];
    let b = vec![1, 2, 3, 0xbb, 0xcc, 0x00, 0x02];
    assert_eq!(strip_metadata(&a), vec![1, 2, 3]);
    assert_eq!(strip_metadata(&b), vec![1, 2, 3]);
    assert!(deployed_match(&a, &b, &Vec::new()));
    assert_eq!(creation_outcome(&a, &b), Some(None));
}

#[test]
fn immutable_slots_are_masked() {
    let a = vec![1, 2, 3, 4];
    let b = vec![1, 9, 3, 8];
    let spans = vec![span(1, 1), span(3, 1)];
    assert_eq!(mask_spans(&a, &spans), vec![1, 0, 3, 0]);
    assert_eq!(mask_spans(&b, &spans), vec![1, 0, 3, 0]);
    assert!(deployed_match(&a, &b, &spans));
    assert!(!deployed_match(&a, &b, &Vec::new()));
}

#[test]
fn library_placeholders_are_substituted() {
    let code = vec![0x10, 0, 0, 0x20];
    let links = vec![LinkReference {
        library_name: "Lib".to_string(),
        span: span(1, 2),
    }];
    let libs = vec![("Lib".to_string(), vec![0xde, 0xad])];
    assert_eq!(substitute_links(&code, &links, &libs), vec![0x10, 0xde, 0xad, 0x20]);

    // An unknown library leaves the placeholder in place.
    let other = vec![("Other".to_string(), vec![0xde, 0xad])];
    assert_eq!(substitute_links(&code, &links, &other), code);
}

fn plain_contract(name: &str, creation: Vec<u8>, deployed: Vec<u8>) -> CompiledContract {
    CompiledContract {
        file_path: "File.sol".to_string(),
        contract_name: name.to_string(),
        creation_code: creation,
        deployed_code: deployed,
        abi: "[]".to_string(),
        source_map: String::new(),
        creation_link_references: Vec::new(),
        deployed_link_references: Vec::new(),
        immutable_references: Vec::new(),
    }
}

#[test]
fn first_matching_candidate_wins() {
    let deployed = vec![9, 9, 0xff, 0xff];
    let contracts = vec![
        plain_contract("A", vec![1, 0xff, 0xff], vec![1, 2, 0xff, 0xff]),
        plain_contract("B", vec![2, 0xff, 0xff], deployed.clone()),
        plain_contract("C", vec![3, 0xff, 0xff], deployed.clone()),
    ];
    let found = find_match(&contracts, &Vec::new(), &None, &deployed).unwrap();
    assert_eq!(found.contract_name, "B");
    assert_eq!(found.constructor_args, None);
}

#[test]
fn no_candidate_matches() {
    let contracts = vec![plain_contract("A", vec![1], vec![1, 2, 0xff, 0xff])];
    let deployed = vec![7, 7, 0xff, 0xff];
    assert!(find_match(&contracts, &Vec::new(), &None, &deployed).is_none());
}

#[test]
fn creation_and_deployed_must_both_match() {
    let deployed = vec![5, 6, 0xff, 0xff];
    let contract = plain_contract("A", vec![1, 2, 0xff, 0xff], deployed.clone());
    let contracts = vec![contract];

    // Deployed matches, creation prefix holds: args recovered.
    let claimed_creation = vec![1, 2, 0xff, 0xff, 0xca, 0xfe];
    let found =
        find_match(&contracts, &Vec::new(), &Some(claimed_creation), &deployed).unwrap();
    assert_eq!(found.constructor_args, Some(vec![0xca, 0xfe]));

    // Deployed matches but creation differs: no match.
    let wrong_creation = vec![9, 9, 0xff, 0xff];
    assert!(find_match(&contracts, &Vec::new(), &Some(wrong_creation), &deployed).is_none());
}
