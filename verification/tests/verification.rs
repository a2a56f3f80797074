use transfer_plan::verify::{hash_file, verify_transfer, VERIFICATION_SIZE_LIMIT};

fn hex(bytes: &[u8]) -> String {
    bytes.iter().map(|b| format!("{:02x}", b)).collect()
}

#[test]
fn digests_are_known() {
    let empty = hash_file(&vec![], 0).unwrap();
    assert_eq!(
        hex(&empty),
        "e3b0c44298fc1c149afbf4c8996fb92427ae41e4649b934ca495991b7852b855"
    );
    let abc = hash_file(&vec![b"abc".to_vec()], 3).unwrap();
    assert_eq!(
        hex(&abc),
        "ba7816bf8f01cfea414140de5dae2223b00361a396177a9cb410ff61f20015ad"
    );
}

#[test]
fn cuts_do_not_matter() {
    let whole = hash_file(&vec![b"hello transfer-plan".to_vec()], 19).unwrap();
    let cut = hash_file(
        &vec![b"hello ".to_vec(), vec![], b"transfer".to_vec(), b"-plan".to_vec()],
        19,
    )
    .unwrap();
    assert_eq!(whole, cut);
}

#[test]
fn copies_are_compared() {
    let a = vec![b"ab".to_vec(), b"c".to_vec()];
    let b = vec![b"abc".to_vec()];
    let c = vec![b"abd".to_vec()];
    assert_eq!(verify_transfer(&a, &b, 3), Ok(true));
    assert_eq!(verify_transfer(&a, &c, 3), Ok(false));
}

#[test]
fn large_files_are_not_hashed() {
    let e = hash_file(&vec![], VERIFICATION_SIZE_LIMIT + 1).unwrap_err();
    assert_eq!(
        e.message(),
        "File too large for verification (10MB > 10MB limit)"
    );
    let e = hash_file(&vec![], 50 * 1_048_576).unwrap_err();
    assert_eq!(
        e.message(),
        "File too large for verification (50MB > 10MB limit)"
    );
    let a = vec![b"a".to_vec()];
    let b = vec![b"b".to_vec()];
    assert_eq!(verify_transfer(&a, &b, VERIFICATION_SIZE_LIMIT), Ok(false));
    assert_eq!(verify_transfer(&a, &b, VERIFICATION_SIZE_LIMIT + 1), Ok(true));
}
