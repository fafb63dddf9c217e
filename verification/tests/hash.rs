use luisa_compute_ir::hash::{digest_name, sha256};

#[test]
fn name_of_the_empty_source() {
    assert_eq!(sha256(""), "A47DEQpj8HBSam__TImWm_5JCeuQeRkm5NMpJWZG3hSuFU");
}

#[test]
fn name_of_a_source() {
    // SHA-256 of "abc" is ba7816bf 8f01cfea 414140de 5dae2223 b00361a3 96177a9c b410ff61 f20015ad
    assert_eq!(sha256("abc"), "AungWv48Bzm_pBQUDeXa4iI7ADYaOWF3qctBD_YfIAFa0");
}

#[test]
fn dashes_are_replaced() {
    assert_eq!(digest_name("a-b--c"), "Aam_bm_m_c");
    assert_eq!(digest_name(""), "A");
    assert_eq!(digest_name("_x"), "A_x");
}
