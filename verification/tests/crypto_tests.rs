use zkcomp::crypto::EdDSA;

#[test]
fn test_ed_key() {
    let kp = EdDSA::<String>::init_key_pair();
    let sig = EdDSA::into("testing_cryo_key").sign_message(&kp);
    assert!(EdDSA::into("testing_cryo_key").verify_signature(
        &sig,
        &EdDSA::<String>::public_key(&kp),
    ));
}

#[test]
fn tampered_message_fails_verification() {
    let kp = EdDSA::<String>::init_key_pair();
    let puk = EdDSA::<String>::public_key(&kp);
    let sig = EdDSA::into("payload one").sign_message(&kp);
    assert!(!EdDSA::into("payload two").verify_signature(&sig, &puk));
}

#[test]
fn tampered_signature_fails_verification() {
    let kp = EdDSA::<String>::init_key_pair();
    let puk = EdDSA::<String>::public_key(&kp);
    let mut sig = EdDSA::into("payload").sign_message(&kp);
    assert_eq!(sig.len(), 64);
    sig[0] ^= 1;
    assert!(!EdDSA::into("payload").verify_signature(&sig, &puk));
}

#[test]
fn string_and_str_messages_sign_alike() {
    let kp = EdDSA::<String>::init_key_pair();
    let puk = EdDSA::<String>::public_key(&kp);
    let from_str_msg = EdDSA::into("the same text").sign_message(&kp);
    let from_string_msg = EdDSA::into(String::from("the same text")).sign_message(&kp);
    assert_eq!(from_str_msg, from_string_msg);
    assert!(EdDSA::into(String::from("the same text")).verify_signature(&from_str_msg, &puk));
}
