use logquest::security::{is_crypto_available, machine_key, sign, verify, MachineKey};

#[test]
fn test_sign_and_verify() {
    assert!(is_crypto_available());
    let key = machine_key().unwrap();
    let some_data = "This is a test";
    let sig = sign(&key, some_data);
    assert!(verify(&key, some_data, &sig));
}

#[test]
fn signature_does_not_cover_other_data_or_keys() {
    let key = MachineKey::from_machine_id("0123456789abcdef");
    let other = MachineKey::from_machine_id("fedcba9876543210");
    let sig = sign(&key, "echo hello");
    assert!(verify(&key, "echo hello", &sig));
    assert!(!verify(&key, "echo hellO", &sig));
    assert!(!verify(&other, "echo hello", &sig));
    assert!(!verify(&key, "echo hello", "not base64 at all!"));
    assert_ne!(sig, "echo hello");
    assert_eq!(sign(&key, "echo hello"), sig);
}
