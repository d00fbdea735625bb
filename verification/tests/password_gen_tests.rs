use rand::SeedableRng;
use rand_chacha::ChaCha20Rng;
use secpass::password_gen::{generate, generate_with, PasswordOptions, MIN_GENERATED_PASSWORD_LEN};

#[test]
fn generated_password_has_requested_length() {
    let opts = PasswordOptions::default();
    assert_eq!(generate(&opts).unwrap().len(), opts.length);
}

#[test]
fn generated_password_respects_minimum_length() {
    let opts = PasswordOptions {
        length: 1,
        ..PasswordOptions::default()
    };
    assert_eq!(generate(&opts).unwrap().len(), MIN_GENERATED_PASSWORD_LEN);
}

#[test]
fn generated_password_respects_maximum_length() {
    let opts = PasswordOptions { length: 1000, ..PasswordOptions::default() };
    assert_eq!(generate(&opts).unwrap().len(), 128);
}

#[test]
fn every_enabled_class_is_present() {
    for _ in 0..20 {
        let p = generate(&PasswordOptions::default()).unwrap();
        assert!(p.bytes().any(|b| b.is_ascii_lowercase()));
        assert!(p.bytes().any(|b| b.is_ascii_uppercase()));
        assert!(p.bytes().any(|b| b.is_ascii_digit()));
        assert!(p.bytes().any(|b| b"!@#$%^&*()-_=+[]{}|;:,.<>?".contains(&b)));
    }
}

#[test]
fn only_lowercase_when_other_classes_are_off() {
    let opts = PasswordOptions {
        length: 40,
        use_uppercase: false,
        use_digits: false,
        use_symbols: false,
    };
    let p = generate(&opts).unwrap();
    assert_eq!(p.len(), 40);
    assert!(p.bytes().all(|b| b.is_ascii_lowercase()));
}

#[test]
fn digits_only_added_when_enabled() {
    let opts = PasswordOptions { length: 64, use_uppercase: false, use_digits: true, use_symbols: false };
    let p = generate(&opts).unwrap();
    assert!(p.bytes().all(|b| b.is_ascii_lowercase() || b.is_ascii_digit()));
    assert!(p.bytes().any(|b| b.is_ascii_digit()));
}

#[test]
fn seeded_generator_gives_the_clamped_length_and_every_class() {
    let mut rng = ChaCha20Rng::seed_from_u64(7);
    let opts = PasswordOptions::default();
    let p = generate_with(&opts, &mut rng);
    assert_eq!(p.len(), 20);
    assert!(p.is_ascii());
    assert!(p.bytes().any(|b| b.is_ascii_lowercase()));
    assert!(p.bytes().any(|b| b.is_ascii_uppercase()));
    assert!(p.bytes().any(|b| b.is_ascii_digit()));
    assert!(p.bytes().any(|b| b"!@#$%^&*()-_=+[]{}|;:,.<>?".contains(&b)));
    let short = PasswordOptions { length: 0, ..PasswordOptions::default() };
    assert_eq!(generate_with(&short, &mut rng).len(), 8);
    let long = PasswordOptions { length: usize::MAX, ..PasswordOptions::default() };
    assert_eq!(generate_with(&long, &mut rng).len(), 128);
    // The same seed draws the same password.
    let again = generate_with(&opts, &mut ChaCha20Rng::seed_from_u64(7));
    assert_eq!(again, p);
}
