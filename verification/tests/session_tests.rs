use secpass::session::{
    screen_after_lock, timer_step, LockedScreen, TimerActions, check_new_password, check_unlock_input, display_title, mask_password, prepare_totp_secret,
};
use secpass::totp::TotpError;

#[test]
fn masking_counts_bytes_up_to_24() {
    assert_eq!(mask_password(""), "");
    assert_eq!(mask_password("abc"), "•••");
    assert_eq!(mask_password("é"), "••");
    assert_eq!(mask_password(&"x".repeat(40)), "•".repeat(24));
}

#[test]
fn untitled_entries() {
    assert_eq!(display_title(""), "(Untitled)");
    assert_eq!(display_title("Mail"), "Mail");
}

#[test]
fn unlock_input_checks() {
    assert_eq!(check_unlock_input("", "", false), Err("Password cannot be empty.".to_string()));
    assert_eq!(check_unlock_input("anything", "", false), Ok(()));
    assert!(check_unlock_input("short", "short", true).is_err());
    assert_eq!(
        check_unlock_input("a long enough password", "a different one", true),
        Err("Passwords do not match.".to_string())
    );
    assert_eq!(check_unlock_input("a long enough password", "a long enough password", true), Ok(()));
    assert_eq!(check_new_password("a long enough password", "a long enough password"), Ok(()));
}

#[test]
fn totp_secret_preparation() {
    assert_eq!(prepare_totp_secret(None).unwrap(), None);
    assert_eq!(prepare_totp_secret(Some("   ".to_string())).unwrap(), None);
    assert_eq!(
        prepare_totp_secret(Some("jbswy3dpehpk3pxp".to_string())).unwrap(),
        Some("JBSWY3DPEHPK3PXP".to_string())
    );
    assert!(matches!(
        prepare_totp_secret(Some("not a secret".to_string())),
        Err(TotpError::InvalidSecret)
    ));
}

#[test]
fn timers_lock_after_five_idle_minutes_and_clear_the_clipboard_after_thirty_seconds() {
    let none = TimerActions { lock: false, clear_clipboard: false, repaint_soon: false };
    assert_eq!(timer_step(true, 299_999, None), none);
    assert_eq!(
        timer_step(true, 300_000, Some(5_000)),
        TimerActions { lock: true, clear_clipboard: true, repaint_soon: false }
    );
    // Locking only applies while an unlocked vault is shown.
    assert_eq!(timer_step(false, 10_000_000, None), none);
    assert_eq!(
        timer_step(false, 0, Some(29_999)),
        TimerActions { lock: false, clear_clipboard: false, repaint_soon: true }
    );
    assert_eq!(
        timer_step(true, 0, Some(30_000)),
        TimerActions { lock: false, clear_clipboard: true, repaint_soon: false }
    );
}

#[test]
fn locking_returns_to_unlock_only_with_a_chosen_file() {
    assert_eq!(screen_after_lock(true), LockedScreen::Unlock);
    assert_eq!(screen_after_lock(false), LockedScreen::Welcome);
}
