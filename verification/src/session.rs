//! The decisions of the desktop front end that do not depend on its widgets:
//! checking master-password input, preparing an entry's TOTP secret for
//! saving, what the entry views show, and the auto-lock and clipboard timers.
use vstd::prelude::*;
use vstd::string::StringExecFns;
use vstd::utf8::encode_utf8;
use crate::text::{push_char, str_eq, trimmed};
use crate::totp::{normalize_secret, normalized_secret, TotpError};
use crate::vault::{master_password_ok, validate_master_password, weak_password_message};

verus! {

/// An unlocked vault that has seen no input for this long (5 minutes) is
/// locked.
pub const AUTO_LOCK_AFTER_MS: u64 = 300_000;
/// Copied text is cleared from the clipboard after this long (30 seconds).
pub const CLIPBOARD_CLEAR_AFTER_MS: u64 = 30_000;

/// What the front end does on a frame about its two timers.
#[derive(Debug, Clone, Copy, PartialEq, Eq, Structural)]
pub struct TimerActions {
    /// Lock the vault (which also clears the clipboard).
    pub lock: bool,
    /// Clear the clipboard.
    pub clear_clipboard: bool,
    /// Ask for another frame within a second, to clear the clipboard on time.
    pub repaint_soon: bool,
}

/// The timer decisions of one frame: `on_vault_screen` tells whether an
/// unlocked vault is shown, `idle_ms` how long ago the last input came, and
/// `clipboard_age_ms` how long ago text was copied, if the clipboard is still
/// to be cleared.
pub fn timer_step(on_vault_screen: bool, idle_ms: u64, clipboard_age_ms: Option<u64>) -> (r:
    TimerActions)
    ensures
        r.lock == (on_vault_screen && idle_ms >= AUTO_LOCK_AFTER_MS),
        r.clear_clipboard == (r.lock || (clipboard_age_ms matches Some(a) && a
            >= CLIPBOARD_CLEAR_AFTER_MS)),
        r.repaint_soon == (!r.lock && (clipboard_age_ms matches Some(a) && a
            < CLIPBOARD_CLEAR_AFTER_MS)),
{
    let lock = on_vault_screen && idle_ms >= AUTO_LOCK_AFTER_MS;
    if lock {
        return TimerActions { lock: true, clear_clipboard: true, repaint_soon: false };
    }
    match clipboard_age_ms {
        Some(a) => if a >= CLIPBOARD_CLEAR_AFTER_MS {
            TimerActions { lock: false, clear_clipboard: true, repaint_soon: false }
        } else {
            TimerActions { lock: false, clear_clipboard: false, repaint_soon: true }
        },
        None => TimerActions { lock: false, clear_clipboard: false, repaint_soon: false },
    }
}

/// The screen shown once the vault is locked.
#[derive(Debug, Clone, Copy, PartialEq, Eq, Structural)]
pub enum LockedScreen {
    /// Asks for the password of the vault file that is still chosen.
    Unlock,
    /// Asks for a vault file.
    Welcome,
}

/// After locking, the unlock screen where a vault file is still chosen, the
/// welcome screen otherwise.
pub fn screen_after_lock(file_pending: bool) -> (r: LockedScreen)
    ensures
        r == (if file_pending {
            LockedScreen::Unlock
        } else {
            LockedScreen::Welcome
        }),
{
    if file_pending {
        LockedScreen::Unlock
    } else {
        LockedScreen::Welcome
    }
}

/// A password shown masked: one bullet per byte of its UTF-8 encoding, at
/// most 24.
pub open spec fn masked(pw: Seq<char>) -> Seq<char> {
    let n = encode_utf8(pw).len() as usize;
    Seq::new(if n < 24 { n as nat } else { 24 }, |i: int| '•')
}

/// The password as the entry view shows it.
pub fn mask_password(pw: &str) -> (r: String)
    ensures
        r@ == masked(pw@),
{
    let len = pw.len();
    let n: usize = if len < 24 {
        len
    } else {
        24
    };
    let mut out = String::new();
    let mut i: usize = 0;
    while i < n
        invariant
            i <= n,
            n <= 24,
            out@ == Seq::new(i as nat, |k: int| '•'),
        decreases n - i,
    {
        push_char(&mut out, '•');
        i = i + 1;
        assert(out@ =~= Seq::new(i as nat, |k: int| '•'));
    }
    assert(out@ =~= masked(pw@));
    out
}

/// The title as the delete confirmation names it.
pub fn display_title(title: &str) -> (r: String)
    ensures
        r@ == (if title@.len() == 0 {
            "(Untitled)"@
        } else {
            title@
        }),
{
    if title.is_empty() {
        String::from_str("(Untitled)")
    } else {
        String::from_str(title)
    }
}

/// What a new master password and its confirmation are told: the policy
/// message for a too-short password, then "Passwords do not match." for a
/// confirmation that differs.
pub open spec fn new_password_problem(password: Seq<char>, confirm: Seq<char>) -> Option<Seq<char>> {
    if !master_password_ok(password) {
        Some(weak_password_message())
    } else if password != confirm {
        Some("Passwords do not match."@)
    } else {
        None
    }
}

/// What the unlock screen is told before the vault is created or opened:
/// an empty password is refused; a new vault's password is checked with its
/// confirmation.
pub open spec fn unlock_problem(password: Seq<char>, confirm: Seq<char>, is_creating: bool) -> Option<
    Seq<char>,
> {
    if password.len() == 0 {
        Some("Password cannot be empty."@)
    } else if is_creating {
        new_password_problem(password, confirm)
    } else {
        None
    }
}

/// `r` holds the message that `s` describes.
pub open spec fn same_message(r: Result<(), String>, s: Option<Seq<char>>) -> bool {
    match (r, s) {
        (Ok(()), None) => true,
        (Err(m), Some(t)) => m@ == t,
        _ => false,
    }
}

/// Checks a new master password and its confirmation.
pub fn check_new_password(password: &str, confirm: &str) -> (r: Result<(), String>)
    ensures
        same_message(r, new_password_problem(password@, confirm@)),
{
    match validate_master_password(password) {
        Ok(()) => {},
        Err(e) => return Err(e.message()),
    }
    if !str_eq(password, confirm) {
        return Err(String::from_str("Passwords do not match."));
    }
    Ok(())
}

/// Checks the unlock screen's input before the vault is created or opened.
pub fn check_unlock_input(password: &str, confirm: &str, is_creating: bool) -> (r: Result<(), String>)
    ensures
        same_message(r, unlock_problem(password@, confirm@, is_creating)),
{
    if password.is_empty() {
        return Err(String::from_str("Password cannot be empty."));
    }
    if is_creating {
        return check_new_password(password, confirm);
    }
    Ok(())
}

/// The TOTP secret an entry is saved with: none for a blank secret, else the
/// normalized secret; an invalid secret refuses the save.
pub open spec fn saved_totp_secret(secret: Option<Seq<char>>) -> Result<Option<Seq<char>>, ()> {
    match secret {
        None => Ok(None),
        Some(s) => if trimmed(s).len() == 0 {
            Ok(None)
        } else {
            match normalized_secret(s) {
                Some(n) => Ok(Some(n)),
                None => Err(()),
            }
        },
    }
}

/// Prepares an entry's TOTP secret for saving (see `saved_totp_secret`).
pub fn prepare_totp_secret(secret: Option<String>) -> (r: Result<Option<String>, TotpError>)
    ensures
        match (r, saved_totp_secret(
            match secret {
                Some(s) => Some(s@),
                None => None,
            },
        )) {
            (Ok(None), Ok(None)) => true,
            (Ok(Some(x)), Ok(Some(y))) => x@ == y,
            (Err(e), Err(())) => e matches TotpError::InvalidSecret,
            _ => false,
        },
{
    match secret {
        None => Ok(None),
        Some(s) => {
            if s.as_str().trim().is_empty() {
                Ok(None)
            } else {
                match normalize_secret(s.as_str()) {
                    Some(n) => Ok(Some(n)),
                    None => Err(TotpError::InvalidSecret),
                }
            }
        },
    }
}

} // verus!
