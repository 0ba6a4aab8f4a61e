use escrow::HexSlice;
use escrow::Safe;
use escrow::SafeRepresentation;
use escrow::Vault;

fn repr(window: u64, unlocks: Option<u32>, secrets: &str) -> SafeRepresentation {
    SafeRepresentation {
        open_duration: window,
        unlocks_left: unlocks,
        nonce: String::from("n"),
        secrets: String::from(secrets),
    }
}

#[test]
fn hex_rendering_is_fixed_width_lowercase() {
    let bytes: Vec<u8> = vec![0x00, 0x1a, 0xff, 0x07, 0xb0];
    let s = HexSlice::new(bytes.as_slice()).to_hex_string();
    assert_eq!(s, "001aff07b0");
}

#[test]
fn hex_rendering_of_empty_slice_is_empty() {
    let bytes: Vec<u8> = vec![];
    let s = HexSlice::new(bytes.as_slice()).to_hex_string();
    assert_eq!(s, "");
}

#[test]
fn from_representation_defaults_missing_unlocks_to_one() {
    let safe = Safe::from_representation(&repr(60, None, "s"), 5);
    assert_eq!(safe.created_at, 5);
    assert_eq!(safe.open_duration, 60);
    assert_eq!(safe.unlocks_left, 1);
    assert_eq!(safe.secrets, "s");
}

#[test]
fn to_representation_withholds_the_budget() {
    let safe = Safe::from_representation(&repr(60, Some(4), "s"), 5);
    let r = safe.to_representation();
    assert_eq!(r.open_duration, 60);
    assert!(r.unlocks_left.is_none());
    assert_eq!(r.nonce, "n");
    assert_eq!(r.secrets, "s");
}

#[test]
fn deposited_handle_is_thirty_two_hex_chars() {
    let mut vault = Vault::new();
    let handle = vault.deposit(&repr(60, Some(1), "s"), 0).unwrap();
    assert_eq!(handle.len(), 32);
    assert!(handle.chars().all(|c| c.is_ascii_hexdigit() && !c.is_ascii_uppercase()));
    assert!(vault.safe_exists(&handle));
}

#[test]
fn deposit_succeeds_whenever_no_live_handle_could_collide() {
    let mut vault = Vault::new();
    assert!(vault.deposit(&repr(60, Some(1), "a"), 0).is_some());
    // handles stored under short names cannot collide with a drawn handle
    vault.lock_safe(String::from("short"), Safe::from_representation(&repr(60, Some(1), "b"), 0));
    assert!(vault.deposit(&repr(60, Some(1), "c"), 0).is_some());
}

#[test]
fn deposited_handles_are_pairwise_distinct() {
    let mut vault = Vault::new();
    let mut handles: Vec<String> = Vec::new();
    for _ in 0..50 {
        handles.push(vault.deposit(&repr(60, Some(1), "s"), 0).unwrap());
    }
    for i in 0..handles.len() {
        for j in 0..i {
            assert_ne!(handles[i], handles[j]);
        }
    }
}

#[test]
fn budget_of_k_allows_exactly_k_redemptions() {
    let k: u32 = 3;
    let mut vault = Vault::new();
    let handle = vault.deposit(&repr(3600, Some(k), "top"), 100).unwrap();
    for n in 0..k {
        let safe = vault.unlock_safe(&handle, 200).expect("within the budget");
        assert_eq!(safe.secrets, "top");
        assert_eq!(safe.unlocks_left, k - n - 1);
    }
    assert!(vault.unlock_safe(&handle, 200).is_none());
    assert!(!vault.safe_exists(&handle));
}

#[test]
fn zero_window_is_never_redeemable() {
    let mut vault = Vault::new();
    let handle = vault.deposit(&repr(0, Some(5), "gone"), 100).unwrap();
    assert!(vault.safe_exists(&handle));
    assert!(vault.unlock_safe(&handle, 100).is_none());
    assert!(!vault.safe_exists(&handle));
}

#[test]
fn elapsed_window_evicts_without_revealing() {
    let mut vault = Vault::new();
    let handle = vault.deposit(&repr(60, Some(5), "late"), 100).unwrap();
    // at the boundary the window has elapsed
    assert!(vault.unlock_safe(&handle, 160).is_none());
    assert!(!vault.safe_exists(&handle));
}

#[test]
fn redemption_just_inside_the_window_succeeds() {
    let mut vault = Vault::new();
    let handle = vault.deposit(&repr(60, Some(1), "just"), 100).unwrap();
    let safe = vault.unlock_safe(&handle, 159).expect("still inside the window");
    assert_eq!(safe.secrets, "just");
}

#[test]
fn zero_unlock_budget_is_already_exhausted() {
    let mut vault = Vault::new();
    let handle = vault.deposit(&repr(3600, Some(0), "none"), 100).unwrap();
    assert!(vault.safe_exists(&handle));
    assert!(vault.unlock_safe(&handle, 100).is_none());
    assert!(!vault.safe_exists(&handle));
}

#[test]
fn eviction_is_final() {
    let mut vault = Vault::new();
    let by_budget = vault.deposit(&repr(3600, Some(1), "a"), 0).unwrap();
    let by_time = vault.deposit(&repr(10, Some(1), "b"), 0).unwrap();
    assert!(vault.unlock_safe(&by_budget, 1).is_some());
    assert!(vault.unlock_safe(&by_time, 50).is_none());
    for now in [2, 100, 1000] {
        assert!(vault.unlock_safe(&by_budget, now).is_none());
        assert!(vault.unlock_safe(&by_time, now).is_none());
    }
}

#[test]
fn unknown_handle_yields_nothing() {
    let mut vault = Vault::new();
    assert!(vault.unlock_safe("0123456789abcdef0123456789abcdef", 0).is_none());
    assert!(vault.unlock_safe("", 0).is_none());
}

#[test]
fn handles_are_isolated_from_each_other() {
    let mut vault = Vault::new();
    let a = vault.deposit(&repr(3600, Some(2), "alpha"), 0).unwrap();
    let b = vault.deposit(&repr(3600, Some(2), "beta"), 0).unwrap();
    // draining and evicting a leaves b exactly as it was
    assert!(vault.unlock_safe(&a, 1).is_some());
    assert!(vault.unlock_safe(&a, 2).is_some());
    assert!(vault.unlock_safe(&a, 3).is_none());
    assert!(vault.safe_exists(&b));
    let safe_b = vault.unlock_safe(&b, 4).expect("untouched by operations on a");
    assert_eq!(safe_b.secrets, "beta");
    assert_eq!(safe_b.unlocks_left, 1);
}

#[test]
fn single_budget_yields_exactly_one_success() {
    let mut vault = Vault::new();
    let handle = vault.deposit(&repr(3600, Some(1), "once"), 0).unwrap();
    let mut successes: u32 = 0;
    for now in 1..20 {
        if let Some(safe) = vault.unlock_safe(&handle, now) {
            assert_eq!(safe.secrets, "once");
            successes += 1;
        }
    }
    assert_eq!(successes, 1);
}

#[test]
fn deposit_redeem_scenario() {
    let mut vault = Vault::new();
    let handle = vault.deposit(&repr(3600, Some(2), "p@ss"), 1000).unwrap();

    let first = vault.unlock_safe(&handle, 1001).expect("first redemption");
    assert_eq!(first.secrets, "p@ss");
    assert_eq!(first.unlocks_left, 1);
    assert_eq!(first.to_representation().secrets, "p@ss");

    let second = vault.unlock_safe(&handle, 1002).expect("second redemption");
    assert_eq!(second.secrets, "p@ss");
    assert_eq!(second.unlocks_left, 0);

    assert!(vault.unlock_safe(&handle, 1003).is_none());
    assert!(vault.unlock_safe("unknown", 1004).is_none());
}

#[test]
fn lock_safe_overwrites_an_existing_handle() {
    let mut vault = Vault::new();
    let first = Safe::from_representation(&repr(3600, Some(1), "old"), 0);
    let second = Safe::from_representation(&repr(3600, Some(1), "new"), 0);
    vault.lock_safe(String::from("k"), first);
    vault.lock_safe(String::from("k"), second);
    let got = vault.unlock_safe("k", 1).expect("still live");
    assert_eq!(got.secrets, "new");
    assert!(vault.unlock_safe("k", 1).is_none());
}
