use social_wallet::{Address, SocialWallet, WalletError};

const OWNER: &str = "GDQP2KPQGKIHYJGXNUIYOMHARUARCA7DJT5FO2FFOOKY3B2WSQHG4W37";
const OTHER: &str = "GBRPYHIL2CI3FNQ4BXLFMNDLFJUNPU2HY3ZMFSHONUCEOASW7QC7OX2H";
const STRANGER: &str = "GCEZWKCA5VLDNRLN3RPRJMRZOX3Z6G5CHCGSNFHEYVXM3XOJMDS674JZ";

fn addr(key: &str) -> Address {
    Address::new(key.to_string())
}

fn text(s: &str) -> String {
    s.to_string()
}

#[test]
fn test_initialize_account() {
    let mut wallet = SocialWallet::new();
    let owner = addr(OWNER);
    let result = wallet.initialize(owner.clone(), text("google"), text("user@gmail.com"), 0);
    assert_eq!(result, true);
    let account = wallet.get_account(&owner);
    assert!(account.is_some());
    let account = account.unwrap();
    assert_eq!(account.owner, owner);
    assert_eq!(account.is_initialized, true);
}

#[test]
fn test_duplicate_initialization_fails() {
    let mut wallet = SocialWallet::new();
    let owner = addr(OWNER);
    let result1 = wallet.initialize(owner.clone(), text("google"), text("user@gmail.com"), 0);
    assert_eq!(result1, true);
    let result2 = wallet.initialize(owner.clone(), text("facebook"), text("user@facebook.com"), 0);
    assert_eq!(result2, false);
}

#[test]
fn test_add_auth_method() {
    let mut wallet = SocialWallet::new();
    let owner = addr(OWNER);
    wallet.initialize(owner.clone(), text("google"), text("user@gmail.com"), 0);
    let auths = vec![owner.clone()];
    let result = wallet.add_auth_method(owner.clone(), text("facebook"), text("user@facebook.com"), &auths);
    assert_eq!(result, Ok(true));
    assert_eq!(wallet.has_auth_method(&owner, &text("google")), true);
    assert_eq!(wallet.has_auth_method(&owner, &text("facebook")), true);
}

#[test]
fn test_get_auth_methods() {
    let mut wallet = SocialWallet::new();
    let owner = addr(OWNER);
    wallet.initialize(owner.clone(), text("google"), text("user@gmail.com"), 0);
    let auths = vec![owner.clone()];
    wallet.add_auth_method(owner.clone(), text("facebook"), text("user@facebook.com"), &auths).unwrap();
    wallet.add_auth_method(owner.clone(), text("phone"), text("+1234567890"), &auths).unwrap();
    let methods = wallet.get_auth_methods(&owner);
    assert_eq!(methods.len(), 3);
}

#[test]
fn test_remove_auth_method() {
    let mut wallet = SocialWallet::new();
    let owner = addr(OWNER);
    wallet.initialize(owner.clone(), text("google"), text("user@gmail.com"), 0);
    let auths = vec![owner.clone()];
    wallet.add_auth_method(owner.clone(), text("facebook"), text("user@facebook.com"), &auths).unwrap();
    let result = wallet.remove_auth_method(owner.clone(), text("facebook"), &auths);
    assert_eq!(result, Ok(true));
    assert_eq!(wallet.has_auth_method(&owner, &text("facebook")), false);
    assert_eq!(wallet.has_auth_method(&owner, &text("google")), true);
}

#[test]
fn initialize_scenario_keeps_first_record() {
    let mut wallet = SocialWallet::new();
    let owner = addr(OWNER);
    assert!(wallet.initialize(owner.clone(), text("google"), text("user@gmail.com"), 1700));
    let account = wallet.get_account(&owner).unwrap();
    assert_eq!(account.auth_methods.len(), 1);
    assert_eq!(account.auth_methods.get(&text("google")), Some(text("user@gmail.com")));
    assert_eq!(account.created_at, 1700);
    assert!(!wallet.initialize(owner.clone(), text("facebook"), text("x"), 1800));
    let again = wallet.get_account(&owner).unwrap();
    assert_eq!(again.auth_methods.len(), 1);
    assert_eq!(again.auth_methods.get(&text("google")), Some(text("user@gmail.com")));
    assert_eq!(again.auth_methods.get(&text("facebook")), None);
    assert_eq!(again.created_at, 1700);
}

#[test]
fn add_scenario_lists_both_types() {
    let mut wallet = SocialWallet::new();
    let owner = addr(OWNER);
    wallet.initialize(owner.clone(), text("google"), text("user@gmail.com"), 0);
    wallet.initialize(owner.clone(), text("facebook"), text("x"), 0);
    let auths = vec![owner.clone()];
    assert_eq!(wallet.add_auth_method(owner.clone(), text("phone"), text("+1555"), &auths), Ok(true));
    let methods = wallet.get_auth_methods(&owner);
    assert_eq!(methods.len(), 2);
    assert!(methods.contains(&text("google")));
    assert!(methods.contains(&text("phone")));
}

#[test]
fn remove_scenario_keeps_other_type() {
    let mut wallet = SocialWallet::new();
    let owner = addr(OWNER);
    let auths = vec![owner.clone()];
    wallet.initialize(owner.clone(), text("google"), text("user@gmail.com"), 0);
    wallet.add_auth_method(owner.clone(), text("phone"), text("+1555"), &auths).unwrap();
    assert_eq!(wallet.remove_auth_method(owner.clone(), text("google"), &auths), Ok(true));
    assert!(!wallet.has_auth_method(&owner, &text("google")));
    assert!(wallet.has_auth_method(&owner, &text("phone")));
}

#[test]
fn add_overwrites_identifier_and_keeps_count() {
    let mut wallet = SocialWallet::new();
    let owner = addr(OWNER);
    let auths = vec![owner.clone()];
    wallet.initialize(owner.clone(), text("google"), text("old@gmail.com"), 0);
    assert_eq!(wallet.add_auth_method(owner.clone(), text("google"), text("new@gmail.com"), &auths), Ok(true));
    let account = wallet.get_account(&owner).unwrap();
    assert_eq!(account.auth_methods.len(), 1);
    assert_eq!(account.auth_methods.get(&text("google")), Some(text("new@gmail.com")));
    assert_eq!(wallet.get_auth_methods(&owner).len(), 1);
}

#[test]
fn method_count_follows_adds_and_removes() {
    let mut wallet = SocialWallet::new();
    let owner = addr(OWNER);
    let auths = vec![owner.clone()];
    wallet.initialize(owner.clone(), text("google"), text("a"), 0);
    wallet.add_auth_method(owner.clone(), text("phone"), text("b"), &auths).unwrap();
    wallet.add_auth_method(owner.clone(), text("email"), text("c"), &auths).unwrap();
    wallet.add_auth_method(owner.clone(), text("phone"), text("d"), &auths).unwrap();
    assert_eq!(wallet.get_auth_methods(&owner).len(), 3);
    wallet.remove_auth_method(owner.clone(), text("email"), &auths).unwrap();
    assert_eq!(wallet.get_auth_methods(&owner).len(), 2);
    wallet.remove_auth_method(owner.clone(), text("google"), &auths).unwrap();
    wallet.remove_auth_method(owner.clone(), text("phone"), &auths).unwrap();
    assert_eq!(wallet.get_auth_methods(&owner).len(), 0);
    assert!(wallet.get_account(&owner).is_some());
}

#[test]
fn operations_on_missing_account_return_false() {
    let mut wallet = SocialWallet::new();
    let owner = addr(OWNER);
    let auths = vec![owner.clone()];
    assert_eq!(wallet.add_auth_method(owner.clone(), text("google"), text("a"), &auths), Ok(false));
    assert_eq!(wallet.remove_auth_method(owner.clone(), text("google"), &auths), Ok(false));
    assert!(!wallet.has_auth_method(&owner, &text("google")));
    assert!(wallet.get_auth_methods(&owner).is_empty());
    assert!(wallet.get_account(&owner).is_none());
}

#[test]
fn remove_missing_method_returns_false() {
    let mut wallet = SocialWallet::new();
    let owner = addr(OWNER);
    let auths = vec![owner.clone()];
    wallet.initialize(owner.clone(), text("google"), text("a"), 0);
    assert_eq!(wallet.remove_auth_method(owner.clone(), text("phone"), &auths), Ok(false));
    assert_eq!(wallet.get_auth_methods(&owner).len(), 1);
}

#[test]
fn unauthorized_calls_fail_and_change_nothing() {
    let mut wallet = SocialWallet::new();
    let owner = addr(OWNER);
    let other = addr(OTHER);
    wallet.initialize(owner.clone(), text("google"), text("a"), 0);
    let wrong = vec![addr(STRANGER)];
    let none: Vec<Address> = Vec::new();
    assert_eq!(wallet.add_auth_method(owner.clone(), text("phone"), text("b"), &wrong), Err(WalletError::Unauthorized));
    assert_eq!(wallet.remove_auth_method(owner.clone(), text("google"), &none), Err(WalletError::Unauthorized));
    assert_eq!(wallet.transfer_ownership(owner.clone(), other.clone(), &wrong), Err(WalletError::Unauthorized));
    assert_eq!(
        wallet.add_auth_method(other.clone(), text("phone"), text("b"), &vec![owner.clone()]),
        Err(WalletError::Unauthorized)
    );
    assert!(wallet.has_auth_method(&owner, &text("google")));
    assert!(!wallet.has_auth_method(&owner, &text("phone")));
    assert!(wallet.get_account(&other).is_none());
    assert_eq!(wallet.get_auth_methods(&owner).len(), 1);
}

#[test]
fn authorization_among_several_signers() {
    let mut wallet = SocialWallet::new();
    let owner = addr(OWNER);
    wallet.initialize(owner.clone(), text("google"), text("a"), 0);
    let auths = vec![addr(STRANGER), owner.clone()];
    assert_eq!(wallet.add_auth_method(owner.clone(), text("phone"), text("b"), &auths), Ok(true));
}

#[test]
fn transfer_moves_record() {
    let mut wallet = SocialWallet::new();
    let owner = addr(OWNER);
    let other = addr(OTHER);
    wallet.initialize(owner.clone(), text("google"), text("a"), 42);
    assert_eq!(wallet.transfer_ownership(owner.clone(), other.clone(), &vec![owner.clone()]), Ok(true));
    assert!(wallet.get_account(&owner).is_none());
    let moved = wallet.get_account(&other).unwrap();
    assert_eq!(moved.owner, other);
    assert_eq!(moved.created_at, 42);
    assert!(moved.is_initialized);
    assert_eq!(moved.auth_methods.get(&text("google")), Some(text("a")));
}

#[test]
fn transfer_from_missing_owner_leaves_destination() {
    let mut wallet = SocialWallet::new();
    let owner = addr(OWNER);
    let other = addr(OTHER);
    wallet.initialize(other.clone(), text("phone"), text("b"), 7);
    assert_eq!(wallet.transfer_ownership(owner.clone(), other.clone(), &vec![owner.clone()]), Ok(false));
    let kept = wallet.get_account(&other).unwrap();
    assert_eq!(kept.owner, other);
    assert_eq!(kept.auth_methods.get(&text("phone")), Some(text("b")));
    assert_eq!(kept.created_at, 7);
}

#[test]
fn transfer_onto_existing_record_replaces_it() {
    let mut wallet = SocialWallet::new();
    let owner = addr(OWNER);
    let other = addr(OTHER);
    wallet.initialize(owner.clone(), text("google"), text("a"), 1);
    wallet.initialize(other.clone(), text("phone"), text("b"), 2);
    assert_eq!(wallet.transfer_ownership(owner.clone(), other.clone(), &vec![owner.clone()]), Ok(true));
    assert!(wallet.get_account(&owner).is_none());
    let replaced = wallet.get_account(&other).unwrap();
    assert_eq!(replaced.owner, other);
    assert_eq!(replaced.created_at, 1);
    assert!(wallet.has_auth_method(&other, &text("google")));
    assert!(!wallet.has_auth_method(&other, &text("phone")));
}

#[test]
fn accounts_are_kept_apart() {
    let mut wallet = SocialWallet::new();
    let owner = addr(OWNER);
    let other = addr(OTHER);
    assert!(wallet.initialize(owner.clone(), text("google"), text("a"), 0));
    assert!(wallet.initialize(other.clone(), text("google"), text("a"), 0));
    wallet.add_auth_method(other.clone(), text("phone"), text("b"), &vec![other.clone()]).unwrap();
    assert!(!wallet.has_auth_method(&owner, &text("phone")));
    assert_eq!(wallet.get_auth_methods(&owner).len(), 1);
    assert_eq!(wallet.get_auth_methods(&other).len(), 2);
}

#[test]
fn empty_texts_are_accepted() {
    let mut wallet = SocialWallet::new();
    let owner = addr(OWNER);
    assert!(wallet.initialize(owner.clone(), text(""), text(""), 0));
    assert!(wallet.has_auth_method(&owner, &text("")));
    assert_eq!(wallet.get_account(&owner).unwrap().auth_methods.get(&text("")), Some(text("")));
}

#[test]
fn address_text_round_trip() {
    let owner = addr(OWNER);
    assert_eq!(owner.as_str(), OWNER);
    assert!(owner.same_as(&owner.clone()));
    assert!(!owner.same_as(&addr(OTHER)));
    assert_ne!(owner, addr(OTHER));
}
