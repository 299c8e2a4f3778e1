use safe_client::account::Account;
use safe_client::client::Client;
use safe_client::crypto::random_bytes;
use safe_client::errors::ClientError;
use safe_client::name::Nonce;
use safe_client::store::Store;

#[test]
fn account_creation() {
    let keyword = "Spandan".to_string();
    let password = "Sharma".as_bytes();
    let pin = 1234u32;
    let mut data_store = Store::new();
    let result = Client::create_account(&keyword, pin, &password, &mut data_store);
    assert!(result.is_ok());
}

#[test]
fn account_login() {
    let keyword = "Spandan".to_string();
    let password = "Sharma".as_bytes();
    let pin = 1234u32;
    let mut data_store = Store::new();

    // Without Creation Login Should Fail
    let result = Client::log_in(&keyword, pin, &password, &data_store);
    assert!(result.is_err());

    // Creation should pass
    let result = Client::create_account(&keyword, pin, &password, &mut data_store);
    assert!(result.is_ok());

    // Wrong Credentials (Password) - Login should Fail
    let wrong_password = "sharma".as_bytes();
    let result = Client::log_in(&keyword, pin, &wrong_password, &data_store);
    assert!(result.is_err());

    // Wrong Credentials (Keyword) - Login should Fail
    let wrong_keyword = "spandan".to_string();
    let result = Client::log_in(&wrong_keyword, pin, &password, &data_store);
    assert!(result.is_err());

    // Wrong Credentials (Pin) - Login should Fail
    let wrong_pin = 1233;
    let result = Client::log_in(&keyword, wrong_pin, &password, &data_store);
    assert!(result.is_err());

    // Correct Credentials - Login Should Pass
    let result = Client::log_in(&keyword, pin, &password, &data_store);
    assert!(result.is_ok());
}

#[test]
fn hybrid_encryption_decryption() {
    // Construct Client
    let keyword = "Spandan".to_string();
    let password = "Sharma".as_bytes();
    let pin = 1234u32;
    let mut data_store = Store::new();

    let result = Client::create_account(&keyword, pin, &password, &mut data_store);
    assert!(result.is_ok());
    let client = result.ok().unwrap();

    // Identical Plain Texts
    let plain_text_0 = vec![123u8; 1000];
    let plain_text_1 = plain_text_0.clone();

    // Encrypt passing Nonce
    let nonce = Nonce::from_bytes(random_bytes(24));
    let hybrid_encrypt_0 = client.hybrid_encrypt(&plain_text_0[..], Some(&nonce));
    let hybrid_encrypt_1 = client.hybrid_encrypt(&plain_text_1[..], Some(&nonce));

    // Encrypt without passing Nonce
    let hybrid_encrypt_2 = client.hybrid_encrypt(&plain_text_0[..], None);
    let hybrid_encrypt_3 = client.hybrid_encrypt(&plain_text_1[..], None);

    assert!(hybrid_encrypt_0.is_ok());
    assert!(hybrid_encrypt_1.is_ok());
    assert!(hybrid_encrypt_2.is_ok());
    assert!(hybrid_encrypt_3.is_ok());

    // Same Plain Texts
    assert_eq!(plain_text_0, plain_text_1);

    // Different Results because of random "iv"
    assert!(hybrid_encrypt_0.clone().ok().unwrap() != hybrid_encrypt_1.clone().ok().unwrap());
    assert!(hybrid_encrypt_0.clone().ok().unwrap() != hybrid_encrypt_2.clone().ok().unwrap());
    assert!(hybrid_encrypt_0.clone().ok().unwrap() != hybrid_encrypt_3.clone().ok().unwrap());
    assert!(hybrid_encrypt_2.clone().ok().unwrap() != hybrid_encrypt_1.clone().ok().unwrap());
    assert!(hybrid_encrypt_2.clone().ok().unwrap() != hybrid_encrypt_3.clone().ok().unwrap());

    // Decrypt with Nonce
    let hybrid_decrypt_0 = client.hybrid_decrypt(&hybrid_encrypt_0.clone().ok().unwrap()[..], Some(&nonce));
    let hybrid_decrypt_1 = client.hybrid_decrypt(&hybrid_encrypt_1.ok().unwrap()[..], Some(&nonce));

    // Decrypt without Nonce
    let hybrid_decrypt_2 = client.hybrid_decrypt(&hybrid_encrypt_2.ok().unwrap()[..], None);
    let hybrid_decrypt_3 = client.hybrid_decrypt(&hybrid_encrypt_3.clone().ok().unwrap()[..], None);

    // Decryption without passing Nonce for something encrypted with passing Nonce - Should Fail
    let hybrid_decrypt_4 = client.hybrid_decrypt(&hybrid_encrypt_0.ok().unwrap()[..], None);
    // Decryption passing Nonce for something encrypted without passing Nonce - Should Fail
    let hybrid_decrypt_5 = client.hybrid_decrypt(&hybrid_encrypt_3.ok().unwrap()[..], Some(&nonce));

    assert!(hybrid_decrypt_0.is_some());
    assert!(hybrid_decrypt_1.is_some());
    assert!(hybrid_decrypt_2.is_some());
    assert!(hybrid_decrypt_3.is_some());

    // Should fail
    assert!(hybrid_decrypt_4.is_none());
    assert!(hybrid_decrypt_5.is_none());

    // Should have decrypted to the same Plain Texts
    assert_eq!(plain_text_0, hybrid_decrypt_0.unwrap());
    assert_eq!(plain_text_1, hybrid_decrypt_1.unwrap());
    assert_eq!(plain_text_0, hybrid_decrypt_2.unwrap());
    assert_eq!(plain_text_1, hybrid_decrypt_3.unwrap());
}

#[test]
fn login_error_kinds() {
    let keyword = "Spandan".to_string();
    let password = "Sharma".as_bytes();
    let pin = 1234u32;
    let mut data_store = Store::new();

    // Empty store: indistinguishable from wrong keyword or pin.
    let result = Client::log_in(&keyword, pin, &password, &data_store);
    assert_eq!(result.err().unwrap(), ClientError::InvalidCredentials);

    let result = Client::create_account(&keyword, pin, &password, &mut data_store);
    assert!(result.is_ok());

    // Wrong password after creation.
    let result = Client::log_in(&keyword, pin, "sharma".as_bytes(), &data_store);
    assert_eq!(result.err().unwrap(), ClientError::InvalidCredentials);

    // Wrong keyword and wrong pin are indistinguishable from an empty store.
    let result = Client::log_in("spandan", pin, &password, &data_store);
    assert_eq!(result.err().unwrap(), ClientError::InvalidCredentials);
    let result = Client::log_in(&keyword, 1233, &password, &data_store);
    assert_eq!(result.err().unwrap(), ClientError::InvalidCredentials);

    // A garbage session pointer at the locator: the session is corrupt.
    let locator = Account::generate_network_id(&keyword, pin);
    data_store.put_record(&locator, vec![1u8, 2u8, 3u8]);
    let result = Client::log_in(&keyword, pin, &password, &data_store);
    assert_eq!(result.err().unwrap(), ClientError::CorruptSession);
}

#[test]
fn correct_login_recovers_owner() {
    let keyword = "Spandan".to_string();
    let password = "Sharma".as_bytes();
    let pin = 1234u32;
    let mut data_store = Store::new();

    let created = Client::create_account(&keyword, pin, &password, &mut data_store).ok().unwrap();
    let logged_in = Client::log_in(&keyword, pin, &password, &data_store).ok().unwrap();

    // The recovered client's public name equals the created one.
    assert!(created.get_owner().equals(&logged_in.get_owner()));
}

#[test]
fn network_id_depends_on_both_secrets() {
    let a = Account::generate_network_id("Spandan", 1234);
    let b = Account::generate_network_id("Spandan", 1234);
    assert!(a.equals(&b));
    assert_eq!(a.as_bytes().len(), 64);

    let other_keyword = Account::generate_network_id("spandan", 1234);
    let other_pin = Account::generate_network_id("Spandan", 1233);
    assert!(!a.equals(&other_keyword));
    assert!(!a.equals(&other_pin));
}

#[test]
fn account_encrypt_decrypt_roundtrip() {
    let account = Account::new(None);
    let password = "secret words".as_bytes();
    let pin = 7081u32;

    let cipher = account.encrypt(&password, pin).ok().unwrap();
    // The ciphertext is not the serial form in the clear.
    assert!(cipher != account.serialise());

    let recovered = Account::decrypt(&cipher[..], &password, pin).ok().unwrap();
    assert!(recovered.get_maid().name().equals(&account.get_maid().name()));
    assert_eq!(recovered.serialise(), account.serialise());

    // A perturbed password or pin must not decrypt.
    assert!(Account::decrypt(&cipher[..], "Secret words".as_bytes(), pin).is_err());
    assert_eq!(
        Account::decrypt(&cipher[..], &password, 7082).err().unwrap(),
        ClientError::CryptoFailure
    );
}

#[test]
fn decrypt_rejects_malformed_ciphertexts() {
    let password = "secret words".as_bytes();
    let pin = 7081u32;

    // Not a whole number of cipher blocks.
    assert_eq!(
        Account::decrypt(&vec![5u8; 21], &password, pin).err().unwrap(),
        ClientError::CryptoFailure
    );
    // Whole blocks of attacker-chosen bytes: whatever padding byte the
    // decryption produces, stripping must fail or the parse must, never a
    // crash or a malformed account.
    assert!(Account::decrypt(&vec![0u8; 32], &password, pin).is_err());
    assert!(Account::decrypt(&vec![17u8; 48], &password, pin).is_err());
    assert!(Account::decrypt(&[], &password, pin).is_err());

    // Tampering with a real ciphertext must not yield an account either.
    let account = Account::new(None);
    let mut cipher = account.encrypt(&password, pin).ok().unwrap();
    let end = cipher.len() - 1;
    cipher[end] = cipher[end].wrapping_add(1);
    assert!(Account::decrypt(&cipher[..], &password, pin).is_err());
}

#[test]
fn hybrid_decrypt_rejects_garbage() {
    let keyword = "Spandan".to_string();
    let password = "Sharma".as_bytes();
    let pin = 1234u32;
    let mut data_store = Store::new();
    let client = Client::create_account(&keyword, pin, &password, &mut data_store).ok().unwrap();

    assert!(client.hybrid_decrypt(&[], None).is_none());
    assert!(client.hybrid_decrypt(&[1u8, 2u8, 3u8], None).is_none());
    // A well-formed envelope holding garbage fails the unseal.
    let mut cipher = client.hybrid_encrypt(&vec![9u8; 64], None).ok().unwrap();
    cipher[10] = cipher[10].wrapping_add(1);
    assert!(client.hybrid_decrypt(&cipher[..], None).is_none());
}
