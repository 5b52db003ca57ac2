use ring::aead::{Aad, LessSafeKey, Nonce, UnboundKey, CHACHA20_POLY1305};
use silent::crypto::{CryptoError, Encryptor, Keys};
use silent::message::{Message, SendTime};

fn open(secret: &[u8; 32], sent: &[u8]) -> Vec<u8> {
    let key = LessSafeKey::new(UnboundKey::new(&CHACHA20_POLY1305, secret).unwrap());
    let mut nonce = [0u8; 12];
    nonce.copy_from_slice(&sent[..12]);
    let mut body = sent[12..].to_vec();
    let plain = key
        .open_in_place(Nonce::assume_unique_for_key(nonce), Aad::empty(), &mut body)
        .unwrap();
    plain.to_vec()
}

#[test]
fn both_sides_compute_the_same_secret() {
    let a = Encryptor::new(Message::new("hi".to_string()).unwrap()).unwrap();
    let b = Encryptor::new(Message::new("ho".to_string()).unwrap()).unwrap();
    let a_pub = a.public_key();
    let b_pub = b.public_key();
    assert_eq!(a_pub.len(), 32);
    let sa = a.compute_sahred_secret(&b_pub).unwrap();
    let sb = b.compute_sahred_secret(&a_pub).unwrap();
    assert_eq!(sa, sb);
}

#[test]
fn a_peer_key_of_small_order_is_refused() {
    let a = Encryptor::new(Message::new("hi".to_string()).unwrap()).unwrap();
    assert_eq!(a.compute_sahred_secret(&[0u8; 32]), Err(CryptoError::KeyAgreement));
}

#[test]
fn an_agreed_secret_is_not_all_zeros() {
    let a = Encryptor::new(Message::new("hi".to_string()).unwrap()).unwrap();
    let b = Keys::new().unwrap();
    assert_ne!(a.compute_sahred_secret(&b.public_key()).unwrap(), [0u8; 32]);
}

#[test]
fn a_sealed_message_opens_to_its_bytes_and_sixteen_zeros() {
    let e = Encryptor::new(Message::new("salut é".to_string()).unwrap()).unwrap();
    let secret = [7u8; 32];
    let nonce = [3u8; 12];
    let sent = e.encrypt_message_with_nonce(&secret, nonce).unwrap();
    let text = "salut é".as_bytes();
    assert_eq!(sent.len(), 12 + text.len() + 16 + 16);
    assert_eq!(&sent[..12], &nonce);
    let mut expected = text.to_vec();
    expected.extend_from_slice(&[0u8; 16]);
    assert_eq!(open(&secret, &sent), expected);
    assert_ne!(&sent[12..12 + text.len()], text);
    assert_eq!(e.encrypt_message_with_nonce(&secret, nonce).unwrap(), sent);
}

#[test]
fn encrypt_message_uses_a_fresh_nonce() {
    let e = Encryptor::new(Message::new("".to_string()).unwrap()).unwrap();
    let secret = [9u8; 32];
    let one = e.encrypt_message(&secret).unwrap();
    let two = e.encrypt_message(&secret).unwrap();
    assert_eq!(one.len(), 12 + 16 + 16);
    assert_ne!(one, two);
    assert_eq!(open(&secret, &one), vec![0u8; 16]);
    let mut n = [0u8; 12];
    n.copy_from_slice(&one[..12]);
    assert_eq!(e.encrypt_message_with_nonce(&secret, n).unwrap(), one);
}

#[test]
fn keys_give_a_public_key() {
    let k = Keys::new().unwrap();
    assert_eq!(k.public_key().len(), 32);
}

#[test]
fn a_message_keeps_its_text() {
    let m = Message::new("bonjour".to_string()).unwrap();
    assert_eq!(m.as_text(), "bonjour");
    assert_eq!(m.message, "bonjour");
    let t = m.send_time();
    assert!(t.nanos < 1_000_000_000);
    assert!(t.seconds > 1_600_000_000);
    let at = Message::new_at("x".to_string(), SendTime { seconds: 5, nanos: 6 });
    assert_eq!(at.send_time(), SendTime { seconds: 5, nanos: 6 });
    let e = Encryptor::new(at).unwrap();
    assert_eq!(e.public_key().len(), 32);
}

#[test]
fn the_public_key_stays_the_same() {
    let k = Keys::new().unwrap();
    assert_eq!(k.public_key(), k.public_key());
    let e = Encryptor::new(Message::new("x".to_string()).unwrap()).unwrap();
    assert_eq!(e.public_key(), e.public_key());
    assert_ne!(e.public_key(), k.public_key());
}

#[test]
fn a_message_is_stamped_only_with_an_instant_chrono_holds() {
    let m = Message::stamped("hi".to_string(), 1_700_000_000, 5).unwrap();
    assert_eq!(m.send_time(), SendTime { seconds: 1_700_000_000, nanos: 5 });
    assert_eq!(m.as_text(), "hi");
    assert!(Message::stamped("hi".to_string(), 59, 1_500_000_000).is_some());
    assert!(Message::stamped("hi".to_string(), 58, 1_500_000_000).is_none());
    assert!(Message::stamped("hi".to_string(), 59, 2_000_000_000).is_none());
    assert!(Message::stamped("hi".to_string(), 8_210_266_876_799, 0).is_some());
    assert!(Message::stamped("hi".to_string(), 8_210_266_876_800, 0).is_none());
    assert!(Message::stamped("hi".to_string(), u64::MAX, 0).is_none());
}
