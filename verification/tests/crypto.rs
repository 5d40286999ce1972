use massa_protocol::address::Address;
use massa_protocol::block::BlockId;
use massa_protocol::endorsement::EndorsementId;
use massa_protocol::error::ModelsError;
use massa_protocol::keys::{sign, verify_signature, PrivateKey, PublicKey, Signature};
use massa_protocol::operation::OperationId;

const ABC_DIGEST: [u8; 32] = [
    186, 120, 22, 191, 143, 1, 207, 234, 65, 65, 64, 222, 93, 174, 34, 35, 176, 3, 97, 163, 150, 23,
    122, 156, 180, 16, 255, 97, 242, 0, 21, 173,
];

fn hex(text: &str) -> Vec<u8> {
    let digits: Vec<u8> = text
        .bytes()
        .map(|c| match c {
            b'0'..=b'9' => c - b'0',
            b'A'..=b'F' => c - b'A' + 10,
            _ => panic!("not a hexadecimal digit"),
        })
        .collect();
    digits.chunks(2).map(|pair| pair[0] * 16 + pair[1]).collect()
}

fn key_pair(secret: [u8; 32]) -> (PrivateKey, PublicKey) {
    let context = secp256k1::Secp256k1::new();
    let pair = secp256k1::Keypair::from_seckey_slice(&context, &secret).unwrap();
    let public = pair.x_only_public_key().0.serialize();
    (PrivateKey::from_bytes(&secret), PublicKey::from_bytes(&public))
}

#[test]
fn digest_is_sha256() {
    let digest = massa_protocol::hash::Hash::compute_from("abc".as_bytes());
    assert_eq!(digest.to_bytes(), ABC_DIGEST);
    assert_eq!(digest.into_bytes(), ABC_DIGEST);
    assert_ne!(
        massa_protocol::hash::Hash::compute_from("abd".as_bytes()).to_bytes(),
        ABC_DIGEST
    );
}

#[test]
fn digest_text_is_base58_check() {
    let digest = massa_protocol::hash::Hash::from_bytes(&ABC_DIGEST);
    let text = digest.to_bs58_check();
    assert_eq!(text, "2R86xsyAVAuyAb7MzMgDVkjPHFqEM1nDiKyWp7fDWrjdtPj67J");
    assert_eq!(massa_protocol::hash::Hash::from_bs58_check(&text).unwrap(), digest);
}

#[test]
fn digest_text_with_a_wrong_checksum_or_length_is_refused() {
    assert_eq!(
        massa_protocol::hash::Hash::from_bs58_check(
            "2R86xsyAVAuyAb7MzMgDVkjPHFqEM1nDiKyWp7fDWrjdtPj67K"
        ),
        Err(ModelsError::HashError)
    );
    // a valid Base58Check text of seven bytes
    assert_eq!(
        massa_protocol::hash::Hash::from_bs58_check("QuT57JNzzWTu7mW"),
        Err(ModelsError::HashError)
    );
    assert_eq!(massa_protocol::hash::Hash::from_bs58_check("0OIl"), Err(ModelsError::HashError));
}

#[test]
fn block_id_text_may_carry_its_prefix() {
    let id = BlockId(massa_protocol::hash::Hash::from_bytes(&ABC_DIGEST));
    let text = id.to_bs58_check();
    assert_eq!(text, "2R86xsyAVAuyAb7MzMgDVkjPHFqEM1nDiKyWp7fDWrjdtPj67J");
    assert_eq!(BlockId::from_bs58_check(&text).unwrap(), id);
    assert_eq!(BlockId::from_str(&text).unwrap(), id);
    assert_eq!(BlockId::from_str(&format!("BLO-{}", text)).unwrap(), id);
    assert_eq!(BlockId::from_bytes(&ABC_DIGEST).unwrap(), id);
    assert_eq!(id.to_bytes(), ABC_DIGEST);
    assert_eq!(id.into_bytes(), ABC_DIGEST);
}

#[test]
fn block_id_text_with_another_prefix_is_refused() {
    let text = "2R86xsyAVAuyAb7MzMgDVkjPHFqEM1nDiKyWp7fDWrjdtPj67J";
    assert_eq!(
        BlockId::from_str(&format!("OPE-{}", text)),
        Err(ModelsError::WrongPrefix("BLO".to_string(), "OPE".to_string()))
    );
    assert_eq!(
        BlockId::from_str(&format!("-{}", text)),
        Err(ModelsError::WrongPrefix("BLO".to_string(), "".to_string()))
    );
    assert_eq!(
        BlockId::from_str(&format!("BLÖ-{}", text)),
        Err(ModelsError::WrongPrefix("BLO".to_string(), "BLÖ".to_string()))
    );
    // two dashes: the whole text is taken for the digest
    assert_eq!(BlockId::from_str(&format!("BLO-{}-", text)), Err(ModelsError::HashError));
    assert_eq!(BlockId::from_str("BLO-"), Err(ModelsError::HashError));
    assert_eq!(BlockId::from_bs58_check("BLO"), Err(ModelsError::HashError));
}

#[test]
fn first_bit_is_the_top_bit_of_the_digest_of_the_identifier() {
    let id = BlockId(massa_protocol::hash::Hash::from_bytes(&ABC_DIGEST));
    let digest = massa_protocol::hash::Hash::compute_from(&ABC_DIGEST).to_bytes();
    assert_eq!(id.get_first_bit(), digest[0] >> 7 == 1);
}

#[test]
fn signature_is_schnorr_without_auxiliary_randomness() {
    let mut secret = [0u8; 32];
    secret[31] = 3;
    let (private_key, public_key) = key_pair(secret);
    assert_eq!(
        public_key.to_bytes().to_vec(),
        hex("F9308A019258C31049344F85F89D5229B531C845836F99B08601F113BCE036F9")
    );
    let message = massa_protocol::hash::Hash::from_bytes(&[0u8; 32]);
    let signature = sign(&message, &private_key).unwrap();
    assert_eq!(
        signature.to_bytes().to_vec(),
        hex("E907831F80848D1069A5371B402410364BDF1C5F8307B0084C55F1CE2DCA821525F66A4A85EA8B71E482A74F382D2CE5EBEEE8FDB2172F477DF4900D310536C0")
    );
    assert_eq!(verify_signature(&message, &signature, &public_key), Ok(()));
}

#[test]
fn signature_of_another_message_key_or_value_does_not_verify() {
    let (private_key, public_key) = key_pair([7u8; 32]);
    let (_, other_key) = key_pair([8u8; 32]);
    let message = massa_protocol::hash::Hash::compute_from("dta".as_bytes());
    let other_message = massa_protocol::hash::Hash::compute_from("dat".as_bytes());
    let signature = sign(&message, &private_key).unwrap();
    assert_eq!(verify_signature(&message, &signature, &public_key), Ok(()));
    assert_eq!(
        verify_signature(&other_message, &signature, &public_key),
        Err(ModelsError::InvalidSignature)
    );
    assert_eq!(
        verify_signature(&message, &signature, &other_key),
        Err(ModelsError::InvalidSignature)
    );
    let mut bytes = signature.to_bytes();
    bytes[10] ^= 1;
    assert_eq!(
        verify_signature(&message, &Signature::from_bytes(&bytes), &public_key),
        Err(ModelsError::InvalidSignature)
    );
    // bytes that are no point of the curve
    assert_eq!(
        verify_signature(&message, &signature, &PublicKey::from_bytes(&[255u8; 32])),
        Err(ModelsError::InvalidSignature)
    );
}

#[test]
fn signing_with_a_key_that_is_no_secret_key_fails() {
    let message = massa_protocol::hash::Hash::compute_from("dta".as_bytes());
    assert_eq!(
        sign(&message, &PrivateKey::from_bytes(&[0u8; 32])),
        Err(ModelsError::InvalidSignature)
    );
    assert_eq!(
        sign(&message, &PrivateKey::from_bytes(&[255u8; 32])),
        Err(ModelsError::InvalidSignature)
    );
}

#[test]
fn signing_twice_gives_the_same_signature() {
    let (private_key, _) = key_pair([7u8; 32]);
    let message = massa_protocol::hash::Hash::compute_from("dta".as_bytes());
    assert_eq!(sign(&message, &private_key), sign(&message, &private_key));
}

#[test]
fn address_is_the_digest_of_the_public_key() {
    let key = PublicKey::from_bytes(&[97, 98, 99, 0, 0, 0, 0, 0, 0, 0, 0, 0, 0, 0, 0, 0, 0, 0, 0, 0, 0, 0, 0, 0, 0, 0, 0, 0, 0, 0, 0, 0]);
    let address = Address::from_public_key(&key);
    assert_eq!(
        address.to_bytes(),
        massa_protocol::hash::Hash::compute_from(&key.to_bytes()).to_bytes()
    );
}

#[test]
fn thread_of_an_address_scales_its_first_byte() {
    let mut bytes = [0u8; 32];
    bytes[0] = 0;
    assert_eq!(Address(massa_protocol::hash::Hash::from_bytes(&bytes)).get_thread(32), 0);
    bytes[0] = 255;
    assert_eq!(Address(massa_protocol::hash::Hash::from_bytes(&bytes)).get_thread(32), 31);
    bytes[0] = 128;
    assert_eq!(Address(massa_protocol::hash::Hash::from_bytes(&bytes)).get_thread(32), 16);
    assert_eq!(Address(massa_protocol::hash::Hash::from_bytes(&bytes)).get_thread(3), 1);
    bytes[0] = 200;
    // 200 * 3 / 256
    assert_eq!(Address(massa_protocol::hash::Hash::from_bytes(&bytes)).get_thread(3), 2);
    assert_eq!(Address(massa_protocol::hash::Hash::from_bytes(&bytes)).get_thread(0), 0);
    assert_eq!(Address(massa_protocol::hash::Hash::from_bytes(&bytes)).get_thread(255), 199);
}

#[test]
fn operation_and_endorsement_ids_have_their_own_prefixes() {
    let digest = massa_protocol::hash::Hash::from_bytes(&ABC_DIGEST);
    let text = "2R86xsyAVAuyAb7MzMgDVkjPHFqEM1nDiKyWp7fDWrjdtPj67J";
    assert_eq!(OperationId(digest).to_bs58_check(), text);
    assert_eq!(EndorsementId(digest).to_bs58_check(), text);
    assert_eq!(OperationId::from_str(text), Ok(OperationId(digest)));
    assert_eq!(OperationId::from_str(&format!("OPE-{}", text)), Ok(OperationId(digest)));
    assert_eq!(EndorsementId::from_str(text), Ok(EndorsementId(digest)));
    assert_eq!(EndorsementId::from_str(&format!("END-{}", text)), Ok(EndorsementId(digest)));
    assert_eq!(
        OperationId::from_str(&format!("END-{}", text)),
        Err(ModelsError::WrongPrefix("OPE".to_string(), "END".to_string()))
    );
    assert_eq!(
        EndorsementId::from_str(&format!("BLO-{}", text)),
        Err(ModelsError::WrongPrefix("END".to_string(), "BLO".to_string()))
    );
    assert_eq!(
        OperationId::from_str(&format!("OPEN-{}", text)),
        Err(ModelsError::WrongPrefix("OPE".to_string(), "OPEN".to_string()))
    );
    assert_eq!(
        OperationId::from_str(&format!("OP-{}", text)),
        Err(ModelsError::WrongPrefix("OPE".to_string(), "OP".to_string()))
    );
    assert_eq!(OperationId::from_str("OPE-x"), Err(ModelsError::HashError));
    assert_eq!(
        massa_protocol::hash::Hash::from_prefixed_text(&format!("-{}", text), ""),
        Ok(digest)
    );
}
