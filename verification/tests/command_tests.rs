use bitcoin_client::apdu::{APDUCommand, StatusWord};
use bitcoin_client::command;
use bitcoin_client::wallet::{Version, WalletPolicy};

fn hex(text: &str) -> Vec<u8> {
    let digits: Vec<u8> = text
        .bytes()
        .map(|c| match c {
            b'0'..=b'9' => c - b'0',
            b'a'..=b'f' => c - b'a' + 10,
            _ => panic!("no hex digit"),
        })
        .collect();
    digits.chunks(2).map(|pair| pair[0] * 16 + pair[1]).collect()
}

fn sample_wallet(version: Version) -> WalletPolicy {
    WalletPolicy::new(
        "Cold storage".to_string(),
        version,
        "wsh(sortedmulti(2,@0/**,@1/**))".to_string(),
        vec![
            "[76223a6e/48'/1'/0'/2']tpubDE7NQymr4AFtewpAsWtnreyq9ghkzQBXpCZjWLFVRAvnbf7vya2eMTvT2fPapNqL8SuVvLQdbUbMfWLVDCZKnsEBqp6UK93QEzL8Ck23AwF".to_string(),
            "[f5acc2fd/48'/1'/0'/2']tpubDFAqEGNyad35aBCKUAXbQGDjdVhNueno5ZZVEn3sQbW5ci457gLR7HyTmHBg93oourBssgUxuWz1jX5uhc1qaqFo9VsybY1J5FuedLfm4dK".to_string(),
        ],
    )
}

#[test]
fn status_words_have_codes() {
    assert_eq!(StatusWord::from_code(0x9000), StatusWord::OK);
    assert_eq!(StatusWord::from_code(0xE000), StatusWord::InterruptedExecution);
    assert_eq!(StatusWord::from_code(0x6985), StatusWord::Deny);
    assert_eq!(StatusWord::from_code(0x6A80), StatusWord::IncorrectData);
    assert_eq!(StatusWord::from_code(0x6A82), StatusWord::NotSupported);
    assert_eq!(StatusWord::from_code(0x6A86), StatusWord::WrongP1P2);
    assert_eq!(StatusWord::from_code(0x6A87), StatusWord::WrongDataLength);
    assert_eq!(StatusWord::from_code(0x6D00), StatusWord::InsNotSupported);
    assert_eq!(StatusWord::from_code(0x6E00), StatusWord::ClaNotSupported);
    assert_eq!(StatusWord::from_code(0xB007), StatusWord::BadState);
    assert_eq!(StatusWord::from_code(0xB008), StatusWord::SignatureFail);
    assert_eq!(StatusWord::from_code(0x1234), StatusWord::Unknown);
    assert_eq!(StatusWord::from_code(0), StatusWord::Unknown);
    assert_eq!(StatusWord::OK.code(), Some(0x9000));
    assert_eq!(StatusWord::InterruptedExecution.code(), Some(0xE000));
    assert_eq!(StatusWord::Unknown.code(), None);
    for code in [0x6985u16, 0x6A80, 0x6A82, 0x6A86, 0x6A87, 0x6D00, 0x6E00, 0xB007, 0xB008] {
        assert_eq!(StatusWord::from_code(code).code(), Some(code));
    }
}

#[test]
fn commands_without_data() {
    assert_eq!(
        command::get_version(),
        APDUCommand { cla: 0xB0, ins: 0x01, p1: 0, p2: 0, data: vec![] }
    );
    assert_eq!(
        command::get_master_fingerprint(),
        APDUCommand { cla: 0xE1, ins: 0x05, p1: 0, p2: 1, data: vec![] }
    );
}

#[test]
fn continue_interrupted_carries_the_answer() {
    assert_eq!(
        command::continue_interrupted(vec![1, 2, 3]),
        APDUCommand { cla: 0xF8, ins: 0x01, p1: 0, p2: 0, data: vec![1, 2, 3] }
    );
}

#[test]
fn extended_pubkey_command_holds_the_path() {
    let path = [0x8000_0054u32, 0x8000_0000, 0x8000_0000, 0, 5];
    assert_eq!(
        command::get_extended_pubkey(&path, true),
        APDUCommand {
            cla: 0xE1,
            ins: 0x00,
            p1: 0,
            p2: 1,
            data: hex("01058000005480000000800000000000000000000005"),
        }
    );
    assert_eq!(command::get_extended_pubkey(&[], false).data, vec![0, 0]);
}

#[test]
fn wallet_serialization() {
    let v2 = sample_wallet(Version::V2);
    assert_eq!(
        v2.serialize(),
        hex("020c436f6c642073746f726167651fb56c3d5542fa09b3956834a9ff6a1df5c36a38e5b02c63c54b41a9a04403b82602516d2c50a89476ecffeec658057f0110674bbfafc18797dc480c7ed53802f3fb")
    );
    assert_eq!(
        v2.id().to_vec(),
        hex("cd9474ae9e74403128477789789db43a215e996af80d60120f0d844f8404ac64")
    );
    let v1 = sample_wallet(Version::V1);
    assert_eq!(
        v1.serialize(),
        hex("010c436f6c642073746f726167651f77736828736f727465646d756c746928322c40302f2a2a2c40312f2a2a292902516d2c50a89476ecffeec658057f0110674bbfafc18797dc480c7ed53802f3fb")
    );
    assert_eq!(
        v1.id().to_vec(),
        hex("ac0b5fd8355754043da7f4d2a891977bb99de9f06a92ed4d629a3d0f60a4c619")
    );
    assert_eq!(v1.template_bytes(), b"wsh(sortedmulti(2,@0/**,@1/**))".to_vec());
    assert_eq!(v1.key_bytes().len(), 2);
    assert_eq!(v1.key_bytes()[0], v1.keys[0].as_bytes().to_vec());
}

#[test]
fn register_wallet_command_holds_the_policy() {
    let wallet = sample_wallet(Version::V2);
    let serialized = wallet.serialize();
    let mut data = vec![serialized.len() as u8];
    data.extend_from_slice(&serialized);
    assert_eq!(
        command::register_wallet(&wallet),
        APDUCommand { cla: 0xE1, ins: 0x02, p1: 0, p2: 1, data }
    );
}

#[test]
fn wallet_address_command() {
    let wallet = sample_wallet(Version::V2);
    let id = hex("cd9474ae9e74403128477789789db43a215e996af80d60120f0d844f8404ac64");
    let hmac = [0x5Au8; 32];
    let command = command::get_wallet_address(&wallet, Some(&hmac), true, 0x0102_0304, false);
    let mut data = vec![0u8];
    data.extend_from_slice(&id);
    data.extend_from_slice(&hmac);
    data.push(1);
    data.extend_from_slice(&[1, 2, 3, 4]);
    assert_eq!(command, APDUCommand { cla: 0xE1, ins: 0x03, p1: 0, p2: 1, data });

    let unregistered = command::get_wallet_address(&wallet, None, false, 7, true);
    let mut data = vec![1u8];
    data.extend_from_slice(&id);
    data.extend_from_slice(&[0u8; 32]);
    data.push(0);
    data.extend_from_slice(&[0, 0, 0, 7]);
    assert_eq!(unregistered.data, data);
}

#[test]
fn sign_psbt_command() {
    let wallet = sample_wallet(Version::V2);
    let id = hex("cd9474ae9e74403128477789789db43a215e996af80d60120f0d844f8404ac64");
    let global = vec![0xAAu8; 65];
    let command =
        command::sign_psbt(&global, 2, &[0xBB; 32], 300, &[0xCC; 32], &wallet, Some(&[0xDD; 32]));
    let mut data = global.clone();
    data.push(2);
    data.extend_from_slice(&[0xBB; 32]);
    data.extend_from_slice(&[0xFD, 0x2C, 0x01]);
    data.extend_from_slice(&[0xCC; 32]);
    data.extend_from_slice(&id);
    data.extend_from_slice(&[0xDD; 32]);
    assert_eq!(command, APDUCommand { cla: 0xE1, ins: 0x04, p1: 0, p2: 1, data });
}

#[test]
fn sign_message_command() {
    let command = command::sign_message(150, &[0xEE; 32], &[0x8000_002C, 1]);
    let mut data = vec![2u8, 0x80, 0, 0, 0x2C, 0, 0, 0, 1, 150];
    data.extend_from_slice(&[0xEE; 32]);
    assert_eq!(command, APDUCommand { cla: 0xE1, ins: 0x10, p1: 0, p2: 1, data });
}

fn policy(template: &str, keys: &[&str]) -> WalletPolicy {
    WalletPolicy::new(
        "p".to_string(),
        Version::V2,
        template.to_string(),
        keys.iter().map(|key| key.to_string()).collect(),
    )
}

#[test]
fn descriptor_puts_keys_in_the_place_of_placeholders() {
    let text = |template: &str, keys: &[&str], change: bool| {
        policy(template, keys)
            .get_descriptor(change)
            .map(|bytes| String::from_utf8(bytes).unwrap())
    };
    assert_eq!(text("wpkh(@0)", &["K"], false), Some("wpkh(K)".to_string()));
    assert_eq!(
        text("wsh(sortedmulti(2,@0/**,@1/**))", &["[f/1']A", "B"], false),
        Some("wsh(sortedmulti(2,[f/1']A/0/*,B/0/*))".to_string())
    );
    assert_eq!(
        text("wsh(sortedmulti(2,@0/**,@1/**))", &["[f/1']A", "B"], true),
        Some("wsh(sortedmulti(2,[f/1']A/1/*,B/1/*))".to_string())
    );
    assert_eq!(text("@1@0@1", &["a", "b"], false), Some("bab".to_string()));
    assert_eq!(text("", &[], false), Some(String::new()));
    assert_eq!(text("pk(x)/*", &[], true), Some("pk(x)/*".to_string()));
    assert_eq!(text("a/**/**b/***", &[], true), Some("a/1/*/1/*b/1/**".to_string()));
    assert_eq!(text("a/*/**", &[], false), Some("a/*/0/*".to_string()));
    assert_eq!(text("@0", &["x/**"], true), Some("x/1/*".to_string()));
    assert_eq!(text("@0", &["@5"], true), Some("@5".to_string()));
}

#[test]
fn descriptor_reads_all_digits_of_a_placeholder() {
    let keys: Vec<String> = (0..12).map(|i| format!("k{}.", i)).collect();
    let wallet = WalletPolicy::new("p".to_string(), Version::V1, "@1,@10,@11,@01,@007".to_string(), keys);
    assert_eq!(
        wallet.get_descriptor(false).map(|bytes| String::from_utf8(bytes).unwrap()),
        Some("k1.,k10.,k11.,k1.,k7.".to_string())
    );
}

#[test]
fn descriptor_fails_on_a_placeholder_without_key() {
    for (template, keys) in [
        ("wpkh(@1)", &["K"][..]),
        ("wpkh(@0)", &[][..]),
        ("wpkh(@)", &["K"][..]),
        ("@", &["K"][..]),
        ("@0@", &["K"][..]),
        ("@x", &["K"][..]),
        ("@99999999999999999999999999999999999999999", &["K"][..]),
        ("@18446744073709551616", &["K"][..]),
        ("@0,@2", &["a", "b"][..]),
    ] {
        assert_eq!(policy(template, keys).get_descriptor(false), None, "{}", template);
        assert_eq!(policy(template, keys).get_descriptor(true), None, "{}", template);
    }
}
