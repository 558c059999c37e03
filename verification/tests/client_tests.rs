use bitcoin_client::apdu::{APDUCommand, StatusWord};
use bitcoin_client::client::{message_chunks, BitcoinClient, Exchange, Step};
use bitcoin_client::error::{BitcoinClientError, InterpreterError};
use bitcoin_client::hash::hash_element;
use bitcoin_client::mapping::get_merkleized_map_commitment;
use bitcoin_client::merkle::verify_proof;
use bitcoin_client::psbt::{
    get_v2_global_pairs, get_v2_input_pairs, get_v2_output_pairs, Input, OutPoint, Output, Psbt,
    Transaction, TxIn, TxOut,
};
use bitcoin_client::response::parse_signatures;
use bitcoin_client::signature::PartialSignature;
use bitcoin_client::wallet::{Version, WalletPolicy};
use std::str::FromStr;

fn hex(text: &str) -> Vec<u8> {
    let digits: Vec<u8> = text
        .bytes()
        .map(|c| match c {
            b'0'..=b'9' => c - b'0',
            b'a'..=b'f' => c - b'a' + 10,
            _ => panic!("no hex digit"),
        })
        .collect();
    digits.chunks(2).map(|pair| pair[0] * 16 + pair[1]).collect()
}

fn hash32(bytes: &[u8]) -> [u8; 32] {
    let mut out = [0u8; 32];
    out.copy_from_slice(bytes);
    out
}

fn sample_wallet() -> WalletPolicy {
    WalletPolicy::new(
        "Cold storage".to_string(),
        Version::V2,
        "wsh(sortedmulti(2,@0/**,@1/**))".to_string(),
        vec![
            "[76223a6e/48'/1'/0'/2']tpubDE7NQymr4AFtewpAsWtnreyq9ghkzQBXpCZjWLFVRAvnbf7vya2eMTvT2fPapNqL8SuVvLQdbUbMfWLVDCZKnsEBqp6UK93QEzL8Ck23AwF".to_string(),
            "[f5acc2fd/48'/1'/0'/2']tpubDFAqEGNyad35aBCKUAXbQGDjdVhNueno5ZZVEn3sQbW5ci457gLR7HyTmHBg93oourBssgUxuWz1jX5uhc1qaqFo9VsybY1J5FuedLfm4dK".to_string(),
        ],
    )
}

fn public_key() -> Vec<u8> {
    hex("0279be667ef9dcbbac55a06295ce870b07029bfcdb2dce28d959f2815b16f81798")
}

fn minimal_signature() -> Vec<u8> {
    hex("300602010102010101")
}

fn fragment(index: u8, key: &[u8], signature: &[u8]) -> Vec<u8> {
    let mut out = vec![index, key.len() as u8];
    out.extend_from_slice(key);
    out.extend_from_slice(signature);
    out
}

fn two_input_psbt() -> Psbt {
    let input = |n: u8| TxIn {
        previous_output: OutPoint { txid: [n; 32], vout: n as u32 },
        sequence: 0xFFFF_FFFE,
    };
    let utxo = |value: u64| {
        let mut known = Input::default();
        known.witness_utxo = Some(TxOut { value, script_pubkey: vec![0x51] });
        known
    };
    Psbt {
        unsigned_tx: Transaction {
            version: 2,
            lock_time: 0,
            input: vec![input(1), input(2)],
            output: vec![TxOut { value: 1000, script_pubkey: vec![0x52] }],
        },
        version: 0,
        xpub: vec![],
        proprietary: vec![],
        unknown: vec![],
        inputs: vec![utxo(600), utxo(700)],
        outputs: vec![Output::default()],
    }
}

/// Plays the part of the channel: hands the exchange one reply for each
/// command, and says how it ended, how many replies were read, which
/// commands were sent and which fragments came out.
fn drive_all(
    exchange: &mut Exchange,
    replies: Vec<(StatusWord, Vec<u8>)>,
) -> (Option<Result<Vec<u8>, BitcoinClientError>>, usize, Vec<APDUCommand>, Vec<Vec<u8>>) {
    let mut sent = vec![exchange.command().clone()];
    let mut exchanges = 0;
    for (status, payload) in replies {
        exchanges += 1;
        match exchange.on_response(status, payload) {
            Step::Send(command) => sent.push(command),
            Step::Done { payload, yielded } => return (Some(Ok(payload)), exchanges, sent, yielded),
            Step::Failed(error) => return (Some(Err(error)), exchanges, sent, vec![]),
        }
    }
    (None, exchanges, sent, vec![])
}

fn drive(
    exchange: &mut Exchange,
    replies: Vec<(StatusWord, Vec<u8>)>,
) -> (Option<Result<Vec<u8>, BitcoinClientError>>, usize, Vec<APDUCommand>) {
    let (outcome, exchanges, sent, _) = drive_all(exchange, replies);
    (outcome, exchanges, sent)
}

#[test]
fn new_keeps_the_transport() {
    let client = BitcoinClient::new(7u32);
    assert_eq!(*client.transport(), 7u32);
    let named = BitcoinClient::new(String::from("usb"));
    assert_eq!(named.transport(), "usb");
}

fn single_key_wallet(template: &str) -> WalletPolicy {
    WalletPolicy::new(
        "Single".to_string(),
        Version::V2,
        template.to_string(),
        vec!["0279be667ef9dcbbac55a06295ce870b07029bfcdb2dce28d959f2815b16f81798".to_string()],
    )
}

fn derive(descriptor: &str, index: u32) -> Option<Vec<u8>> {
    let parsed = miniscript::Descriptor::<miniscript::DescriptorPublicKey>::from_str(descriptor);
    parsed.ok().map(|parsed| parsed.at_derivation_index(index).script_pubkey().into_bytes())
}

#[test]
fn address_verification_is_a_setting() {
    let wallet = single_key_wallet("wpkh(@0)");
    let script = hex("0014751e76e8199196d454941c45d1b3a323f1433bd6");
    let mut other = script.clone();
    other[3] ^= 1;
    let broken = single_key_wallet("wpkh(@1)");
    let nonsense = single_key_wallet("nonsense(@0)");

    let trusting = BitcoinClient::new(());
    assert!(!trusting.verifies_addresses());
    assert_eq!(trusting.descriptor_to_check(&wallet, false), Ok(None));
    assert_eq!(trusting.descriptor_to_check(&broken, true), Ok(None));
    assert_eq!(trusting.check_address(Some(script.clone()), &script), Ok(()));
    assert_eq!(trusting.check_address(Some(other.clone()), &script), Ok(()));
    assert_eq!(trusting.check_address(None, &script), Ok(()));

    let checking = BitcoinClient::with_address_verification(9u8);
    assert!(checking.verifies_addresses());
    assert_eq!(*checking.transport(), 9u8);
    let descriptor = checking.descriptor_to_check(&wallet, false).unwrap().unwrap();
    assert_eq!(
        descriptor,
        "wpkh(0279be667ef9dcbbac55a06295ce870b07029bfcdb2dce28d959f2815b16f81798)"
    );
    assert_eq!(checking.check_address(derive(&descriptor, 0), &script), Ok(()));
    assert_eq!(checking.check_address(derive(&descriptor, 77), &script), Ok(()));
    assert_eq!(
        checking.check_address(derive(&descriptor, 0), &other),
        Err(BitcoinClientError::InvalidResponse("Invalid address".to_string()))
    );
    assert_eq!(
        checking.descriptor_to_check(&broken, false),
        Err(BitcoinClientError::ClientError("Failed to get descriptor".to_string()))
    );
    let unparsed = checking.descriptor_to_check(&nonsense, false).unwrap().unwrap();
    assert_eq!(derive(&unparsed, 0), None);
    assert_eq!(
        checking.check_address(derive(&unparsed, 0), &script),
        Err(BitcoinClientError::ClientError("Failed to parse descriptor".to_string()))
    );
}

#[test]
fn address_check_follows_branch_and_index() {
    let xpub = "xpub661MyMwAqRbcFtXgS5sYJABqqG9YLmC4Q1Rdap9gSE8NqtwybGhePY2gZ29ESFjqJoCu1Rupje8YtGqsefD265TMg7usUDFdp6W1EGMcet8";
    let wallet = WalletPolicy::new(
        "Ranged".to_string(),
        Version::V2,
        "wpkh(@0/**)".to_string(),
        vec![xpub.to_string()],
    );
    let checking = BitcoinClient::with_address_verification(());
    for (change, branch) in [(false, 0u32), (true, 1)] {
        let ranged = format!("wpkh({}/{}/*)", xpub, branch);
        assert_eq!(wallet.get_descriptor(change), Some(ranged.clone().into_bytes()));
        assert_eq!(checking.descriptor_to_check(&wallet, change), Ok(Some(ranged.clone())));
        let other = checking.descriptor_to_check(&wallet, !change).unwrap().unwrap();
        let expected = derive(&ranged, 12).unwrap();
        assert_eq!(checking.check_address(derive(&ranged, 12), &expected), Ok(()));
        assert_eq!(
            checking.check_address(derive(&other, 12), &expected),
            Err(BitcoinClientError::InvalidResponse("Invalid address".to_string()))
        );
        assert_eq!(
            checking.check_address(derive(&ranged, 13), &expected),
            Err(BitcoinClientError::InvalidResponse("Invalid address".to_string()))
        );
    }
}

#[test]
fn registration_is_followed_by_an_address_query_where_addresses_are_checked() {
    let wallet = sample_wallet();
    let hmac = [0x21u8; 32];
    assert!(BitcoinClient::new(()).after_registration(&wallet, &hmac).is_none());
    let checking = BitcoinClient::with_address_verification(());
    let next = checking.after_registration(&wallet, &hmac).unwrap();
    assert_eq!(
        *next.command(),
        bitcoin_client::command::get_wallet_address(&wallet, Some(&hmac), false, 0, false)
    );
    let mut next = next;
    let mut request = vec![0x40, 0];
    request.extend_from_slice(&wallet.id());
    assert!(matches!(
        next.on_response(StatusWord::InterruptedExecution, request),
        Step::Send(_)
    ));
}

#[test]
fn operations_without_interpreter_fail_on_interruption() {
    let client = BitcoinClient::new(());
    let mut exchange = client.get_version();
    assert_eq!(exchange.command().cla, 0xB0);
    assert_eq!(exchange.command().ins, 0x01);
    match exchange.on_response(StatusWord::InterruptedExecution, vec![0x10, 1, 2]) {
        Step::Failed(error) => assert_eq!(
            error,
            BitcoinClientError::Device { command: 0x01, status: StatusWord::InterruptedExecution }
        ),
        other => panic!("unexpected step {:?}", other),
    }
    match exchange.on_response(StatusWord::OK, vec![5]) {
        Step::Done { payload, yielded } => {
            assert_eq!(payload, vec![5]);
            assert_eq!(yielded, Vec::<Vec<u8>>::new());
        }
        other => panic!("unexpected step {:?}", other),
    }
}

#[test]
fn success_gives_the_payload() {
    let client = BitcoinClient::new(());
    let mut exchange = client.get_master_fingerprint();
    let (outcome, exchanges, sent) = drive(&mut exchange, vec![(StatusWord::OK, vec![1, 2, 3, 4])]);
    assert_eq!(outcome, Some(Ok(vec![1, 2, 3, 4])));
    assert_eq!(exchanges, 1);
    assert_eq!(sent, vec![APDUCommand { cla: 0xE1, ins: 0x05, p1: 0, p2: 1, data: vec![] }]);
}

#[test]
fn device_status_is_a_failure_with_the_opcode() {
    let client = BitcoinClient::new(());
    for status in [
        StatusWord::Deny,
        StatusWord::IncorrectData,
        StatusWord::NotSupported,
        StatusWord::WrongP1P2,
        StatusWord::WrongDataLength,
        StatusWord::InsNotSupported,
        StatusWord::ClaNotSupported,
        StatusWord::BadState,
        StatusWord::SignatureFail,
        StatusWord::Unknown,
    ] {
        let mut plain = client.get_extended_pubkey(&[1, 2], false);
        let (outcome, _, _) = drive(&mut plain, vec![(status, vec![9])]);
        assert_eq!(outcome, Some(Err(BitcoinClientError::Device { command: 0x00, status })));
        let mut with_interpreter = client.register_wallet(&sample_wallet());
        let (outcome, _, _) = drive(&mut with_interpreter, vec![(status, vec![9])]);
        assert_eq!(outcome, Some(Err(BitcoinClientError::Device { command: 0x02, status })));
    }
}

#[test]
fn interrupted_k_times_takes_k_plus_one_exchanges() {
    let client = BitcoinClient::new(());
    let wallet = sample_wallet();
    let id = wallet.id();
    for k in 0..6usize {
        let mut exchange = client.register_wallet(&wallet);
        let mut request = vec![0x40, 0];
        request.extend_from_slice(&id);
        let mut replies: Vec<(StatusWord, Vec<u8>)> =
            (0..k).map(|_| (StatusWord::InterruptedExecution, request.clone())).collect();
        replies.push((StatusWord::OK, vec![0xAB; 64]));
        replies.push((StatusWord::OK, vec![0xCD; 64]));
        let (outcome, exchanges, sent) = drive(&mut exchange, replies);
        assert_eq!(outcome, Some(Ok(vec![0xAB; 64])));
        assert_eq!(exchanges, k + 1);
        assert_eq!(sent.len(), k + 1);
        let serialized = wallet.serialize();
        let mut answer = vec![serialized.len() as u8, serialized.len() as u8];
        answer.extend_from_slice(&serialized);
        for command in &sent[1..] {
            assert_eq!(
                *command,
                APDUCommand { cla: 0xF8, ins: 0x01, p1: 0, p2: 0, data: answer.clone() }
            );
        }
    }
}

#[test]
fn without_success_the_exchange_ends_only_in_failure() {
    let client = BitcoinClient::new(());
    let wallet = sample_wallet();
    let mut request = vec![0x40, 0];
    request.extend_from_slice(&wallet.id());

    let mut waiting = client.register_wallet(&wallet);
    let replies = (0..50).map(|_| (StatusWord::InterruptedExecution, request.clone())).collect();
    let (outcome, exchanges, sent) = drive(&mut waiting, replies);
    assert_eq!(outcome, None);
    assert_eq!(exchanges, 50);
    assert_eq!(sent.len(), 51);

    let mut denied = client.register_wallet(&wallet);
    let mut replies: Vec<(StatusWord, Vec<u8>)> =
        (0..3).map(|_| (StatusWord::InterruptedExecution, request.clone())).collect();
    replies.push((StatusWord::Deny, vec![]));
    replies.push((StatusWord::OK, vec![1]));
    let (outcome, exchanges, _) = drive(&mut denied, replies);
    assert_eq!(
        outcome,
        Some(Err(BitcoinClientError::Device { command: 0x02, status: StatusWord::Deny }))
    );
    assert_eq!(exchanges, 4);
}

#[test]
fn unanswerable_request_aborts_at_once() {
    let client = BitcoinClient::new(());
    let mut exchange = client.register_wallet(&sample_wallet());
    let mut request = vec![0x40, 0];
    request.extend_from_slice(&[0x77; 32]);
    let (outcome, exchanges, sent) = drive(
        &mut exchange,
        vec![(StatusWord::InterruptedExecution, request), (StatusWord::OK, vec![1])],
    );
    assert_eq!(
        outcome,
        Some(Err(BitcoinClientError::Interpreter(InterpreterError::UnknownHash)))
    );
    assert_eq!(exchanges, 1);
    assert_eq!(sent.len(), 1);

    let mut other = client.register_wallet(&sample_wallet());
    let (outcome, _, _) = drive(&mut other, vec![(StatusWord::InterruptedExecution, vec![])]);
    assert_eq!(outcome, Some(Err(BitcoinClientError::Interpreter(InterpreterError::EmptyInput))));
    let mut third = client.register_wallet(&sample_wallet());
    let (outcome, _, _) = drive(&mut third, vec![(StatusWord::InterruptedExecution, vec![0x99])]);
    assert_eq!(
        outcome,
        Some(Err(BitcoinClientError::Interpreter(InterpreterError::UnknownCommand(0x99))))
    );
}

#[test]
fn wallet_operations_register_policy_keys_and_template() {
    let client = BitcoinClient::new(());
    let wallet = sample_wallet();
    let mut exchange = client.get_wallet_address(&wallet, None, false, 3, true);
    assert_eq!(
        *exchange.command(),
        bitcoin_client::command::get_wallet_address(&wallet, None, false, 3, true)
    );
    let ask = |hash: &[u8]| {
        let mut request = vec![0x40, 0];
        request.extend_from_slice(hash);
        (StatusWord::InterruptedExecution, request)
    };
    let template_hash = hex("b56c3d5542fa09b3956834a9ff6a1df5c36a38e5b02c63c54b41a9a04403b826");
    let key_leaf = hash_element(wallet.keys[1].as_bytes());
    let keys_root = hex("516d2c50a89476ecffeec658057f0110674bbfafc18797dc480c7ed53802f3fb");
    let mut proof_request = vec![0x41];
    proof_request.extend_from_slice(&keys_root);
    proof_request.extend_from_slice(&[2, 1]);
    let (outcome, exchanges, sent) = drive(
        &mut exchange,
        vec![
            ask(&wallet.id()),
            ask(&template_hash),
            (StatusWord::InterruptedExecution, proof_request),
            ask(&key_leaf),
            (StatusWord::OK, b"bc1qexample".to_vec()),
        ],
    );
    assert_eq!(outcome, Some(Ok(b"bc1qexample".to_vec())));
    assert_eq!(exchanges, 5);
    assert_eq!(&sent[2].data[2..], wallet.descriptor_template.as_bytes());
    assert_eq!(&sent[3].data[..32], &key_leaf);
    assert_eq!(&sent[3].data[32..34], &[1, 1]);
    assert_eq!(&sent[3].data[34..], &hash_element(wallet.keys[0].as_bytes()));
    assert_eq!(sent[4].data[2], 0);
    assert_eq!(&sent[4].data[3..], wallet.keys[1].as_bytes());
}

#[test]
fn message_is_committed_in_chunks() {
    let message: Vec<u8> = (0..150u8).collect();
    assert_eq!(
        message_chunks(&message),
        vec![message[..64].to_vec(), message[64..128].to_vec(), message[128..].to_vec()]
    );
    assert_eq!(message_chunks(&[]), Vec::<Vec<u8>>::new());
    assert_eq!(message_chunks(&[7; 64]), vec![vec![7; 64]]);
    assert_eq!(message_chunks(&[7; 65]), vec![vec![7; 64], vec![7]]);
    assert_eq!(message_chunks(&[7; 128]).len(), 2);

    let client = BitcoinClient::new(());
    let mut exchange = client.sign_message(&message, &[0x8000_002C, 0]);
    let root = hex("6b97e13a64269ee20a816a7705c1e8b1580ccd344c8a806bfdde9247e896fdf3");
    let mut data = vec![2u8, 0x80, 0, 0, 0x2C, 0, 0, 0, 0, 150];
    data.extend_from_slice(&root);
    assert_eq!(*exchange.command(), APDUCommand { cla: 0xE1, ins: 0x10, p1: 0, p2: 1, data });

    let mut request = vec![0x41];
    request.extend_from_slice(&root);
    request.extend_from_slice(&[3, 2]);
    let step = exchange.on_response(StatusWord::InterruptedExecution, request);
    let reply = match step {
        Step::Send(command) => command.data,
        other => panic!("unexpected step {:?}", other),
    };
    let leaf = hash32(&reply[..32]);
    assert_eq!(leaf, hash_element(&message[128..]));
    let proof: Vec<[u8; 32]> = reply[34..].chunks(32).map(hash32).collect();
    assert!(verify_proof(&hash32(&root), 3, 2, &leaf, &proof));
}

#[test]
fn sign_psbt_commits_to_every_group() {
    let client = BitcoinClient::new(());
    let wallet = sample_wallet();
    let psbt = two_input_psbt();
    let hmac = [0x11u8; 32];
    let mut exchange = client.sign_psbt(&psbt, &wallet, Some(&hmac)).unwrap();

    let global = get_merkleized_map_commitment(&get_v2_global_pairs(&psbt));
    let inputs: Vec<Vec<u8>> = (0..2)
        .map(|i| {
            get_merkleized_map_commitment(&get_v2_input_pairs(
                &psbt.inputs[i],
                &psbt.unsigned_tx.input[i],
            ))
        })
        .collect();
    let outputs = vec![get_merkleized_map_commitment(&get_v2_output_pairs(
        &psbt.outputs[0],
        &psbt.unsigned_tx.output[0],
    ))];
    let mut scratch = bitcoin_client::interpreter::ClientCommandInterpreter::new();
    let inputs_root = scratch.add_known_list(&inputs);
    let outputs_root = scratch.add_known_list(&outputs);
    let data = exchange.command().data.clone();
    assert_eq!(exchange.command().ins, 0x04);
    assert_eq!(&data[..65], &global[..]);
    assert_eq!(data[65], 2);
    assert_eq!(&data[66..98], &inputs_root);
    assert_eq!(data[98], 1);
    assert_eq!(&data[99..131], &outputs_root);
    assert_eq!(&data[131..163], &wallet.id());
    assert_eq!(&data[163..], &hmac);

    // The device reaches a field in two steps: the commitment of an input
    // from the list of inputs, then a value from the input's own trees.
    let ask = |exchange: &mut Exchange, request: Vec<u8>| match exchange
        .on_response(StatusWord::InterruptedExecution, request)
    {
        Step::Send(command) => command.data,
        other => panic!("unexpected step {:?}", other),
    };
    let mut request = vec![0x41];
    request.extend_from_slice(&inputs_root);
    request.extend_from_slice(&[2, 1]);
    let reply = ask(&mut exchange, request);
    let leaf = hash32(&reply[..32]);
    let proof: Vec<[u8; 32]> = reply[34..].chunks(32).map(hash32).collect();
    assert!(verify_proof(&inputs_root, 2, 1, &leaf, &proof));
    let mut request = vec![0x40, 0];
    request.extend_from_slice(&leaf);
    let reply = ask(&mut exchange, request);
    assert_eq!(&reply[..3], &[66, 66, 0]);
    let commitment = reply[3..].to_vec();
    assert_eq!(commitment, inputs[1]);

    let keys_root = &commitment[1..33];
    let values_root = hash32(&commitment[33..65]);
    let mut request = vec![0x42];
    request.extend_from_slice(keys_root);
    request.extend_from_slice(&hash_element(&[0x0f]));
    let reply = ask(&mut exchange, request);
    assert_eq!(reply, vec![1, 2]);
    let mut request = vec![0x41];
    request.extend_from_slice(&values_root);
    request.extend_from_slice(&[4, 2]);
    let reply = ask(&mut exchange, request);
    let value_leaf = hash32(&reply[..32]);
    let proof: Vec<[u8; 32]> = reply[34..].chunks(32).map(hash32).collect();
    assert!(verify_proof(&values_root, 4, 2, &value_leaf, &proof));
    let mut request = vec![0x40, 0];
    request.extend_from_slice(&value_leaf);
    assert_eq!(ask(&mut exchange, request), vec![5, 5, 0, 2, 0, 0, 0]);

    let mut request = vec![0x42];
    request.extend_from_slice(keys_root);
    request.extend_from_slice(&hash_element(&[0x03]));
    assert_eq!(ask(&mut exchange, request), vec![0, 0]);
}

#[test]
fn sign_psbt_refuses_inputs_without_counterpart() {
    let client = BitcoinClient::new(());
    let wallet = sample_wallet();
    let mut psbt = two_input_psbt();
    psbt.inputs.push(Input::default());
    assert_eq!(
        client.sign_psbt(&psbt, &wallet, None).err(),
        Some(BitcoinClientError::InvalidPsbt)
    );
    let mut psbt = two_input_psbt();
    psbt.outputs.push(Output::default());
    assert_eq!(
        client.sign_psbt(&psbt, &wallet, None).err(),
        Some(BitcoinClientError::InvalidPsbt)
    );
    let mut psbt = two_input_psbt();
    psbt.inputs.pop();
    psbt.outputs.pop();
    assert!(client.sign_psbt(&psbt, &wallet, None).is_ok());
    assert!(client.sign_psbt(&Psbt::default(), &wallet, None).is_ok());
}

#[test]
fn end_to_end_signing() {
    let client = BitcoinClient::new(());
    let wallet = sample_wallet();
    let psbt = two_input_psbt();
    let mut exchange = client.sign_psbt(&psbt, &wallet, None).unwrap();
    let mut first = vec![0x10];
    first.extend_from_slice(&fragment(0, &public_key(), &minimal_signature()));
    let mut second = vec![0x10];
    second.extend_from_slice(&fragment(1, &public_key(), &minimal_signature()));
    let (outcome, exchanges, sent, yielded) = drive_all(
        &mut exchange,
        vec![
            (StatusWord::InterruptedExecution, first),
            (StatusWord::InterruptedExecution, second),
            (StatusWord::OK, vec![]),
        ],
    );
    assert_eq!(outcome, Some(Ok(vec![])));
    assert_eq!(exchanges, 3);
    assert_eq!(sent[1], APDUCommand { cla: 0xF8, ins: 0x01, p1: 0, p2: 0, data: vec![] });
    assert_eq!(sent[2], sent[1]);
    assert_eq!(yielded.len(), 2);
    let signatures = parse_signatures(yielded).unwrap();
    assert_eq!(
        signatures,
        vec![
            (0, PartialSignature::Sig { key: public_key(), signature: minimal_signature() }),
            (1, PartialSignature::Sig { key: public_key(), signature: minimal_signature() }),
        ]
    );
    let key = bitcoin::PublicKey::from_slice(&public_key()).unwrap();
    let signature = bitcoin::EcdsaSig::from_slice(&minimal_signature()).unwrap();
    for (_, decoded) in signatures {
        match decoded {
            PartialSignature::Sig { key: ours, signature: theirs } => {
                assert_eq!(bitcoin::PublicKey::from_slice(&ours).unwrap(), key);
                assert_eq!(bitcoin::EcdsaSig::from_slice(&theirs).unwrap(), signature);
            }
            other => panic!("unexpected signature {:?}", other),
        }
    }
}

#[test]
fn bare_fragment_fails_the_whole_signing() {
    let good = fragment(0, &public_key(), &minimal_signature());
    for bare in [vec![], vec![1u8]] {
        let results = vec![good.clone(), bare.clone(), good.clone()];
        let mut all = good.clone();
        all.extend_from_slice(&bare);
        all.extend_from_slice(&good);
        assert_eq!(
            parse_signatures(results),
            Err(BitcoinClientError::UnexpectedResult { command: 0x04, data: all })
        );
    }
    assert_eq!(
        parse_signatures(vec![vec![1u8]]),
        Err(BitcoinClientError::UnexpectedResult { command: 0x04, data: vec![1] })
    );

    let client = BitcoinClient::new(());
    let mut exchange = client.sign_psbt(&two_input_psbt(), &sample_wallet(), None).unwrap();
    let mut first = vec![0x10];
    first.extend_from_slice(&good);
    let (outcome, _, _, yielded) = drive_all(
        &mut exchange,
        vec![
            (StatusWord::InterruptedExecution, first),
            (StatusWord::InterruptedExecution, vec![0x10, 1]),
            (StatusWord::OK, vec![]),
        ],
    );
    assert_eq!(outcome, Some(Ok(vec![])));
    let mut all = good.clone();
    all.push(1);
    assert_eq!(
        parse_signatures(yielded),
        Err(BitcoinClientError::UnexpectedResult { command: 0x04, data: all })
    );
}

#[test]
fn fragments_come_out_only_with_success() {
    let client = BitcoinClient::new(());
    let good = fragment(0, &public_key(), &minimal_signature());
    let mut request = vec![0x10];
    request.extend_from_slice(&good);

    let mut denied = client.sign_psbt(&two_input_psbt(), &sample_wallet(), None).unwrap();
    let (outcome, _, _, yielded) = drive_all(
        &mut denied,
        vec![
            (StatusWord::InterruptedExecution, request.clone()),
            (StatusWord::Deny, vec![]),
        ],
    );
    assert_eq!(
        outcome,
        Some(Err(BitcoinClientError::Device { command: 0x04, status: StatusWord::Deny }))
    );
    assert_eq!(yielded, Vec::<Vec<u8>>::new());

    let mut done = client.sign_psbt(&two_input_psbt(), &sample_wallet(), None).unwrap();
    let (_, _, _, yielded) = drive_all(
        &mut done,
        vec![(StatusWord::InterruptedExecution, request.clone()), (StatusWord::OK, vec![])],
    );
    assert_eq!(yielded, vec![good]);
    match done.on_response(StatusWord::OK, vec![1]) {
        Step::Done { payload, yielded } => {
            assert_eq!(payload, vec![1]);
            assert_eq!(yielded, Vec::<Vec<u8>>::new());
        }
        other => panic!("unexpected step {:?}", other),
    }
}

#[test]
fn flattening_fails_without_a_counterpart() {
    let mut psbt = two_input_psbt();
    assert!(psbt.flatten_input(0).is_ok());
    assert_eq!(
        psbt.flatten_input(1),
        Ok(get_v2_input_pairs(&psbt.inputs[1], &psbt.unsigned_tx.input[1]))
    );
    assert_eq!(psbt.flatten_input(2), Err(BitcoinClientError::InvalidPsbt));
    assert_eq!(
        psbt.flatten_output(0),
        Ok(get_v2_output_pairs(&psbt.outputs[0], &psbt.unsigned_tx.output[0]))
    );
    assert_eq!(psbt.flatten_output(1), Err(BitcoinClientError::InvalidPsbt));
    assert_eq!(psbt.flatten_global(), get_v2_global_pairs(&psbt));
    psbt.inputs.push(Input::default());
    assert_eq!(psbt.flatten_input(2), Err(BitcoinClientError::InvalidPsbt));
    psbt.inputs.truncate(1);
    assert_eq!(psbt.flatten_input(1), Err(BitcoinClientError::InvalidPsbt));
    assert_eq!(psbt.flatten_input(usize::MAX), Err(BitcoinClientError::InvalidPsbt));
}
