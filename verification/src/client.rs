//! The client: how each operation begins, and what is done with every reply
//! of the device until the operation has settled.
//!
//! Nothing here sends or receives. An operation begins as an `Exchange`,
//! which holds the command to send first and, where the device may come back
//! with requests, the interpreter that answers them. Whoever owns the
//! channel sends the command, hands each reply to `Exchange::on_response`
//! and does what the returned `Step` says: send the next command, or stop
//! with the result or the failure.

use crate::apdu::{APDUCommand, CommandView, StatusWord};
use crate::bytes::{copy_range, views};
use crate::command;
use crate::command::{
    continue_interrupted_command, get_extended_pubkey_command, get_master_fingerprint_command,
    get_version_command, get_wallet_address_command, register_wallet_command,
    sign_message_command, sign_psbt_command,
};
use crate::error::{BitcoinClientError, ErrorView};
use crate::interpreter::{
    answer, lemma_extends_keeps, lemma_registering_is_consistent, lemma_two_levels_are_answered,
    lemma_with_list, lemma_with_mapping, lemma_with_mappings, lemma_with_preimage,
    roots_have_one_size, two_levels_answered, ClientCommandInterpreter, Registries,
};
use crate::mapping::{commitments, list_root, mapping_commitment};
use crate::psbt::{global_pairs, Group, Psbt};
use crate::response;
use crate::response::{address_check, check_view};
use crate::wallet::{descriptor_text, key_texts, serialization, WalletPolicy};
use vstd::prelude::*;
use vstd::utf8::{decode_utf8, encode_utf8, valid_utf8};

verus! {

/// The length of the chunks in which a message to sign is committed to.
pub const MESSAGE_CHUNK: usize = 64;

/// What an exchange holds.
pub struct ExchangeView {
    /// The command that begins the operation.
    pub command: CommandView,
    /// What the interpreter holds, for an operation that has one.
    pub interpreter: Option<Registries>,
}

/// One logical operation on its way: the command that begins it, and the
/// interpreter that answers the device's requests on the way.
pub struct Exchange {
    command: APDUCommand,
    interpreter: Option<ClientCommandInterpreter>,
}

impl View for Exchange {
    type V = ExchangeView;

    closed spec fn view(&self) -> ExchangeView {
        ExchangeView {
            command: self.command@,
            interpreter: match self.interpreter {
                Some(interpreter) => Some(interpreter@),
                None => None,
            },
        }
    }
}

/// What to do after a reply of the device.
#[derive(Debug)]
pub enum Step {
    /// The command is suspended: send this one to resume it.
    Send(APDUCommand),
    /// The operation succeeded, with this payload and, in their order,
    /// with these fragments that the device handed over on the way.
    Done { payload: Vec<u8>, yielded: Vec<Vec<u8>> },
    /// The operation failed.
    Failed(BitcoinClientError),
}

/// A step as a mathematical value.
pub enum StepView {
    Send(CommandView),
    Done { payload: Seq<u8>, yielded: Seq<Seq<u8>> },
    Failed(ErrorView),
}

impl View for Step {
    type V = StepView;

    open spec fn view(&self) -> StepView {
        match self {
            Step::Send(command) => StepView::Send(command@),
            Step::Done { payload, yielded } => StepView::Done {
                payload: payload@,
                yielded: views(yielded@),
            },
            Step::Failed(error) => StepView::Failed(error@),
        }
    }
}

/// The fragments that an exchange has been handed.
pub open spec fn fragments(state: ExchangeView) -> Seq<Seq<u8>> {
    match state.interpreter {
        Some(registries) => registries.yielded,
        None => Seq::empty(),
    }
}

/// The step that follows a reply, and the exchange after it. A reply that
/// interrupts an operation with an interpreter is a request: its answer goes
/// back in a command that resumes the operation, and where there is no
/// answer the operation fails. Any other reply settles the operation:
/// success gives the payload and the fragments, which leave the exchange
/// with its interpreter; every other status is a failure of the device, and
/// gives no fragment.
pub open spec fn next_step(state: ExchangeView, status: StatusWord, payload: Seq<u8>) -> (
    StepView,
    ExchangeView,
) {
    if state.interpreter.is_some() && status == StatusWord::InterruptedExecution {
        let (reply, after) = answer(state.interpreter.unwrap(), payload);
        let exchange = ExchangeView { interpreter: Some(after), ..state };
        match reply {
            Ok(bytes) => (StepView::Send(continue_interrupted_command(bytes)), exchange),
            Err(e) => (StepView::Failed(ErrorView::Interpreter(e)), exchange),
        }
    } else if status == StatusWord::OK {
        (
            StepView::Done { payload, yielded: fragments(state) },
            ExchangeView { interpreter: None, ..state },
        )
    } else {
        (StepView::Failed(ErrorView::Device { command: state.command.ins, status }), state)
    }
}

/// How an exchange stands after a run of replies.
pub enum Outcome {
    /// The last command is still without a reply.
    Awaiting(ExchangeView),
    /// The operation succeeded with this payload and these fragments.
    Done { payload: Seq<u8>, yielded: Seq<Seq<u8>> },
    /// The operation failed.
    Failed(ErrorView),
}

/// The outcome of an exchange to which the device replies with `replies`,
/// one for each command sent, and the number of replies that were read.
/// Nothing is read after the operation has settled.
pub open spec fn run(state: ExchangeView, replies: Seq<(StatusWord, Seq<u8>)>) -> (Outcome, nat)
    decreases replies.len(),
{
    if replies.len() == 0 {
        (Outcome::Awaiting(state), 0)
    } else {
        let (step, after) = next_step(state, replies[0].0, replies[0].1);
        match step {
            StepView::Send(_) => {
                let (outcome, exchanges) = run(after, replies.drop_first());
                (outcome, exchanges + 1)
            },
            StepView::Done { payload, yielded } => (Outcome::Done { payload, yielded }, 1),
            StepView::Failed(error) => (Outcome::Failed(error), 1),
        }
    }
}

/// Whether the interpreter can answer `requests` one after the other.
pub open spec fn answerable(registries: Registries, requests: Seq<Seq<u8>>) -> bool
    decreases requests.len(),
{
    requests.len() == 0 || (answer(registries, requests[0]).0.is_ok() && answerable(
        answer(registries, requests[0]).1,
        requests.drop_first(),
    ))
}

/// The payloads of `replies`.
pub open spec fn payloads(replies: Seq<(StatusWord, Seq<u8>)>) -> Seq<Seq<u8>> {
    replies.map_values(|reply: (StatusWord, Seq<u8>)| reply.1)
}

/// Where the device interrupts an operation any number of times with
/// requests that can be answered, and then settles it, every reply is read,
/// none is read twice, and the operation ends as the last reply says:
/// success gives its payload, every other status is the failure that the
/// device reported, with the instruction of the command that began the
/// operation.
pub proof fn lemma_interrupted_then_settled(
    state: ExchangeView,
    replies: Seq<(StatusWord, Seq<u8>)>,
)
    requires
        replies.len() >= 1,
        replies.len() > 1 ==> state.interpreter.is_some(),
        forall|i: int|
            0 <= i < replies.len() - 1 ==> (#[trigger] replies[i]).0
                == StatusWord::InterruptedExecution,
        replies.last().0 != StatusWord::InterruptedExecution || state.interpreter.is_none(),
        replies.len() > 1 ==> answerable(
            state.interpreter.unwrap(),
            payloads(replies.drop_last()),
        ),
    ensures
        run(state, replies).1 == replies.len(),
        replies.last().0 == StatusWord::OK ==> (run(state, replies).0 matches Outcome::Done {
            payload,
            ..
        } && payload == replies.last().1),
        replies.last().0 != StatusWord::OK ==> run(state, replies).0 == Outcome::Failed(
            ErrorView::Device { command: state.command.ins, status: replies.last().0 },
        ),
    decreases replies.len(),
{
    if replies.len() > 1 {
        let requests = payloads(replies.drop_last());
        assert(requests[0] == replies[0].1);
        let (step, after) = next_step(state, replies[0].0, replies[0].1);
        let rest = replies.drop_first();
        assert(rest.last() == replies.last());
        assert forall|i: int| 0 <= i < rest.len() - 1 implies (#[trigger] rest[i]).0
            == StatusWord::InterruptedExecution by {
            assert(rest[i] == replies[i + 1]);
        }
        assert(payloads(rest.drop_last()) =~= requests.drop_first());
        lemma_interrupted_then_settled(after, rest);
    }
}

/// Where the device interrupts an operation any number of times with
/// requests that can be answered, and then reports success, every reply is
/// read, none is read twice, and the operation gives the last payload.
pub proof fn lemma_interrupted_then_success(
    state: ExchangeView,
    replies: Seq<(StatusWord, Seq<u8>)>,
)
    requires
        replies.len() >= 1,
        replies.len() > 1 ==> state.interpreter.is_some(),
        forall|i: int|
            0 <= i < replies.len() - 1 ==> (#[trigger] replies[i]).0
                == StatusWord::InterruptedExecution,
        replies.last().0 == StatusWord::OK,
        replies.len() > 1 ==> answerable(
            state.interpreter.unwrap(),
            payloads(replies.drop_last()),
        ),
    ensures
        run(state, replies).0 matches Outcome::Done { payload, .. } && payload
            == replies.last().1,
        run(state, replies).1 == replies.len(),
{
    lemma_interrupted_then_settled(state, replies);
}

/// Where the device never reports success, the operation never succeeds:
/// as long as it is not settled it waits for a reply, and it settles only
/// by failing, on a status of the device or on a request without an answer.
pub proof fn lemma_no_success_without_ok(state: ExchangeView, replies: Seq<(StatusWord, Seq<u8>)>)
    requires
        forall|i: int| 0 <= i < replies.len() ==> (#[trigger] replies[i]).0 != StatusWord::OK,
    ensures
        match run(state, replies).0 {
            Outcome::Awaiting(_) => run(state, replies).1 == replies.len(),
            Outcome::Done { .. } => false,
            Outcome::Failed(error) => match error {
                ErrorView::Device { command, status } => command == state.command.ins && status
                    != StatusWord::OK,
                ErrorView::Interpreter(_) => true,
                _ => false,
            },
        },
    decreases replies.len(),
{
    if replies.len() > 0 {
        assert(replies[0].0 != StatusWord::OK);
        let (step, after) = next_step(state, replies[0].0, replies[0].1);
        let rest = replies.drop_first();
        assert forall|i: int| 0 <= i < rest.len() implies (#[trigger] rest[i]).0
            != StatusWord::OK by {
            assert(rest[i] == replies[i + 1]);
        }
        lemma_no_success_without_ok(after, rest);
    }
}

impl Exchange {
    /// The command that begins the operation.
    pub fn command(&self) -> (command: &APDUCommand)
        ensures
            command@ == self@.command,
    {
        &self.command
    }

    /// Takes a reply of the device and says what follows.
    pub fn on_response(&mut self, status: StatusWord, payload: Vec<u8>) -> (step: Step)
        ensures
            (step@, final(self)@) == next_step(old(self)@, status, payload@),
    {
        let ins = self.command.ins;
        if status == StatusWord::InterruptedExecution {
            match &mut self.interpreter {
                Some(interpreter) => {
                    return match interpreter.execute(payload) {
                        Ok(bytes) => Step::Send(command::continue_interrupted(bytes)),
                        Err(e) => Step::Failed(BitcoinClientError::Interpreter(e)),
                    };
                },
                None => {},
            }
        }
        if status == StatusWord::OK {
            let yielded = match self.interpreter.take() {
                Some(interpreter) => interpreter.yielded(),
                None => {
                    let none: Vec<Vec<u8>> = Vec::new();
                    assert(views(none@) =~= Seq::empty());
                    none
                },
            };
            Step::Done { payload, yielded }
        } else {
            Step::Failed(BitcoinClientError::Device { command: ins, status })
        }
    }
}

/// What is registered for every operation on a wallet policy: its
/// serialization, the list of its keys, and its descriptor template.
pub open spec fn wallet_registries(wallet: WalletPolicy) -> Registries {
    Registries::empty().with_preimage(serialization(wallet)).with_list(
        key_texts(wallet.keys@),
    ).with_preimage(encode_utf8(wallet.descriptor_template@))
}

/// Whether every input and every output of `psbt` has its counterpart in
/// the unsigned transaction.
pub open spec fn psbt_consistent(psbt: Psbt) -> bool {
    psbt.complete(Group::Inputs) && psbt.complete(Group::Outputs)
}

/// What is registered before a transaction is signed: the wallet policy,
/// the records of the transaction as a whole, the records of each input and
/// then the list of the commitments to them, and the same for the outputs.
pub open spec fn sign_psbt_registries(psbt: Psbt, wallet: WalletPolicy) -> Registries {
    wallet_registries(wallet).with_mapping(global_pairs(psbt)).with_committed(
        psbt.records(Group::Inputs),
    ).with_committed(psbt.records(Group::Outputs))
}

/// The exchange that signs `psbt`.
pub open spec fn sign_psbt_exchange(psbt: Psbt, wallet: WalletPolicy, hmac: Option<&[u8; 32]>)
    -> ExchangeView {
    ExchangeView {
        command: sign_psbt_command(
            mapping_commitment(global_pairs(psbt)),
            psbt.inputs@.len(),
            list_root(commitments(psbt.records(Group::Inputs))),
            psbt.outputs@.len(),
            list_root(commitments(psbt.records(Group::Outputs))),
            wallet,
            hmac,
        ),
        interpreter: Some(sign_psbt_registries(psbt, wallet)),
    }
}

/// Whatever the command that signs a transaction commits to is registered
/// when the command is sent, and the registries are consistent: they hold
/// the wallet policy, the records of the transaction as a whole, the
/// records of every input and of every output, and the two lists of
/// commitments.
pub proof fn lemma_signing_registers_all(psbt: Psbt, wallet: WalletPolicy)
    ensures
        ({
            let held = sign_psbt_registries(psbt, wallet);
            &&& held.consistent()
            &&& held.holds_preimage(serialization(wallet))
            &&& held.holds_list(key_texts(wallet.keys@))
            &&& held.holds_preimage(encode_utf8(wallet.descriptor_template@))
            &&& held.holds_mapping(global_pairs(psbt))
            &&& forall|group: Group| #[trigger] held.holds_list(commitments(psbt.records(group)))
            &&& forall|group: Group, i: int|
                0 <= i < psbt.records(group).len() ==> held.holds_mapping(
                    #[trigger] psbt.records(group)[i],
                )
        }),
{
    let inputs = psbt.records(Group::Inputs);
    let outputs = psbt.records(Group::Outputs);
    let empty = Registries::empty();
    let r1 = empty.with_preimage(serialization(wallet));
    let r2 = r1.with_list(key_texts(wallet.keys@));
    let r3 = r2.with_preimage(encode_utf8(wallet.descriptor_template@));
    let r4 = r3.with_mapping(global_pairs(psbt));
    let r5 = r4.with_mappings(inputs);
    let r6 = r5.with_list(commitments(inputs));
    let r7 = r6.with_mappings(outputs);
    let r8 = r7.with_list(commitments(outputs));
    assert(r8 == sign_psbt_registries(psbt, wallet));
    lemma_with_preimage(empty, serialization(wallet));
    lemma_with_list(r1, key_texts(wallet.keys@));
    lemma_with_preimage(r2, encode_utf8(wallet.descriptor_template@));
    lemma_with_mapping(r3, global_pairs(psbt));
    lemma_with_mappings(r4, inputs);
    lemma_with_list(r5, commitments(inputs));
    lemma_with_mappings(r6, outputs);
    lemma_with_list(r7, commitments(outputs));
    lemma_extends_keeps(r2, r1);
    lemma_extends_keeps(r3, r2);
    lemma_extends_keeps(r4, r3);
    lemma_extends_keeps(r5, r4);
    lemma_extends_keeps(r6, r5);
    lemma_extends_keeps(r7, r6);
    lemma_extends_keeps(r8, r7);
    lemma_registering_is_consistent(empty);
    lemma_registering_is_consistent(r1);
    lemma_registering_is_consistent(r2);
    lemma_registering_is_consistent(r3);
    lemma_registering_is_consistent(r5);
    lemma_registering_is_consistent(r7);
    assert forall|group: Group| #[trigger] r8.holds_list(commitments(psbt.records(group))) by {
        match group {
            Group::Inputs => {},
            Group::Outputs => {},
        }
    }
    assert forall|group: Group, i: int| 0 <= i < psbt.records(group).len() implies r8.holds_mapping(
        #[trigger] psbt.records(group)[i],
    ) by {
        match group {
            Group::Inputs => {
                assert(r5.holds_mapping(inputs[i]));
            },
            Group::Outputs => {
                assert(r7.holds_mapping(outputs[i]));
            },
        }
    }
}

/// While a transaction is signed, the device reaches every record of every
/// input and of every output in two steps, and is answered at each: it
/// asks for the leaf at `index` of the list of commitments, under the root
/// that the command holds; for the commitment behind that leaf; and for the
/// leaf at `position` of the keys and of the values of that input or
/// output. This needs that no list of another size is registered under one
/// of the three roots.
pub proof fn lemma_record_is_reached(
    psbt: Psbt,
    wallet: WalletPolicy,
    group: Group,
    index: u64,
    position: u64,
)
    requires
        index < psbt.described(group) <= u64::MAX,
        position < psbt.record(group, index as int).len() <= u64::MAX,
        roots_have_one_size(
            sign_psbt_registries(psbt, wallet),
            commitments(psbt.records(group)),
            psbt.record(group, index as int),
        ),
    ensures
        two_levels_answered(
            sign_psbt_registries(psbt, wallet),
            commitments(psbt.records(group)),
            psbt.record(group, index as int),
            index,
            position,
        ),
{
    let held = sign_psbt_registries(psbt, wallet);
    let records = psbt.records(group);
    lemma_signing_registers_all(psbt, wallet);
    assert(records[index as int] == psbt.record(group, index as int));
    assert(held.holds_list(commitments(records)));
    assert(held.holds_mapping(records[index as int]));
    lemma_two_levels_are_answered(
        held,
        commitments(records),
        psbt.record(group, index as int),
        index,
        position,
    );
}

/// The chunks in which `message` is committed to: 64 bytes each, the last
/// one as long as what is left.
pub open spec fn chunks(message: Seq<u8>) -> Seq<Seq<u8>>
    decreases message.len(),
{
    if message.len() == 0 {
        Seq::empty()
    } else if message.len() <= MESSAGE_CHUNK {
        seq![message]
    } else {
        seq![message.take(MESSAGE_CHUNK as int)] + chunks(message.skip(MESSAGE_CHUNK as int))
    }
}

/// Cuts `message` into its chunks.
pub fn message_chunks(message: &[u8]) -> (parts: Vec<Vec<u8>>)
    ensures
        views(parts@) == chunks(message@),
{
    let mut parts: Vec<Vec<u8>> = Vec::new();
    let mut start: usize = 0;
    assert(message@.skip(0) =~= message@);
    assert(views(parts@) =~= Seq::empty());
    while start < message.len()
        invariant
            start <= message.len(),
            views(parts@) + chunks(message@.skip(start as int)) == chunks(message@),
        decreases message.len() - start,
    {
        let end = if message.len() - start <= MESSAGE_CHUNK {
            message.len()
        } else {
            start + MESSAGE_CHUNK
        };
        let ghost before = views(parts@);
        let ghost rest = message@.skip(start as int);
        let part = copy_range(message, start, end);
        parts.push(part);
        proof {
            assert(views(parts@) =~= before.push(part@));
            if end == message.len() {
                assert(part@ =~= rest);
                assert(message@.skip(end as int).len() == 0);
                assert(before + chunks(rest) =~= views(parts@) + chunks(message@.skip(end as int)));
            } else {
                assert(part@ =~= rest.take(MESSAGE_CHUNK as int));
                assert(rest.skip(MESSAGE_CHUNK as int) =~= message@.skip(end as int));
                assert(before + chunks(rest) =~= views(parts@) + chunks(message@.skip(end as int)));
            }
        }
        start = end;
    }
    assert(views(parts@) + chunks(message@.skip(start as int)) =~= views(parts@));
    parts
}

/// Registers every input of `psbt`, or every output, as a mapping, and then
/// the list of the commitments to them. Gives the root of that list. Fails
/// where one of them has no counterpart in the unsigned transaction.
fn register_group(interpreter: &mut ClientCommandInterpreter, psbt: &Psbt, group: Group) -> (root:
    Result<[u8; 32], BitcoinClientError>)
    ensures
        match root {
            Ok(hash) => psbt.complete(group) && final(interpreter)@ == old(
                interpreter,
            )@.with_committed(psbt.records(group)) && hash == list_root(
                commitments(psbt.records(group)),
            ),
            Err(error) => !psbt.complete(group) && error@ == ErrorView::InvalidPsbt,
        },
{
    let ghost start = interpreter@;
    let ghost records = psbt.records(group);
    let count = match group {
        Group::Inputs => psbt.inputs.len(),
        Group::Outputs => psbt.outputs.len(),
    };
    let mut list: Vec<Vec<u8>> = Vec::new();
    let mut i: usize = 0;
    assert(views(list@) =~= commitments(records.take(0)));
    assert(records.take(0) =~= Seq::empty());
    while i < count
        invariant
            i <= count == psbt.described(group),
            i <= psbt.unsigned(group),
            records == psbt.records(group),
            interpreter@ == start.with_mappings(records.take(i as int)),
            views(list@) == commitments(records.take(i as int)),
        decreases count - i,
    {
        let pairs = match psbt.flatten(group, i) {
            Ok(pairs) => pairs,
            Err(error) => {
                return Err(error);
            },
        };
        let ghost before = views(list@);
        let commitment = interpreter.add_known_mapping(pairs.as_slice());
        list.push(commitment);
        proof {
            let next = records.take(i + 1);
            assert(next.drop_last() =~= records.take(i as int));
            assert(next.last() == psbt.record(group, i as int));
            assert(views(list@) =~= before.push(commitment@));
            assert(views(list@) =~= commitments(next));
        }
        i += 1;
    }
    assert(records.take(i as int) =~= records);
    Ok(interpreter.add_known_list(list.as_slice()))
}

/// An interpreter that holds what every operation on `wallet` registers.
fn wallet_interpreter(wallet: &WalletPolicy) -> (interpreter: ClientCommandInterpreter)
    ensures
        interpreter@ == wallet_registries(*wallet),
{
    let mut interpreter = ClientCommandInterpreter::new();
    interpreter.add_known_preimage(wallet.serialize());
    let keys = wallet.key_bytes();
    interpreter.add_known_list(keys.as_slice());
    interpreter.add_known_preimage(wallet.template_bytes());
    interpreter
}

/// The descriptor from which the address of `wallet` is derived for the
/// check, for a client that checks addresses or not: none for a client that
/// does not check; for one that checks, the wallet's descriptor for its
/// receive or its change addresses, and a failure where the wallet has none.
pub open spec fn descriptor_for_check(wallet: WalletPolicy, change: bool, checks: bool) -> Result<
    Option<Seq<char>>,
    ErrorView,
> {
    if !checks {
        Ok(None)
    } else {
        match descriptor_text(wallet, change) {
            Some(text) => if valid_utf8(text) {
                Ok(Some(decode_utf8(text)))
            } else {
                Err(ErrorView::ClientError("Failed to get descriptor"@))
            },
            None => Err(ErrorView::ClientError("Failed to get descriptor"@)),
        }
    }
}

/// A descriptor to check against, as a mathematical value.
pub open spec fn descriptor_view(descriptor: Result<Option<String>, BitcoinClientError>) -> Result<
    Option<Seq<char>>,
    ErrorView,
> {
    match descriptor {
        Ok(Some(text)) => Ok(Some(text@)),
        Ok(None) => Ok(None),
        Err(error) => Err(error@),
    }
}

/// The client of one device, reached through `transport`. Its methods begin
/// the operations; the replies are taken by the exchange that each of them
/// gives. A client may be set to check every address of the device against
/// the wallet's descriptor.
pub struct BitcoinClient<T> {
    transport: T,
    verify_addresses: bool,
}

impl<T> BitcoinClient<T> {
    /// The channel that the client was made for.
    pub closed spec fn channel(&self) -> T {
        self.transport
    }

    /// Whether the client checks the addresses of the device.
    pub closed spec fn checks_addresses(&self) -> bool {
        self.verify_addresses
    }

    /// A client of the device behind `transport`, which takes the device's
    /// addresses as they come.
    pub fn new(transport: T) -> (client: Self)
        ensures
            client.channel() == transport,
            !client.checks_addresses(),
    {
        Self { transport, verify_addresses: false }
    }

    /// A client of the device behind `transport`, which checks the device's
    /// addresses.
    pub fn with_address_verification(transport: T) -> (client: Self)
        ensures
            client.channel() == transport,
            client.checks_addresses(),
    {
        Self { transport, verify_addresses: true }
    }

    /// The channel to the device.
    pub fn transport(&self) -> (transport: &T)
        ensures
            *transport == self.channel(),
    {
        &self.transport
    }

    /// Whether the client checks the addresses of the device.
    pub fn verifies_addresses(&self) -> (on: bool)
        ensures
            on == self.checks_addresses(),
    {
        self.verify_addresses
    }

    /// The descriptor against which an address of `wallet` is to be checked:
    /// the wallet's descriptor for its receive addresses, or for its change
    /// addresses if `change` is set, with a wildcard where the address index
    /// goes. A client that does not check addresses gives none.
    pub fn descriptor_to_check(&self, wallet: &WalletPolicy, change: bool) -> (descriptor: Result<
        Option<String>,
        BitcoinClientError,
    >)
        ensures
            descriptor_view(descriptor) == descriptor_for_check(
                *wallet,
                change,
                self.checks_addresses(),
            ),
    {
        if !self.verify_addresses {
            return Ok(None);
        }
        let text = match wallet.get_descriptor(change) {
            Some(bytes) => crate::varint::text_from_utf8(bytes),
            None => None,
        };
        match text {
            Some(descriptor) => Ok(Some(descriptor)),
            None => Err(BitcoinClientError::ClientError("Failed to get descriptor".to_owned())),
        }
    }

    /// Checks an address of the device, if the client is set to: `derived`,
    /// the script that the host derived from the wallet's descriptor at the
    /// address index, must be `script_pubkey`, the script that the device's
    /// address pays to. A client that is not set to check accepts every
    /// address.
    pub fn check_address(&self, derived: Option<Vec<u8>>, script_pubkey: &[u8]) -> (checked:
        Result<(), BitcoinClientError>)
        ensures
            check_view(checked) == if self.checks_addresses() {
                address_check(
                    match derived {
                        Some(bytes) => Some(bytes@),
                        None => None,
                    },
                    script_pubkey@,
                )
            } else {
                Ok(())
            },
    {
        if self.verify_addresses {
            response::check_address(derived, script_pubkey)
        } else {
            Ok(())
        }
    }

    /// Begins the query for the name, the version and the state flags of the
    /// application that runs on the device.
    pub fn get_version(&self) -> (exchange: Exchange)
        ensures
            exchange@ == (ExchangeView { command: get_version_command(), interpreter: None }),
    {
        Exchange { command: command::get_version(), interpreter: None }
    }

    /// Begins the query for the fingerprint of the master key.
    pub fn get_master_fingerprint(&self) -> (exchange: Exchange)
        ensures
            exchange@ == (ExchangeView {
                command: get_master_fingerprint_command(),
                interpreter: None,
            }),
    {
        Exchange { command: command::get_master_fingerprint(), interpreter: None }
    }

    /// Begins the query for the extended public key at `path`, which the
    /// device shows on its screen if `display` is set.
    pub fn get_extended_pubkey(&self, path: &[u32], display: bool) -> (exchange: Exchange)
        ensures
            exchange@ == (ExchangeView {
                command: get_extended_pubkey_command(path@, display),
                interpreter: None,
            }),
    {
        Exchange { command: command::get_extended_pubkey(path, display), interpreter: None }
    }

    /// Begins the registration of `wallet`.
    pub fn register_wallet(&self, wallet: &WalletPolicy) -> (exchange: Exchange)
        ensures
            exchange@ == (ExchangeView {
                command: register_wallet_command(*wallet),
                interpreter: Some(wallet_registries(*wallet)),
            }),
    {
        let command = command::register_wallet(wallet);
        Exchange { command, interpreter: Some(wallet_interpreter(wallet)) }
    }

    /// Begins the query for the address of `wallet` at `address_index`,
    /// among its change addresses if `change` is set. `wallet_hmac` is the
    /// tag that the registration of the wallet gave, if it needed one.
    pub fn get_wallet_address(
        &self,
        wallet: &WalletPolicy,
        wallet_hmac: Option<&[u8; 32]>,
        change: bool,
        address_index: u32,
        display: bool,
    ) -> (exchange: Exchange)
        ensures
            exchange@ == (ExchangeView {
                command: get_wallet_address_command(
                    *wallet,
                    wallet_hmac,
                    change,
                    address_index,
                    display,
                ),
                interpreter: Some(wallet_registries(*wallet)),
            }),
    {
        let interpreter = wallet_interpreter(wallet);
        let command = command::get_wallet_address(
            wallet,
            wallet_hmac,
            change,
            address_index,
            display,
        );
        Exchange { command, interpreter: Some(interpreter) }
    }

    /// What follows the registration of `wallet`, which gave the tag `hmac`:
    /// a client that checks addresses asks for the first receive address of
    /// the wallet, without display, and checks it; another client is done.
    pub fn after_registration(&self, wallet: &WalletPolicy, hmac: &[u8; 32]) -> (next: Option<
        Exchange,
    >)
        ensures
            next.is_some() == self.checks_addresses(),
            next.is_some() ==> next.unwrap()@ == (ExchangeView {
                command: get_wallet_address_command(*wallet, Some(hmac), false, 0, false),
                interpreter: Some(wallet_registries(*wallet)),
            }),
    {
        if self.verify_addresses {
            Some(self.get_wallet_address(wallet, Some(hmac), false, 0, false))
        } else {
            None
        }
    }

    /// Begins the signing of `psbt` with `wallet`: flattens the transaction,
    /// registers every group of records, and commits to all of them in the
    /// command. Fails where `psbt` describes an input or an output that the
    /// unsigned transaction has not.
    pub fn sign_psbt(&self, psbt: &Psbt, wallet: &WalletPolicy, wallet_hmac: Option<&[u8; 32]>) -> (begun:
        Result<Exchange, BitcoinClientError>)
        ensures
            match begun {
                Ok(exchange) => psbt_consistent(*psbt) && exchange@ == sign_psbt_exchange(
                    *psbt,
                    *wallet,
                    wallet_hmac,
                ),
                Err(error) => !psbt_consistent(*psbt) && error@ == ErrorView::InvalidPsbt,
            },
    {
        let mut interpreter = wallet_interpreter(wallet);
        let global = psbt.flatten_global();
        let global_commitment = interpreter.add_known_mapping(global.as_slice());
        let inputs_root = match register_group(&mut interpreter, psbt, Group::Inputs) {
            Ok(root) => root,
            Err(error) => {
                return Err(error);
            },
        };
        let outputs_root = match register_group(&mut interpreter, psbt, Group::Outputs) {
            Ok(root) => root,
            Err(error) => {
                return Err(error);
            },
        };

        let command = command::sign_psbt(
            global_commitment.as_slice(),
            psbt.inputs.len(),
            &inputs_root,
            psbt.outputs.len(),
            &outputs_root,
            wallet,
            wallet_hmac,
        );
        Ok(Exchange { command, interpreter: Some(interpreter) })
    }

    /// Begins the signing of `message` with the key at `path`: commits to
    /// the message in chunks of 64 bytes.
    pub fn sign_message(&self, message: &[u8], path: &[u32]) -> (exchange: Exchange)
        ensures
            exchange@ == (ExchangeView {
                command: sign_message_command(message@.len(), list_root(chunks(message@)), path@),
                interpreter: Some(Registries::empty().with_list(chunks(message@))),
            }),
    {
        let parts = message_chunks(message);
        let mut interpreter = ClientCommandInterpreter::new();
        let root = interpreter.add_known_list(parts.as_slice());
        let command = command::sign_message(message.len(), &root, path);
        Exchange { command, interpreter: Some(interpreter) }
    }
}

} // verus!
