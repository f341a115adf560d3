use anchor::account::Account;
use anchor::codec::{decode_values, ArgKind, Value};
use anchor::dispatcher::{
    check_writes, conclude, opens_with, Effects, Engine, Handler, HandlerOutput, Instruction,
    Output, Write,
};
use anchor::error::{DispatchError, HandlerError, ValidationError};
use anchor::identity::Identity;
use anchor::lifecycle::{end_stage, Stage};
use anchor::schema::{Constraint, ContextSchema, FieldSchema};
use anchor::validator::BoundContext;
use std::cell::Cell;
use std::rc::Rc;

fn id(byte: u8) -> Identity {
    Identity::new([byte; 32])
}

const PROGRAM: u8 = 42;

/// What the handlers of these tests do, and how often they ran.
struct Probe {
    calls: Rc<Cell<usize>>,
    seen: Rc<Cell<usize>>,
    act: Act,
}

enum Act {
    Echo,
    Fail,
    WriteTo(usize),
}

impl Handler for Probe {
    fn handle(
        &self,
        context: &BoundContext,
        arguments: &Vec<Value>,
    ) -> Result<HandlerOutput, HandlerError> {
        self.calls.set(self.calls.get() + 1);
        self.seen.set(context.len());
        match self.act {
            Act::Echo => Ok(HandlerOutput {
                writes: vec![],
                returned: Output::new(arguments.clone()).unwrap(),
            }),
            Act::Fail => Err(HandlerError { code: 6000, message: "not today".to_string() }),
            Act::WriteTo(account) => Ok(HandlerOutput {
                writes: vec![Write { account, data: vec![1, 2, 3] }],
                returned: Output::nothing(),
            }),
        }
    }
}

fn account(identity: u8, owner: u8, signer: bool, writable: bool) -> Account {
    Account { identity: id(identity), owner: id(owner), data: vec![], writable, signer, balance: 1 }
}

const ECHO: [u8; 8] = [1, 2, 3, 4, 5, 6, 7, 8];
const GUARDED: [u8; 8] = [8, 7, 6, 5, 4, 3, 2, 1];

fn guarded_schema() -> ContextSchema {
    ContextSchema {
        fields: vec![FieldSchema {
            name: "state".to_string(),
            constraints: vec![Constraint::Owner(id(PROGRAM)), Constraint::Signer],
        }],
    }
}

/// An engine with `ECHO`, which takes a `u16` and a byte string and no
/// account, and `GUARDED`, which takes one account and no argument.
fn engine(act: Act) -> (Engine<Probe>, Rc<Cell<usize>>) {
    let calls = Rc::new(Cell::new(0));
    let seen = Rc::new(Cell::new(0));
    let engine = Engine::new(id(PROGRAM));
    let (engine, first) = engine.register(
        Instruction {
            discriminator: ECHO,
            arguments: vec![ArgKind::U16, ArgKind::Bytes],
            context: ContextSchema::empty(),
        },
        Probe { calls: calls.clone(), seen: seen.clone(), act: Act::Echo },
    );
    assert_eq!(first, Some(0));
    let (engine, second) = engine.register(
        Instruction { discriminator: GUARDED, arguments: vec![], context: guarded_schema() },
        Probe { calls: calls.clone(), seen, act },
    );
    assert_eq!(second, Some(1));
    (engine, calls)
}

fn echo_payload() -> Vec<u8> {
    let mut payload = ECHO.to_vec();
    payload.extend_from_slice(&[0x34, 0x12, 2, 0, 0, 0, 0xaa, 0xbb]);
    payload
}

#[test]
fn a_well_formed_call_is_committed_and_its_output_decodes() {
    let (engine, calls) = engine(Act::Echo);
    let result = engine.dispatch(&id(PROGRAM), &[], &echo_payload());
    assert_eq!(end_stage(&result), Stage::Committed);
    let effects = result.unwrap();
    assert_eq!(calls.get(), 1);
    assert_eq!(effects.writes, vec![]);
    assert_eq!(effects.output, vec![0x34, 0x12, 2, 0, 0, 0, 0xaa, 0xbb]);
    assert_eq!(
        decode_values(&vec![ArgKind::U16, ArgKind::Bytes], &effects.output, 0),
        Ok(vec![Value::U16(0x1234), Value::Bytes(vec![0xaa, 0xbb])])
    );
}

#[test]
fn a_call_with_valid_accounts_reaches_its_handler() {
    let (engine, calls) = engine(Act::WriteTo(0));
    let accounts = vec![account(1, PROGRAM, true, true)];
    let effects = engine.dispatch(&id(PROGRAM), &accounts, &GUARDED).unwrap();
    assert_eq!(calls.get(), 1);
    assert_eq!(
        effects,
        Effects { writes: vec![Write { account: 0, data: vec![1, 2, 3] }], output: vec![] }
    );
}

#[test]
fn an_unknown_discriminator_is_an_unknown_instruction() {
    let (engine, calls) = engine(Act::Echo);
    for payload in [
        vec![0u8; 8],
        vec![1, 2, 3, 4, 5, 6, 7, 9],
        vec![1, 2, 3, 4, 5, 6, 7, 9, 0x34, 0x12, 2, 0, 0, 0, 0xaa, 0xbb],
        vec![2, 2, 3, 4, 5, 6, 7, 8, 0xff],
        vec![0xff; 100],
    ] {
        assert_eq!(
            engine.dispatch(&id(PROGRAM), &[], &payload),
            Err(DispatchError::UnknownInstruction)
        );
        assert_eq!(
            engine.dispatch(&id(PROGRAM), &[account(1, 1, false, false)], &payload),
            Err(DispatchError::UnknownInstruction)
        );
    }
    assert_eq!(calls.get(), 0);
}

#[test]
fn a_call_to_another_program_is_an_unknown_instruction() {
    let (engine, calls) = engine(Act::Echo);
    assert_eq!(
        engine.dispatch(&id(PROGRAM + 1), &[], &echo_payload()),
        Err(DispatchError::UnknownInstruction)
    );
    assert_eq!(
        engine.dispatch(&id(PROGRAM + 1), &[], &[1, 2]),
        Err(DispatchError::UnknownInstruction)
    );
    assert_eq!(calls.get(), 0);
}

#[test]
fn a_payload_shorter_than_a_discriminator_cannot_be_decoded() {
    let (engine, calls) = engine(Act::Echo);
    assert_eq!(
        engine.dispatch(&id(PROGRAM), &[], &[]),
        Err(DispatchError::DecodeError { offset: 0 })
    );
    assert_eq!(
        engine.dispatch(&id(PROGRAM), &[], &ECHO[..7]),
        Err(DispatchError::DecodeError { offset: 0 })
    );
    assert_eq!(calls.get(), 0);
}

#[test]
fn malformed_arguments_are_a_decode_error_with_the_offset() {
    let (engine, calls) = engine(Act::Echo);
    let mut payload = ECHO.to_vec();
    assert_eq!(
        engine.dispatch(&id(PROGRAM), &[], &payload),
        Err(DispatchError::DecodeError { offset: 8 })
    );
    payload.extend_from_slice(&[0x34, 0x12, 2, 0]);
    assert_eq!(
        engine.dispatch(&id(PROGRAM), &[], &payload),
        Err(DispatchError::DecodeError { offset: 10 })
    );
    payload.extend_from_slice(&[0, 0, 0xaa]);
    assert_eq!(
        engine.dispatch(&id(PROGRAM), &[], &payload),
        Err(DispatchError::DecodeError { offset: 14 })
    );
    payload.extend_from_slice(&[0xbb, 0xcc]);
    let result = engine.dispatch(&id(PROGRAM), &[], &payload);
    assert_eq!(result, Err(DispatchError::DecodeError { offset: 16 }));
    assert_eq!(end_stage(&result), Stage::Aborted);
    assert_eq!(calls.get(), 0);
}

#[test]
fn arguments_are_decoded_before_accounts_are_bound() {
    let (engine, calls) = engine(Act::Echo);
    let mut payload = GUARDED.to_vec();
    payload.push(0);
    assert_eq!(
        engine.dispatch(&id(PROGRAM), &[], &payload),
        Err(DispatchError::DecodeError { offset: 8 })
    );
    assert_eq!(calls.get(), 0);
}

#[test]
fn a_wrong_owner_aborts_before_the_handler_runs() {
    let (engine, calls) = engine(Act::Echo);
    let accounts = vec![account(1, 7, true, true)];
    assert_eq!(
        engine.dispatch(&id(PROGRAM), &accounts, &GUARDED),
        Err(DispatchError::Validation(ValidationError::OwnerMismatch))
    );
    assert_eq!(calls.get(), 0);
}

#[test]
fn a_missing_signer_aborts_before_the_handler_runs() {
    let (engine, calls) = engine(Act::Echo);
    let accounts = vec![account(1, PROGRAM, false, true)];
    assert_eq!(
        engine.dispatch(&id(PROGRAM), &accounts, &GUARDED),
        Err(DispatchError::Validation(ValidationError::MissingSigner))
    );
    assert_eq!(calls.get(), 0);
}

#[test]
fn a_wrong_number_of_accounts_aborts_before_the_handler_runs() {
    let (engine, calls) = engine(Act::Echo);
    assert_eq!(
        engine.dispatch(&id(PROGRAM), &[], &GUARDED),
        Err(DispatchError::Validation(ValidationError::ArityMismatch))
    );
    assert_eq!(
        engine.dispatch(&id(PROGRAM), &[account(1, PROGRAM, true, true)], &echo_payload()),
        Err(DispatchError::Validation(ValidationError::ArityMismatch))
    );
    assert_eq!(calls.get(), 0);
}

#[test]
fn the_error_of_a_handler_is_passed_on() {
    let (engine, calls) = engine(Act::Fail);
    let accounts = vec![account(1, PROGRAM, true, false)];
    let result = engine.dispatch(&id(PROGRAM), &accounts, &GUARDED);
    assert_eq!(
        result,
        Err(DispatchError::HandlerError(HandlerError {
            code: 6000,
            message: "not today".to_string()
        }))
    );
    assert_eq!(end_stage(&result), Stage::Aborted);
    assert_eq!(calls.get(), 1);
}

#[test]
fn a_write_to_an_account_not_marked_writable_is_rejected() {
    let (engine, calls) = engine(Act::WriteTo(0));
    let accounts = vec![account(1, PROGRAM, true, false)];
    assert_eq!(
        engine.dispatch(&id(PROGRAM), &accounts, &GUARDED),
        Err(DispatchError::Validation(ValidationError::NotWritable))
    );
    assert_eq!(calls.get(), 1);
}

#[test]
fn a_write_to_an_account_that_is_not_there_is_rejected() {
    let (engine, _) = engine(Act::WriteTo(1));
    let accounts = vec![account(1, PROGRAM, true, true)];
    assert_eq!(
        engine.dispatch(&id(PROGRAM), &accounts, &GUARDED),
        Err(DispatchError::Validation(ValidationError::NotWritable))
    );
}

#[test]
fn a_taken_discriminator_is_not_registered_again() {
    let (engine, calls) = engine(Act::Echo);
    assert_eq!(engine.len(), 2);
    engine.guarantee();
    let (engine, position) = engine.register(
        Instruction { discriminator: ECHO, arguments: vec![], context: ContextSchema::empty() },
        Probe { calls: calls.clone(), seen: Rc::new(Cell::new(0)), act: Act::Fail },
    );
    assert_eq!(position, None);
    assert_eq!(engine.len(), 2);
    assert_eq!(engine.program_identity(), id(PROGRAM));
    assert!(engine.dispatch(&id(PROGRAM), &[], &echo_payload()).is_ok());
}

#[test]
fn instructions_are_found_by_their_whole_discriminator() {
    let (engine, _) = engine(Act::Echo);
    assert_eq!(engine.find(&ECHO), Some(0));
    assert_eq!(engine.find(&GUARDED), Some(1));
    assert_eq!(engine.find(&echo_payload()), Some(0));
    assert_eq!(engine.find(&ECHO[..7]), None);
    assert_eq!(engine.find(&[1, 2, 3, 4, 5, 6, 7, 0]), None);
    assert_eq!(engine.find(&[]), None);
    assert!(opens_with(&echo_payload(), &ECHO));
    assert!(!opens_with(&echo_payload(), &GUARDED));
    assert!(!opens_with(&ECHO[..7], &ECHO));
}

#[test]
fn a_prepared_call_holds_what_the_handler_gets() {
    let (engine, calls) = engine(Act::Echo);
    let accounts: Vec<Account> = vec![];
    let call = engine.prepare(&id(PROGRAM), &accounts, &echo_payload()).unwrap();
    assert_eq!(call.instruction, 0);
    assert_eq!(call.arguments, vec![Value::U16(0x1234), Value::Bytes(vec![0xaa, 0xbb])]);
    assert_eq!(call.context.len(), 0);
    let accounts = vec![account(1, PROGRAM, true, false)];
    let call = engine.prepare(&id(PROGRAM), &accounts, &GUARDED).unwrap();
    assert_eq!(call.instruction, 1);
    assert_eq!(call.arguments, vec![]);
    assert_eq!(call.context.account(0), Some(&accounts[0]));
    assert_eq!(calls.get(), 0);
}

#[test]
fn a_returned_call_is_settled() {
    let accounts = vec![account(1, 0, false, true), account(2, 0, false, false)];
    let output = HandlerOutput {
        writes: vec![Write { account: 0, data: vec![9] }, Write { account: 0, data: vec![] }],
        returned: Output::new(vec![Value::U32(7), Value::Bool(true)]).unwrap(),
    };
    assert_eq!(
        conclude(&accounts, Ok(output)),
        Ok(Effects {
            writes: vec![Write { account: 0, data: vec![9] }, Write { account: 0, data: vec![] }],
            output: vec![7, 0, 0, 0, 1],
        })
    );
    let output = HandlerOutput {
        writes: vec![Write { account: 0, data: vec![9] }, Write { account: 1, data: vec![] }],
        returned: Output::nothing(),
    };
    assert_eq!(
        conclude(&accounts, Ok(output)),
        Err(DispatchError::Validation(ValidationError::NotWritable))
    );
    assert_eq!(
        conclude(&accounts, Err(HandlerError { code: 1, message: String::new() })),
        Err(DispatchError::HandlerError(HandlerError { code: 1, message: String::new() }))
    );
    assert_eq!(
        conclude(&[], Ok(HandlerOutput::nothing())),
        Ok(Effects { writes: vec![], output: vec![] })
    );
}

#[test]
fn writes_are_permitted_on_writable_accounts_only() {
    let accounts = vec![account(1, 0, false, true), account(2, 0, false, false)];
    assert!(check_writes(&vec![], &accounts));
    assert!(check_writes(&vec![Write { account: 0, data: vec![] }], &accounts));
    assert!(!check_writes(&vec![Write { account: 1, data: vec![] }], &accounts));
    assert!(!check_writes(&vec![Write { account: 2, data: vec![] }], &accounts));
    assert!(!check_writes(&vec![Write { account: usize::MAX, data: vec![] }], &accounts));
}

#[test]
fn returned_values_are_kept_and_encoded() {
    let output = Output::new(vec![Value::U8(1), Value::Bytes(vec![2])]).unwrap();
    assert_eq!(output.as_values(), &vec![Value::U8(1), Value::Bytes(vec![2])]);
    assert_eq!(output.encode(), vec![1, 1, 0, 0, 0, 2]);
    assert_eq!(Output::nothing().encode(), vec![]);
    assert_eq!(HandlerOutput::nothing().writes, vec![]);
}

#[test]
fn registered_instructions_can_be_read_back() {
    let (engine, _) = engine(Act::Echo);
    assert_eq!(
        engine.instruction(0),
        Some(&Instruction {
            discriminator: ECHO,
            arguments: vec![ArgKind::U16, ArgKind::Bytes],
            context: ContextSchema::empty(),
        })
    );
    assert_eq!(engine.instruction(1).map(|found| found.discriminator), Some(GUARDED));
    assert_eq!(engine.instruction(2), None);
}

#[test]
fn the_stages_follow_one_another() {
    let order = [
        Stage::Received,
        Stage::Dispatched,
        Stage::Validating,
        Stage::Bound,
        Stage::Executing,
        Stage::Committed,
    ];
    for pair in order.windows(2) {
        assert_eq!(pair[0].advance(true), pair[1]);
        assert_eq!(pair[0].advance(false), Stage::Aborted);
        assert!(!pair[0].is_terminal());
    }
    for end in [Stage::Committed, Stage::Aborted] {
        assert!(end.is_terminal());
        assert_eq!(end.advance(true), end);
        assert_eq!(end.advance(false), end);
    }
}

#[test]
fn committed_writes_are_made_in_order() {
    let mut accounts = vec![account(1, 0, false, true), account(2, 0, true, false)];
    accounts[0].data = vec![7, 7];
    accounts[1].data = vec![8];
    let effects = Effects {
        writes: vec![
            Write { account: 0, data: vec![1] },
            Write { account: 0, data: vec![2, 3, 4] },
        ],
        output: vec![],
    };
    assert!(effects.commit(&mut accounts));
    assert_eq!(accounts[0].data, vec![2, 3, 4]);
    assert_eq!(accounts[0].identity, id(1));
    assert!(accounts[0].writable);
    assert_eq!(accounts[0].balance, 1);
    assert_eq!(accounts[1], {
        let mut untouched = account(2, 0, true, false);
        untouched.data = vec![8];
        untouched
    });
    let nothing = Effects { writes: vec![], output: vec![1] };
    assert!(nothing.commit(&mut accounts));
    assert_eq!(accounts[0].data, vec![2, 3, 4]);
}

#[test]
fn writes_that_are_not_permitted_change_nothing() {
    let mut accounts = vec![account(1, 0, false, true), account(2, 0, true, false)];
    let before = accounts.clone();
    let effects = Effects {
        writes: vec![Write { account: 0, data: vec![1] }, Write { account: 1, data: vec![2] }],
        output: vec![],
    };
    assert!(!effects.commit(&mut accounts));
    assert_eq!(accounts, before);
    let effects = Effects { writes: vec![Write { account: 2, data: vec![1] }], output: vec![] };
    assert!(!effects.commit(&mut accounts));
    assert_eq!(accounts, before);
}
