//! The program that the engine is built for: one instruction, `initialize`,
//! which takes no account and no argument, changes nothing and succeeds.
use vstd::prelude::*;
use crate::account::{accounts_view, Account, AccountView};
use crate::codec::{encoded_all, parse_from, Value, ValueView};
use crate::dispatcher::{
    conclude, prepared, registered, Effects, Engine, Handler, HandlerOutput, Instruction,
    InstructionView, Write,
};
use crate::error::{DispatchError, HandlerError, ValidationError};
use crate::identity::Identity;
use crate::schema::{ConstraintView, ContextSchema};
use crate::validator::{first_violation_at, BoundContext};

verus! {

/// The identity of the program.
pub const PROGRAM_ID: [u8; 32] = [
    33, 174, 75, 19, 54, 14, 198, 161, 130, 181, 80, 65, 241, 144, 208, 229, 235, 22, 222, 186, 3,
    17, 107, 116, 232, 139, 34, 216, 248, 64, 21, 232,
];

/// The discriminator of `initialize`.
pub const INITIALIZE: [u8; 8] = [175, 175, 109, 31, 13, 152, 155, 237];

/// The accounts of `initialize`: none.
#[derive(Clone, Copy, Debug, PartialEq, Eq, Structural)]
pub struct Initialize {}

impl Initialize {
    /// The context schema of `initialize`: it declares no field.
    pub fn schema() -> (schema: ContextSchema)
        ensures
            schema@ == Seq::<Seq<ConstraintView>>::empty(),
    {
        ContextSchema::empty()
    }
}

/// The handlers of the program.
#[derive(Clone, Copy, Debug, PartialEq, Eq, Structural)]
pub enum ProgramHandler {
    Initialize,
}

/// The instruction `initialize`: does nothing and succeeds.
pub fn initialize(context: &BoundContext) -> (r: Result<(), HandlerError>)
    ensures
        r is Ok,
{
    Ok(())
}

impl Handler for ProgramHandler {
    fn handle(&self, context: &BoundContext, arguments: &Vec<Value>) -> (r: Result<
        HandlerOutput,
        HandlerError,
    >)
        ensures
            r matches Ok(output) && output.writes@ == Seq::<Write>::empty()
                && output.returned.values() == Seq::<ValueView>::empty(),
    {
        match self {
            ProgramHandler::Initialize => match initialize(context) {
                Ok(()) => Ok(HandlerOutput::nothing()),
                Err(e) => Err(e),
            },
        }
    }
}

/// The identity of the program.
pub fn program_id() -> (id: Identity)
    ensures
        id@ == PROGRAM_ID@,
{
    Identity::new(PROGRAM_ID)
}

/// The instruction table of the program.
pub open spec fn program_table() -> Seq<InstructionView> {
    seq![
        InstructionView {
            discriminator: INITIALIZE@,
            arguments: Seq::empty(),
            context: Seq::empty(),
        },
    ]
}

/// The engine of the program, with `initialize` registered.
pub fn engine() -> (engine: Engine<ProgramHandler>)
    ensures
        engine.program() == PROGRAM_ID@,
        engine.table() == program_table(),
{
    let empty: Engine<ProgramHandler> = Engine::new(program_id());
    let instruction = Instruction {
        discriminator: INITIALIZE,
        arguments: Vec::new(),
        context: Initialize::schema(),
    };
    let (engine, position) = empty.register(instruction, ProgramHandler::Initialize);
    proof {
        assert(engine.table() =~= program_table());
    }
    engine
}

/// What a call to the program comes to.
pub open spec fn processed(program: Seq<u8>, accounts: int, payload: Seq<u8>) -> Result<
    (Seq<Write>, Seq<u8>),
    DispatchError,
> {
    if program != PROGRAM_ID@ {
        Err(DispatchError::UnknownInstruction)
    } else if payload.len() < 8 {
        Err(DispatchError::DecodeError { offset: 0 })
    } else if payload.subrange(0, 8) != INITIALIZE@ {
        Err(DispatchError::UnknownInstruction)
    } else if payload.len() > 8 {
        Err(DispatchError::DecodeError { offset: 8 })
    } else if accounts != 0 {
        Err(DispatchError::Validation(ValidationError::ArityMismatch))
    } else {
        Ok((Seq::empty(), Seq::empty()))
    }
}

/// What the engine of the program makes of a call before the handler runs
/// is what `processed` says: the same error, or the one instruction with no
/// argument.
pub proof fn lemma_prepared_for_program(
    program: Seq<u8>,
    accounts: Seq<AccountView>,
    payload: Seq<u8>,
)
    ensures
        match prepared(PROGRAM_ID@, program_table(), program, accounts, payload) {
            Err(e) => processed(program, accounts.len() as int, payload) == Err::<
                (Seq<Write>, Seq<u8>),
                DispatchError,
            >(e),
            Ok((k, arguments)) => {
                &&& processed(program, accounts.len() as int, payload) is Ok
                &&& k == 0
                &&& arguments == Seq::<ValueView>::empty()
            },
        },
{
    let table = program_table();
    if program == PROGRAM_ID@ && payload.len() >= 8 {
        let tag = payload.subrange(0, 8);
        if tag == INITIALIZE@ {
            assert(table[0].discriminator == tag);
            assert(registered(table, tag));
            assert(parse_from(table[0].arguments, payload, 8) == (if payload.len() == 8 {
                Ok::<Seq<ValueView>, int>(Seq::empty())
            } else {
                Err::<Seq<ValueView>, int>(8)
            }));
            assert(forall|i: int, j: int|
                !first_violation_at(PROGRAM_ID@, table[0].context, accounts, i, j));
        } else {
            assert(!registered(table, tag));
        }
    }
}

/// Processes one call to the program.
///
/// The call succeeds exactly where it is made to the program's identity, its
/// payload is the discriminator of `initialize` and nothing more, and it
/// brings no account. It then writes nothing and returns nothing.
pub fn process_instruction(program: &Identity, accounts: &[Account], payload: &[u8]) -> (r: Result<
    Effects,
    DispatchError,
>)
    ensures
        crate::dispatcher::settled_view(r) == processed(
            program@,
            accounts@.len() as int,
            payload@,
        ),
{
    let engine = engine();
    proof {
        lemma_prepared_for_program(program@, accounts_view(accounts@), payload@);
        assert(encoded_all(Seq::<ValueView>::empty()) =~= Seq::<u8>::empty());
    }
    match engine.prepare(program, accounts, payload) {
        Err(e) => Err(e),
        Ok(call) => match initialize(&call.context) {
            Ok(()) => conclude(accounts, Ok(HandlerOutput::nothing())),
            Err(e) => Err(DispatchError::HandlerError(e)),
        },
    }
}

} // verus!
