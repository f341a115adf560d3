//! The dispatcher: finds the instruction that a payload names, decodes its
//! arguments, has the accounts bound, runs the handler and settles the call.
use vstd::prelude::*;
use crate::account::{accounts_view, Account, AccountView};
use crate::codec::{
    all_encodable, append_range, are_encodable, decode_inverts_encode, decode_values, encode_all,
    encoded_all, kinds_of, parse_from, values_view, ArgKind, Value, ValueView,
};
use crate::error::{DispatchError, HandlerError, ValidationError};
use crate::identity::Identity;
use crate::lifecycle::{end_of, Stage};
use crate::schema::{ConstraintView, ContextSchema};
use crate::validator::{bind, bind_outcome, bound_iff_satisfied, satisfied, BoundContext};

verus! {

/// Width of a discriminator, in bytes.
pub const DISCRIMINATOR_WIDTH: usize = 8;

/// What an instruction is known by and what it takes: its discriminator, the
/// kinds of its arguments, and the accounts that it declares.
#[derive(Debug, PartialEq, Eq)]
pub struct Instruction {
    pub discriminator: [u8; 8],
    pub arguments: Vec<ArgKind>,
    pub context: ContextSchema,
}

/// What an `Instruction` holds.
pub struct InstructionView {
    pub discriminator: Seq<u8>,
    pub arguments: Seq<ArgKind>,
    pub context: Seq<Seq<ConstraintView>>,
}

impl View for Instruction {
    type V = InstructionView;

    open spec fn view(&self) -> InstructionView {
        InstructionView {
            discriminator: self.discriminator@,
            arguments: self.arguments@,
            context: self.context@,
        }
    }
}

/// New stored state for the account at one position of the account list.
#[derive(Debug, PartialEq, Eq)]
pub struct Write {
    pub account: usize,
    pub data: Vec<u8>,
}

/// Values that a handler returns. Each of them can be encoded.
#[derive(Debug, PartialEq, Eq)]
pub struct Output {
    values: Vec<Value>,
}

impl Output {
    #[verifier::type_invariant]
    spec fn can_be_encoded(self) -> bool {
        all_encodable(values_view(self.values@))
    }

    /// The values returned.
    pub closed spec fn values(self) -> Seq<ValueView> {
        values_view(self.values@)
    }

    /// No value.
    pub fn nothing() -> (output: Output)
        ensures
            output.values() == Seq::<ValueView>::empty(),
    {
        let output = Output { values: Vec::new() };
        assert(output.values() =~= Seq::<ValueView>::empty());
        output
    }

    /// The given values, unless one of them cannot be encoded.
    pub fn new(values: Vec<Value>) -> (r: Option<Output>)
        ensures
            match r {
                Some(output) => all_encodable(values_view(values@)) && output.values()
                    == values_view(values@),
                None => !all_encodable(values_view(values@)),
            },
    {
        if are_encodable(&values) {
            Some(Output { values })
        } else {
            None
        }
    }

    /// The values returned, as a list.
    pub fn as_values(&self) -> (values: &Vec<Value>)
        ensures
            values_view(values@) == self.values(),
            all_encodable(self.values()),
    {
        proof {
            use_type_invariant(self);
        }
        &self.values
    }

    /// The encoding of the values.
    pub fn encode(&self) -> (bytes: Vec<u8>)
        ensures
            all_encodable(self.values()),
            bytes@ == encoded_all(self.values()),
    {
        proof {
            use_type_invariant(self);
        }
        encode_all(&self.values)
    }
}

/// What a handler that succeeds hands back: the account states that it wants
/// written, in order, and the values that it returns.
#[derive(Debug, PartialEq, Eq)]
pub struct HandlerOutput {
    pub writes: Vec<Write>,
    pub returned: Output,
}

impl HandlerOutput {
    /// No write and no value.
    pub fn nothing() -> (output: HandlerOutput)
        ensures
            output.writes@ == Seq::<Write>::empty(),
            output.returned.values() == Seq::<ValueView>::empty(),
    {
        HandlerOutput { writes: Vec::new(), returned: Output::nothing() }
    }
}

/// What a committed call leaves: the account states to write, in order, and
/// the encoding of the values returned.
#[derive(Debug, PartialEq, Eq)]
pub struct Effects {
    pub writes: Vec<Write>,
    pub output: Vec<u8>,
}

/// The business logic of an instruction.
pub trait Handler {
    /// Runs the instruction on accounts that are bound to its context and on
    /// its decoded arguments.
    fn handle(&self, context: &BoundContext, arguments: &Vec<Value>) -> Result<
        HandlerOutput,
        HandlerError,
    >;
}

/// Whether the table holds an instruction with this discriminator.
pub open spec fn registered(table: Seq<InstructionView>, tag: Seq<u8>) -> bool {
    exists|k: int| 0 <= k < table.len() && (#[trigger] table[k]).discriminator == tag
}

/// Whether no two instructions of the table share a discriminator.
pub open spec fn distinct(table: Seq<InstructionView>) -> bool {
    forall|a: int, b: int|
        0 <= a < table.len() && 0 <= b < table.len() && (#[trigger] table[a]).discriminator == (
        #[trigger] table[b]).discriminator ==> a == b
}

/// Whether every write goes to an account of the list that is marked
/// writable.
pub open spec fn writes_permitted(writes: Seq<Write>, accounts: Seq<AccountView>) -> bool {
    forall|i: int|
        0 <= i < writes.len() ==> (#[trigger] writes[i]).account < accounts.len()
            && accounts[writes[i].account as int].writable
}

/// What a call comes to before its handler runs: the position of the
/// instruction in the table and its decoded arguments, or the error that
/// aborts the call.
///
/// A call made to another program identity than the engine's names none of
/// its instructions. A payload shorter than a discriminator cannot be decoded
/// at offset 0. Else the first bytes of the payload select the instruction
/// that has exactly them as its discriminator; the arguments are decoded from
/// the rest, and the accounts are bound to the declared context.
pub open spec fn prepared(
    engine: Seq<u8>,
    table: Seq<InstructionView>,
    program: Seq<u8>,
    accounts: Seq<AccountView>,
    payload: Seq<u8>,
) -> Result<(int, Seq<ValueView>), DispatchError> {
    if program != engine {
        Err(DispatchError::UnknownInstruction)
    } else if payload.len() < DISCRIMINATOR_WIDTH {
        Err(DispatchError::DecodeError { offset: 0 })
    } else if !registered(table, payload.subrange(0, DISCRIMINATOR_WIDTH as int)) {
        Err(DispatchError::UnknownInstruction)
    } else {
        let k = choose|k: int|
            0 <= k < table.len() && (#[trigger] table[k]).discriminator == payload.subrange(
                0,
                DISCRIMINATOR_WIDTH as int,
            );
        match parse_from(table[k].arguments, payload, DISCRIMINATOR_WIDTH as int) {
            Err(offset) => Err(DispatchError::DecodeError { offset: offset as usize }),
            Ok(arguments) => match bind_outcome(engine, table[k].context, accounts) {
                Err(e) => Err(DispatchError::Validation(e)),
                Ok(_) => Ok((k, arguments)),
            },
        }
    }
}

/// What a call comes to once its handler has returned: the handler's own
/// error; `NotWritable` where it wants to write to an account that is not in
/// the list or not marked writable; else its writes and the encoding of the
/// values it returned.
pub open spec fn concluded(accounts: Seq<AccountView>, result: Result<HandlerOutput, HandlerError>)
    -> Result<(Seq<Write>, Seq<u8>), DispatchError> {
    match result {
        Err(e) => Err(DispatchError::HandlerError(e)),
        Ok(output) => if writes_permitted(output.writes@, accounts) {
            Ok((output.writes@, encoded_all(output.returned.values())))
        } else {
            Err(DispatchError::Validation(ValidationError::NotWritable))
        },
    }
}

/// A payload whose first bytes are the discriminator of no registered
/// instruction gives `UnknownInstruction`, whatever else it holds and
/// whatever the accounts are.
pub proof fn unknown_discriminator_fails(
    engine: Seq<u8>,
    table: Seq<InstructionView>,
    program: Seq<u8>,
    accounts: Seq<AccountView>,
    payload: Seq<u8>,
)
    requires
        payload.len() >= DISCRIMINATOR_WIDTH,
        !registered(table, payload.subrange(0, DISCRIMINATOR_WIDTH as int)),
    ensures
        prepared(engine, table, program, accounts, payload) == Err::<
            (int, Seq<ValueView>),
            DispatchError,
        >(DispatchError::UnknownInstruction),
{
}

/// A well-formed call with accounts that meet every constraint is committed.
///
/// The payload is the discriminator of a registered instruction followed by
/// the encoding of arguments of the declared kinds. Then the call reaches the
/// handler of that instruction with exactly those arguments; and where the
/// handler succeeds with writes that the account list permits, the call is
/// settled with those writes and with an output that decodes to the values
/// returned.
pub proof fn well_formed_call_commits(
    engine: Seq<u8>,
    table: Seq<InstructionView>,
    k: int,
    arguments: Seq<ValueView>,
    accounts: Seq<AccountView>,
    output: HandlerOutput,
)
    requires
        distinct(table),
        0 <= k < table.len(),
        table[k].discriminator.len() == DISCRIMINATOR_WIDTH,
        kinds_of(arguments) == table[k].arguments,
        all_encodable(arguments),
        satisfied(engine, table[k].context, accounts),
        writes_permitted(output.writes@, accounts),
        all_encodable(output.returned.values()),
    ensures
        prepared(engine, table, engine, accounts, table[k].discriminator + encoded_all(arguments))
            == Ok::<(int, Seq<ValueView>), DispatchError>((k, arguments)),
        concluded(accounts, Ok(output)) matches Ok((writes, bytes)) && writes == output.writes@
            && parse_from(kinds_of(output.returned.values()), bytes, 0) == Ok::<
            Seq<ValueView>,
            int,
        >(output.returned.values()),
        end_of(concluded(accounts, Ok(output))) == Stage::Committed,
{
    let tag = table[k].discriminator;
    let payload = tag + encoded_all(arguments);
    assert(payload.subrange(0, DISCRIMINATOR_WIDTH as int) =~= tag);
    assert(registered(table, tag));
    decode_inverts_encode(arguments, tag);
    bound_iff_satisfied(engine, table[k].context, accounts);
    decode_inverts_encode(output.returned.values(), Seq::empty());
    assert(Seq::<u8>::empty() + encoded_all(output.returned.values()) =~= encoded_all(
        output.returned.values(),
    ));
}

/// What a settled call is, over views.
pub open spec fn settled_view(r: Result<Effects, DispatchError>) -> Result<
    (Seq<Write>, Seq<u8>),
    DispatchError,
> {
    match r {
        Ok(effects) => Ok((effects.writes@, effects.output@)),
        Err(e) => Err(e),
    }
}

/// Whether `payload` opens with the bytes of `discriminator`.
pub fn opens_with(payload: &[u8], discriminator: &[u8; 8]) -> (r: bool)
    ensures
        r == (payload@.len() >= 8 && payload@.subrange(0, 8) == discriminator@),
{
    if payload.len() < 8 {
        return false;
    }
    let mut i: usize = 0;
    while i < 8
        invariant
            i <= 8,
            payload@.len() >= 8,
            forall|k: int| 0 <= k < i ==> payload@[k] == discriminator@[k],
        decreases 8 - i,
    {
        if payload[i] != discriminator[i] {
            assert(payload@.subrange(0, 8)[i as int] != discriminator@[i as int]);
            return false;
        }
        i += 1;
    }
    assert(payload@.subrange(0, 8) =~= discriminator@);
    true
}

/// Whether every write goes to an account of the list that is marked
/// writable.
pub fn check_writes(writes: &Vec<Write>, accounts: &[Account]) -> (r: bool)
    ensures
        r == writes_permitted(writes@, accounts_view(accounts@)),
{
    let mut i: usize = 0;
    while i < writes.len()
        invariant
            i <= writes@.len(),
            forall|k: int|
                0 <= k < i ==> (#[trigger] writes@[k]).account < accounts@.len()
                    && accounts_view(accounts@)[writes@[k].account as int].writable,
        decreases writes@.len() - i,
    {
        let target = writes[i].account;
        if target >= accounts.len() || !accounts[target].writable {
            assert(!(writes@[i as int].account < accounts@.len() && accounts_view(
                accounts@,
            )[writes@[i as int].account as int].writable));
            return false;
        }
        i += 1;
    }
    true
}

/// The stored state of the account at `k` once the writes are made, in
/// order: what the last write to it holds, or what it held if none goes to it.
pub open spec fn data_after(accounts: Seq<AccountView>, writes: Seq<Write>, k: int) -> Seq<u8>
    decreases writes.len(),
{
    if writes.len() == 0 {
        accounts[k].data
    } else if writes.last().account == k {
        writes.last().data@
    } else {
        data_after(accounts, writes.drop_last(), k)
    }
}

/// The accounts once the writes are made: each with its stored state as
/// `data_after` says, and nothing else changed.
pub open spec fn committed(accounts: Seq<AccountView>, writes: Seq<Write>) -> Seq<AccountView> {
    Seq::new(
        accounts.len(),
        |k: int|
            AccountView {
                identity: accounts[k].identity,
                owner: accounts[k].owner,
                data: data_after(accounts, writes, k),
                writable: accounts[k].writable,
                signer: accounts[k].signer,
                balance: accounts[k].balance,
            },
    )
}

/// Writes that the account list permits leave every account that is not
/// marked writable as it was, and change nothing but stored state.
pub proof fn unwritable_accounts_stay(accounts: Seq<AccountView>, writes: Seq<Write>, k: int)
    requires
        writes_permitted(writes, accounts),
        0 <= k < accounts.len(),
    ensures
        !accounts[k].writable ==> committed(accounts, writes)[k] == accounts[k],
        committed(accounts, writes)[k].identity == accounts[k].identity,
        committed(accounts, writes)[k].owner == accounts[k].owner,
        committed(accounts, writes)[k].writable == accounts[k].writable,
        committed(accounts, writes)[k].signer == accounts[k].signer,
        committed(accounts, writes)[k].balance == accounts[k].balance,
    decreases writes.len(),
{
    if writes.len() > 0 {
        let earlier = writes.drop_last();
        assert forall|i: int| 0 <= i < earlier.len() implies (#[trigger] earlier[i]).account
            < accounts.len() && accounts[earlier[i].account as int].writable by {
            assert(earlier[i] == writes[i]);
        }
        unwritable_accounts_stay(accounts, earlier, k);
    }
}

impl Effects {
    /// Makes the writes on the accounts, in order, and returns `true`; or
    /// returns `false` and changes nothing where one of them goes to an
    /// account that is not in the list or not marked writable.
    pub fn commit(&self, accounts: &mut Vec<Account>) -> (r: bool)
        ensures
            r == writes_permitted(self.writes@, accounts_view(old(accounts)@)),
            r ==> accounts_view(final(accounts)@) == committed(
                accounts_view(old(accounts)@),
                self.writes@,
            ),
            !r ==> final(accounts)@ == old(accounts)@,
    {
        if !check_writes(&self.writes, accounts.as_slice()) {
            return false;
        }
        let ghost before = accounts_view(accounts@);
        let mut i: usize = 0;
        assert(accounts_view(accounts@) =~= committed(before, self.writes@.take(0)));
        while i < self.writes.len()
            invariant
                i <= self.writes@.len(),
                before == accounts_view(old(accounts)@),
                writes_permitted(self.writes@, before),
                accounts_view(accounts@) == committed(before, self.writes@.take(i as int)),
            decreases self.writes@.len() - i,
        {
            let write = &self.writes[i];
            let target = write.account;
            let ghost current = accounts_view(accounts@);
            assert(current.len() == before.len());
            let mut data: Vec<u8> = Vec::new();
            append_range(&mut data, write.data.as_slice(), 0, write.data.len());
            assert(data@ =~= write.data@);
            let updated = Account {
                identity: accounts[target].identity,
                owner: accounts[target].owner,
                data,
                writable: accounts[target].writable,
                signer: accounts[target].signer,
                balance: accounts[target].balance,
            };
            accounts.set(target, updated);
            proof {
                let done = self.writes@.take(i as int);
                let next = self.writes@.take(i + 1);
                assert(next.last() == self.writes@[i as int]);
                assert(next.drop_last() =~= done);
                assert forall|k: int| 0 <= k < before.len() implies accounts_view(accounts@)[k]
                    == committed(before, next)[k] by {
                    assert(current[k] == committed(before, done)[k]);
                }
                assert(accounts_view(accounts@) =~= committed(before, next));
            }
            i += 1;
        }
        assert(self.writes@.take(i as int) =~= self.writes@);
        true
    }
}

/// Settles a call whose handler has returned.
///
/// The handler's error is passed on. Where it succeeded, its writes are
/// accepted only if each of them goes to an account of the list that is
/// marked writable; else the call fails with `NotWritable`. The values that
/// it returned are encoded, and decoding that encoding gives them back.
pub fn conclude(accounts: &[Account], result: Result<HandlerOutput, HandlerError>) -> (r: Result<
    Effects,
    DispatchError,
>)
    ensures
        settled_view(r) == concluded(accounts_view(accounts@), result),
        r matches Ok(effects) ==> result matches Ok(output) && all_encodable(
            output.returned.values(),
        ) && parse_from(kinds_of(output.returned.values()), effects.output@, 0) == Ok::<
            Seq<ValueView>,
            int,
        >(output.returned.values()),
{
    match result {
        Err(e) => Err(DispatchError::HandlerError(e)),
        Ok(output) => {
            if !check_writes(&output.writes, accounts) {
                return Err(DispatchError::Validation(ValidationError::NotWritable));
            }
            let bytes = output.returned.encode();
            proof {
                decode_inverts_encode(output.returned.values(), Seq::empty());
                assert(Seq::<u8>::empty() + bytes@ =~= bytes@);
            }
            Ok(Effects { writes: output.writes, output: bytes })
        },
    }
}

/// A call that is ready for its handler: the position of the instruction in
/// the table, the decoded arguments, and the bound accounts.
#[derive(Debug)]
pub struct Call<'a> {
    pub instruction: usize,
    pub arguments: Vec<Value>,
    pub context: BoundContext<'a>,
}

/// A registered instruction with its handler.
pub struct Registered<H> {
    instruction: Instruction,
    handler: H,
}

/// The engine of one program: its identity and the table of its
/// instructions, in the order of their registration.
pub struct Engine<H> {
    program: Identity,
    entries: Vec<Registered<H>>,
}

impl<H> Engine<H> {
    #[verifier::type_invariant]
    spec fn well_formed(self) -> bool {
        distinct(self.table())
    }

    /// The identity of the program.
    pub closed spec fn program(self) -> Seq<u8> {
        self.program@
    }

    /// The registered instructions, in the order of their registration.
    pub closed spec fn table(self) -> Seq<InstructionView> {
        Seq::new(self.entries@.len(), |i: int| self.entries@[i].instruction@)
    }

    /// An engine for the program with no instruction registered.
    pub fn new(program: Identity) -> (engine: Engine<H>)
        ensures
            engine.program() == program@,
            engine.table() == Seq::<InstructionView>::empty(),
    {
        let engine = Engine { program, entries: Vec::new() };
        assert(engine.table() =~= Seq::<InstructionView>::empty());
        engine
    }

    /// Does nothing; states that no two registered instructions share a
    /// discriminator.
    pub fn guarantee(&self)
        ensures
            distinct(self.table()),
    {
        proof {
            use_type_invariant(self);
        }
    }

    /// The identity of the program.
    pub fn program_identity(&self) -> (id: Identity)
        ensures
            id@ == self.program(),
    {
        self.program
    }

    /// The number of registered instructions.
    pub fn len(&self) -> (n: usize)
        ensures
            n == self.table().len(),
    {
        self.entries.len()
    }

    /// The instruction registered at a position, if there is one.
    pub fn instruction(&self, position: usize) -> (r: Option<&Instruction>)
        ensures
            match r {
                Some(instruction) => position < self.table().len() && instruction@
                    == self.table()[position as int],
                None => position >= self.table().len(),
            },
    {
        if position < self.entries.len() {
            Some(&self.entries[position].instruction)
        } else {
            None
        }
    }

    /// The position of the instruction whose discriminator opens the
    /// payload, if one is registered.
    pub fn find(&self, payload: &[u8]) -> (r: Option<usize>)
        ensures
            match r {
                Some(k) => {
                    &&& k < self.table().len()
                    &&& payload@.len() >= 8
                    &&& self.table()[k as int].discriminator == payload@.subrange(0, 8)
                },
                None => payload@.len() < 8 || !registered(self.table(), payload@.subrange(0, 8)),
            },
    {
        let mut k: usize = 0;
        while k < self.entries.len()
            invariant
                k <= self.entries@.len(),
                forall|m: int|
                    0 <= m < k ==> !(payload@.len() >= 8 && (
                    #[trigger] self.table()[m]).discriminator == payload@.subrange(0, 8)),
            decreases self.entries@.len() - k,
        {
            if opens_with(payload, &self.entries[k].instruction.discriminator) {
                return Some(k);
            }
            k += 1;
        }
        None
    }

    /// Registers an instruction with its handler behind those already
    /// registered, and returns the engine with the position of the
    /// instruction. Where its discriminator is taken, the engine comes back
    /// as it was, with `None`.
    pub fn register(self, instruction: Instruction, handler: H) -> (r: (Engine<H>, Option<usize>))
        ensures
            r.0.program() == self.program(),
            match r.1 {
                Some(k) => {
                    &&& !registered(self.table(), instruction.discriminator@)
                    &&& k == self.table().len()
                    &&& r.0.table() == self.table().push(instruction@)
                },
                None => {
                    &&& registered(self.table(), instruction.discriminator@)
                    &&& r.0.table() == self.table()
                },
            },
    {
        proof {
            use_type_invariant(&self);
        }
        let tag = instruction.discriminator;
        assert(tag@.subrange(0, 8) =~= tag@);
        match self.find(tag.as_slice()) {
            Some(_) => (self, None),
            None => {
                let ghost before = self.table();
                let program = self.program;
                let mut entries = self.entries;
                let k = entries.len();
                entries.push(Registered { instruction, handler });
                proof {
                    let after = Seq::new(entries@.len(), |i: int| entries@[i].instruction@);
                    assert(after =~= before.push(instruction@));
                    assert forall|a: int, b: int|
                        0 <= a < after.len() && 0 <= b < after.len() && (
                        #[trigger] after[a]).discriminator == (
                        #[trigger] after[b]).discriminator implies a == b by {
                        if a < before.len() {
                            assert(after[a] == before[a]);
                        }
                        if b < before.len() {
                            assert(after[b] == before[b]);
                        }
                    }
                }
                let engine = Engine { program, entries };
                assert(engine.table() =~= before.push(instruction@));
                (engine, Some(k))
            },
        }
    }

    /// Brings a call up to its handler: selects the instruction, decodes the
    /// arguments and binds the accounts, or says why the call is aborted.
    pub fn prepare<'a>(&'a self, program: &Identity, accounts: &'a [Account], payload: &[u8]) -> (r:
        Result<Call<'a>, DispatchError>)
        ensures
            match prepared(
                self.program(),
                self.table(),
                program@,
                accounts_view(accounts@),
                payload@,
            ) {
                Err(e) => r matches Err(f) && f == e,
                Ok((k, arguments)) => {
                    &&& r matches Ok(call)
                    &&& call.instruction == k
                    &&& k < self.table().len()
                    &&& values_view(call.arguments@) == arguments
                    &&& call.context.program() == program@
                    &&& call.context.schema() == self.table()[k].context
                    &&& call.context.accounts() == accounts_view(accounts@)
                },
            },
    {
        proof {
            use_type_invariant(self);
        }
        if !program.same(&self.program) {
            return Err(DispatchError::UnknownInstruction);
        }
        if payload.len() < DISCRIMINATOR_WIDTH {
            return Err(DispatchError::DecodeError { offset: 0 });
        }
        let k = match self.find(payload) {
            Some(k) => k,
            None => {
                return Err(DispatchError::UnknownInstruction);
            },
        };
        let entry = &self.entries[k].instruction;
        assert(entry@ == self.table()[k as int]);
        let arguments = match decode_values(&entry.arguments, payload, DISCRIMINATOR_WIDTH) {
            Ok(arguments) => arguments,
            Err(e) => {
                return Err(DispatchError::DecodeError { offset: e.offset });
            },
        };
        match bind(&self.program, &entry.context, accounts) {
            Ok(context) => Ok(Call { instruction: k, arguments, context }),
            Err(e) => Err(DispatchError::Validation(e)),
        }
    }

}

impl<H: Handler> Engine<H> {
    /// Processes one call to completion.
    ///
    /// The call is aborted with the error that `prepared` gives, and then no
    /// handler runs. Else the handler of the selected instruction runs once,
    /// on the bound accounts and the decoded arguments, and the call is
    /// settled as `conclude` says: it fails with the handler's error or with
    /// `NotWritable`, or it is committed with writes that the account list
    /// permits and an output that decodes to the values returned.
    pub fn dispatch(&self, program: &Identity, accounts: &[Account], payload: &[u8]) -> (r: Result<
        Effects,
        DispatchError,
    >)
        ensures
            match prepared(
                self.program(),
                self.table(),
                program@,
                accounts_view(accounts@),
                payload@,
            ) {
                Err(e) => r matches Err(f) && f == e,
                Ok(_) => match r {
                    Ok(effects) => {
                        &&& writes_permitted(effects.writes@, accounts_view(accounts@))
                        &&& exists|values: Seq<ValueView>|
                            all_encodable(values) && effects.output@ == encoded_all(values)
                                && #[trigger] parse_from(kinds_of(values), effects.output@, 0)
                                == Ok::<Seq<ValueView>, int>(values)
                    },
                    Err(e) => e is HandlerError || e == DispatchError::Validation(
                        ValidationError::NotWritable,
                    ),
                },
            },
    {
        match self.prepare(program, accounts, payload) {
            Err(e) => Err(e),
            Ok(call) => {
                let result = self.entries[call.instruction].handler.handle(
                    &call.context,
                    &call.arguments,
                );
                let ghost returned = result;
                let r = conclude(accounts, result);
                proof {
                    if let Ok(output) = returned {
                        if r is Ok {
                            let values = output.returned.values();
                            assert(parse_from(kinds_of(values), r->Ok_0.output@, 0) == Ok::<
                                Seq<ValueView>,
                                int,
                            >(values));
                        }
                    }
                }
                r
            },
        }
    }
}

} // verus!
