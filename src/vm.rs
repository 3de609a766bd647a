use vstd::prelude::*;

use crate::chunk::{Chunk, ChunkModel, OpCode};
use crate::compiler::Compiler;
use crate::error::Error;
use crate::grammar::compilation;
use crate::value::{is_falsy, Constant, Datum, Literal, ObjectType, Value};

verus! {

/// An arithmetic operation on two numbers, giving a number.
#[derive(Debug, Clone, Copy, PartialEq, Eq, Structural)]
pub enum Arith {
    Add,
    Subtract,
    Multiply,
    Divide,
}

/// A comparison of two numbers, giving a boolean.
#[derive(Debug, Clone, Copy, PartialEq, Eq, Structural)]
pub enum Comparison {
    Equal,
    Less,
    Greater,
}

/// Floating-point work the machine hands to its host. Numbers are the
/// bit patterns of 64-bit floats. The host answers `Parse`, `Arithmetic`
/// and `Negate` with `supply_number`, `Compare` with `supply_bool`.
#[derive(Debug, Clone, Copy)]
pub enum Request<'src> {
    /// Read a number literal.
    Parse(&'src str),
    Arithmetic(Arith, u64, u64),
    Negate(u64),
    Compare(Comparison, u64, u64),
}

/// Why `run` stopped.
#[derive(Debug)]
pub enum Outcome<'src> {
    /// The host is to compute this and supply the result.
    Compute(Request<'src>),
    /// The host is to print this value.
    Print(Value),
    /// The program ended.
    Finished,
    /// Execution halted at an error.
    Failed(Error),
}

/// The model of a request.
pub enum Task {
    Parse(Seq<char>),
    Arithmetic(Arith, u64, u64),
    Negate(u64),
    Compare(Comparison, u64, u64),
}

/// The model of an outcome.
pub enum Event {
    Compute(Task),
    Print(Datum),
    Finished,
    Failed(Error),
}

impl<'src> View for Request<'src> {
    type V = Task;

    open spec fn view(&self) -> Task {
        match *self {
            Request::Parse(t) => Task::Parse(t@),
            Request::Arithmetic(op, a, b) => Task::Arithmetic(op, a, b),
            Request::Negate(a) => Task::Negate(a),
            Request::Compare(op, a, b) => Task::Compare(op, a, b),
        }
    }
}

impl<'src> View for Outcome<'src> {
    type V = Event;

    open spec fn view(&self) -> Event {
        match self {
            Outcome::Compute(r) => Event::Compute(r@),
            Outcome::Print(v) => Event::Print(v@),
            Outcome::Finished => Event::Finished,
            Outcome::Failed(e) => Event::Failed(*e),
        }
    }
}

pub open spec fn event_of<'src>(o: Option<Outcome<'src>>) -> Option<Event> {
    match o {
        Some(x) => Some(x@),
        None => None,
    }
}

/// The model of the machine: the loaded chunk, the next instruction, the
/// operand stack (top last) and the global table.
pub struct VmModel {
    pub chunk: ChunkModel,
    pub ip: nat,
    pub stack: Seq<Datum>,
    pub globals: Map<Seq<char>, Datum>,
}

// ----- What one instruction does -----

pub open spec fn pushed(m: VmModel, d: Datum) -> VmModel {
    VmModel { stack: m.stack.push(d), ..m }
}

pub open spec fn popped(m: VmModel, n: nat) -> VmModel {
    VmModel { stack: m.stack.subrange(0, m.stack.len() - n), ..m }
}

pub open spec fn failed(m: VmModel, e: Error) -> (VmModel, Option<Event>) {
    (m, Some(Event::Failed(e)))
}

/// The variable name that constant `i` holds, if it is a string.
pub open spec fn name_at(m: VmModel, i: usize) -> Option<Seq<char>> {
    if i < m.chunk.constants.len() && m.chunk.constants[i as int] is Str {
        Some(m.chunk.constants[i as int]->Str_0)
    } else {
        None
    }
}

/// Equality of two values that are not both numbers: by value within a
/// tag, false across tags.
pub open spec fn same_datum(a: Datum, b: Datum) -> bool {
    match a {
        Datum::Bool(x) => b == Datum::Bool(x),
        Datum::Nil => b == Datum::Nil,
        Datum::Str(x) => b == Datum::Str(x),
        Datum::Number(_) => false,
    }
}

pub open spec fn second(m: VmModel) -> Datum {
    m.stack[m.stack.len() - 2]
}

pub open spec fn first(m: VmModel) -> Datum {
    m.stack[m.stack.len() - 1]
}

pub open spec fn both_numbers(m: VmModel) -> bool {
    second(m) is Number && first(m) is Number
}

/// A string constant is copied onto the stack; a number literal goes to
/// the host to be read.
pub open spec fn load_constant(m: VmModel, i: usize) -> (VmModel, Option<Event>) {
    if i < m.chunk.constants.len() {
        match m.chunk.constants[i as int] {
            Literal::Str(t) => (pushed(m, Datum::Str(t)), None),
            Literal::Num(t) => (m, Some(Event::Compute(Task::Parse(t)))),
        }
    } else {
        failed(m, Error::Compiler)
    }
}

/// Reads a global; reading one that was never defined is a run-time
/// error.
pub open spec fn get_global(m: VmModel, i: usize) -> (VmModel, Option<Event>) {
    match name_at(m, i) {
        Some(k) => if m.globals.contains_key(k) {
            (pushed(m, m.globals[k]), None)
        } else {
            failed(m, Error::Runtime)
        },
        None => failed(m, Error::Compiler),
    }
}

/// Binds the top of the stack to a name, replacing any earlier binding,
/// and pops it.
pub open spec fn define_global(m: VmModel, i: usize) -> (VmModel, Option<Event>) {
    match name_at(m, i) {
        Some(k) => if m.stack.len() >= 1 {
            (VmModel { globals: m.globals.insert(k, first(m)), ..popped(m, 1) }, None)
        } else {
            failed(m, Error::Compiler)
        },
        None => failed(m, Error::Compiler),
    }
}

/// `+ - * /` on two numbers go to the host; `+` on two strings
/// concatenates; any other pairing is a run-time error. Too few operands
/// means the bytecode is broken, a compiler-class error.
pub open spec fn arithmetic(m: VmModel, op: Arith) -> (VmModel, Option<Event>) {
    if m.stack.len() < 2 {
        failed(m, Error::Compiler)
    } else if both_numbers(m) {
        (
            popped(m, 2),
            Some(Event::Compute(Task::Arithmetic(op, second(m)->Number_0, first(m)->Number_0))),
        )
    } else if op == Arith::Add && second(m) is Str && first(m) is Str {
        (pushed(popped(m, 2), Datum::Str(second(m)->Str_0 + first(m)->Str_0)), None)
    } else {
        failed(m, Error::Runtime)
    }
}

/// Comparison of two numbers goes to the host. Equality of anything else
/// is `same_datum`; ordering anything else is a run-time error.
pub open spec fn compare(m: VmModel, op: Comparison) -> (VmModel, Option<Event>) {
    if m.stack.len() < 2 {
        failed(m, Error::Compiler)
    } else if both_numbers(m) {
        (
            popped(m, 2),
            Some(Event::Compute(Task::Compare(op, second(m)->Number_0, first(m)->Number_0))),
        )
    } else if op == Comparison::Equal {
        (pushed(popped(m, 2), Datum::Bool(same_datum(second(m), first(m)))), None)
    } else {
        failed(m, Error::Runtime)
    }
}

/// `Not`, `Print`, `Pop` and `Negate`, which take one operand.
pub open spec fn unary(m: VmModel, op: OpCode) -> (VmModel, Option<Event>) {
    if m.stack.len() < 1 {
        failed(m, Error::Compiler)
    } else if op == OpCode::Not {
        (pushed(popped(m, 1), Datum::Bool(is_falsy(first(m)))), None)
    } else if op == OpCode::Print {
        (popped(m, 1), Some(Event::Print(first(m))))
    } else if op == OpCode::Pop {
        (popped(m, 1), None)
    } else if first(m) is Number {
        (popped(m, 1), Some(Event::Compute(Task::Negate(first(m)->Number_0))))
    } else {
        failed(m, Error::Runtime)
    }
}

/// Executes the instruction at `ip`: the state after it, and what the
/// host must do, if anything.
pub open spec fn step(m: VmModel) -> (VmModel, Option<Event>) {
    let m1 = VmModel { ip: m.ip + 1, ..m };
    match m.chunk.code[m.ip as int] {
        OpCode::Constant(i) => load_constant(m1, i),
        OpCode::Nil => (pushed(m1, Datum::Nil), None),
        OpCode::True => (pushed(m1, Datum::Bool(true)), None),
        OpCode::False => (pushed(m1, Datum::Bool(false)), None),
        OpCode::GetGlobal(i) => get_global(m1, i),
        OpCode::DefineGlobal(i) => define_global(m1, i),
        OpCode::Equal => compare(m1, Comparison::Equal),
        OpCode::Greater => compare(m1, Comparison::Greater),
        OpCode::Less => compare(m1, Comparison::Less),
        OpCode::Add => arithmetic(m1, Arith::Add),
        OpCode::Subtract => arithmetic(m1, Arith::Subtract),
        OpCode::Multiply => arithmetic(m1, Arith::Multiply),
        OpCode::Divide => arithmetic(m1, Arith::Divide),
        OpCode::Return => (VmModel { ip: m.chunk.code.len(), ..m }, Some(Event::Finished)),
        op => unary(m1, op),
    }
}

/// The machine with `chunk` loaded: at its first instruction, with an
/// empty stack and the same globals.
pub open spec fn loaded(m: VmModel, chunk: ChunkModel) -> VmModel {
    VmModel { chunk, ip: 0, stack: Seq::empty(), globals: m.globals }
}

/// Executes instructions until the host is needed or the chunk ends.
pub open spec fn run(m: VmModel) -> (VmModel, Event)
    decreases m.chunk.code.len() - m.ip,
{
    if m.ip >= m.chunk.code.len() {
        (m, Event::Finished)
    } else {
        let (m1, e) = step(m);
        match e {
            Some(ev) => (m1, ev),
            None => run(m1),
        }
    }
}

// ----- The global table -----

/// A named global and its value.
#[derive(Debug)]
struct Global {
    name: String,
    value: Value,
}

pub open spec fn table(es: Seq<(Seq<char>, Datum)>) -> Map<Seq<char>, Datum>
    decreases es.len(),
{
    if es.len() == 0 {
        Map::empty()
    } else {
        table(es.drop_last()).insert(es.last().0, es.last().1)
    }
}

pub open spec fn keys_unique(es: Seq<(Seq<char>, Datum)>) -> bool {
    forall|i: int, j: int| 0 <= i < j < es.len() ==> es[i].0 != es[j].0
}

proof fn lemma_table_has(es: Seq<(Seq<char>, Datum)>, i: int)
    requires
        keys_unique(es),
        0 <= i < es.len(),
    ensures
        table(es).contains_key(es[i].0),
        table(es)[es[i].0] == es[i].1,
    decreases es.len(),
{
    if i < es.len() - 1 {
        lemma_table_has(es.drop_last(), i);
    }
}

proof fn lemma_table_lacks(es: Seq<(Seq<char>, Datum)>, k: Seq<char>)
    requires
        forall|i: int| 0 <= i < es.len() ==> es[i].0 != k,
    ensures
        !table(es).contains_key(k),
    decreases es.len(),
{
    if es.len() > 0 {
        lemma_table_lacks(es.drop_last(), k);
    }
}

proof fn lemma_table_update(es: Seq<(Seq<char>, Datum)>, i: int, v: Datum)
    requires
        keys_unique(es),
        0 <= i < es.len(),
    ensures
        table(es.update(i, (es[i].0, v))) == table(es).insert(es[i].0, v),
        keys_unique(es.update(i, (es[i].0, v))),
    decreases es.len(),
{
    let k = es[i].0;
    let es2 = es.update(i, (k, v));
    if i == es.len() - 1 {
        assert(es2.drop_last() =~= es.drop_last());
        assert(table(es2) =~= table(es).insert(k, v));
    } else {
        lemma_table_update(es.drop_last(), i, v);
        assert(es2.drop_last() =~= es.drop_last().update(i, (k, v)));
        assert(table(es2) =~= table(es).insert(k, v));
    }
}

proof fn lemma_table_push(es: Seq<(Seq<char>, Datum)>, k: Seq<char>, v: Datum)
    ensures
        table(es.push((k, v))) == table(es).insert(k, v),
{
    assert(es.push((k, v)).drop_last() =~= es);
}

// ----- The machine -----

/// The stack machine. It holds one chunk at a time; its global table
/// lasts across chunks.
#[derive(Debug)]
pub struct VM<'src> {
    chunk: Chunk<'src>,
    ip: usize,
    stack: Vec<Value>,
    globals: Vec<Global>,
}

pub open spec fn stack_model(s: Seq<Value>) -> Seq<Datum> {
    s.map_values(|v: Value| v@)
}

spec fn entries(g: Seq<Global>) -> Seq<(Seq<char>, Datum)> {
    g.map_values(|e: Global| (e.name@, e.value@))
}

impl<'src> View for VM<'src> {
    type V = VmModel;

    closed spec fn view(&self) -> VmModel {
        VmModel {
            chunk: self.chunk@,
            ip: self.ip as nat,
            stack: stack_model(self.stack@),
            globals: table(entries(self.globals@)),
        }
    }
}

impl<'src> VM<'src> {
    pub closed spec fn wf(&self) -> bool {
        &&& self.ip <= self.chunk@.code.len()
        &&& keys_unique(entries(self.globals@))
    }

    pub fn new() -> (r: Self)
        ensures
            r.wf(),
            r@.chunk == ChunkModel::empty(),
            r@.ip == 0,
            r@.stack == Seq::<Datum>::empty(),
            r@.globals == Map::<Seq<char>, Datum>::empty(),
    {
        let r = VM { chunk: Chunk::new(), ip: 0, stack: Vec::new(), globals: Vec::new() };
        assert(stack_model(r.stack@) =~= Seq::<Datum>::empty());
        assert(entries(r.globals@) =~= Seq::<(Seq<char>, Datum)>::empty());
        r
    }

    /// Compiles `source` and, if it compiled without error, loads it for
    /// `run` with an empty stack; the globals stay. A source with syntax
    /// errors is not loaded.
    pub fn interpret(&mut self, source: &'src str) -> (r: Result<(), Error>)
        requires
            old(self).wf(),
        ensures
            final(self).wf(),
            compilation(source@).had_error ==> (r == Err::<(), Error>(Error::Compiler)),
            compilation(source@).had_error ==> (final(self)@ == old(self)@),
            !compilation(source@).had_error ==> (r is Ok),
            !compilation(source@).had_error ==> (final(self)@ == loaded(
                old(self)@,
                compilation(source@).chunk,
            )),
    {
        let mut compiler = Compiler::new();
        let chunk = compiler.compile(source);
        if compiler.had_error() {
            return Err(Error::Compiler);
        }
        self.chunk = chunk;
        self.ip = 0;
        self.stack = Vec::new();
        assert(stack_model(self.stack@) =~= Seq::<Datum>::empty());
        Ok(())
    }

    /// Runs until the host is needed: for floating-point work, to print,
    /// at the end of the program, or at an error.
    pub fn run(&mut self) -> (r: Outcome<'src>)
        requires
            old(self).wf(),
        ensures
            final(self).wf(),
            final(self)@ == run(old(self)@).0,
            r@ == run(old(self)@).1,
    {
        loop
            invariant
                self.wf(),
                run(self@) == run(old(self)@),
            decreases self@.chunk.code.len() - self@.ip,
        {
            if self.ip >= self.chunk.code().len() {
                return Outcome::Finished;
            }
            match self.step() {
                Some(outcome) => {
                    return outcome;
                },
                None => {},
            }
        }
    }

    /// Executes one instruction.
    pub fn step(&mut self) -> (r: Option<Outcome<'src>>)
        requires
            old(self).wf(),
            old(self)@.ip < old(self)@.chunk.code.len(),
        ensures
            final(self).wf(),
            final(self)@ == step(old(self)@).0,
            event_of(r) == step(old(self)@).1,
            final(self)@.ip > old(self)@.ip,
    {
        let code_len = self.chunk.code().len();
        let op = self.chunk.code()[self.ip];
        self.ip = self.ip + 1;
        match op {
            OpCode::Constant(index) => self.load_constant(index),
            OpCode::Nil => {
                self.push_value(Value::Nil);
                None
            },
            OpCode::True => {
                self.push_value(Value::Bool(true));
                None
            },
            OpCode::False => {
                self.push_value(Value::Bool(false));
                None
            },
            OpCode::GetGlobal(index) => self.get_global(index),
            OpCode::DefineGlobal(index) => self.define_global(index),
            OpCode::Equal => self.compare(Comparison::Equal),
            OpCode::Greater => self.compare(Comparison::Greater),
            OpCode::Less => self.compare(Comparison::Less),
            OpCode::Add => self.arithmetic(Arith::Add),
            OpCode::Subtract => self.arithmetic(Arith::Subtract),
            OpCode::Multiply => self.arithmetic(Arith::Multiply),
            OpCode::Divide => self.arithmetic(Arith::Divide),
            OpCode::Return => {
                self.ip = self.chunk.code().len();
                Some(Outcome::Finished)
            },
            _ => self.unary(op),
        }
    }

    /// Hands the machine the number it asked for.
    pub fn supply_number(&mut self, bits: u64)
        requires
            old(self).wf(),
        ensures
            final(self).wf(),
            final(self)@ == pushed(old(self)@, Datum::Number(bits)),
    {
        self.push_value(Value::Number(bits));
    }

    /// Hands the machine the boolean it asked for.
    pub fn supply_bool(&mut self, b: bool)
        requires
            old(self).wf(),
        ensures
            final(self).wf(),
            final(self)@ == pushed(old(self)@, Datum::Bool(b)),
    {
        self.push_value(Value::Bool(b));
    }

    /// The depth of the operand stack.
    pub fn stack_len(&self) -> (r: usize)
        ensures
            r == self@.stack.len(),
    {
        self.stack.len()
    }

    fn push_value(&mut self, v: Value)
        requires
            old(self).wf(),
        ensures
            final(self).wf(),
            final(self)@ == pushed(old(self)@, v@),
    {
        self.stack.push(v);
        assert(stack_model(self.stack@) =~= stack_model(old(self).stack@).push(v@));
    }

    fn pop_value(&mut self) -> (r: Value)
        requires
            old(self).wf(),
            old(self)@.stack.len() > 0,
        ensures
            final(self).wf(),
            final(self)@ == popped(old(self)@, 1),
            r@ == first(old(self)@),
    {
        let r = self.stack.pop().unwrap();
        assert(stack_model(self.stack@) =~= stack_model(old(self).stack@).subrange(
            0,
            old(self).stack@.len() - 1,
        ));
        r
    }

    /// The variable name in constant `index`, if it is a string.
    fn name_at(&self, index: usize) -> (r: Option<&'src str>)
        ensures
            match r {
                Some(t) => name_at(self@, index) == Some(t@),
                None => name_at(self@, index) is None,
            },
    {
        if index >= self.chunk.constants_len() {
            return None;
        }
        match self.chunk.constant(index) {
            Constant::String(name) => Some(name),
            Constant::Number(_) => None,
        }
    }

    /// Where `name` stands in the global table.
    fn find_global(&self, name: &String) -> (r: Option<usize>)
        requires
            self.wf(),
        ensures
            match r {
                Some(i) => i < self.globals@.len() && self.globals@[i as int].name@ == name@,
                None => forall|i: int|
                    0 <= i < self.globals@.len() ==> self.globals@[i].name@ != name@,
            },
    {
        let mut i: usize = 0;
        while i < self.globals.len()
            invariant
                i <= self.globals@.len(),
                forall|j: int| 0 <= j < i ==> self.globals@[j].name@ != name@,
            decreases self.globals@.len() - i,
        {
            if self.globals[i].name == *name {
                return Some(i);
            }
            i = i + 1;
        }
        None
    }

    fn load_constant(&mut self, index: usize) -> (r: Option<Outcome<'src>>)
        requires
            old(self).wf(),
        ensures
            final(self).wf(),
            final(self)@ == load_constant(old(self)@, index).0,
            event_of(r) == load_constant(old(self)@, index).1,
            final(self)@.ip == old(self)@.ip,
    {
        if index >= self.chunk.constants_len() {
            return Some(Outcome::Failed(Error::Compiler));
        }
        match self.chunk.constant(index) {
            Constant::String(text) => {
                self.push_value(Value::Object(ObjectType::String(text.to_owned())));
                None
            },
            Constant::Number(text) => Some(Outcome::Compute(Request::Parse(text))),
        }
    }

    fn get_global(&mut self, index: usize) -> (r: Option<Outcome<'src>>)
        requires
            old(self).wf(),
        ensures
            final(self).wf(),
            final(self)@ == get_global(old(self)@, index).0,
            event_of(r) == get_global(old(self)@, index).1,
            final(self)@.ip == old(self)@.ip,
    {
        match self.name_at(index) {
            None => Some(Outcome::Failed(Error::Compiler)),
            Some(name) => {
                let key = name.to_owned();
                match self.find_global(&key) {
                    Some(i) => {
                        proof {
                            assert(entries(self.globals@)[i as int].0 == key@);
                            lemma_table_has(entries(self.globals@), i as int);
                        }
                        let v = self.globals[i].value.duplicate();
                        self.push_value(v);
                        None
                    },
                    None => {
                        proof {
                            assert forall|j: int| 0 <= j < entries(self.globals@).len() implies #[trigger] entries(
                                self.globals@,
                            )[j].0 != key@ by {
                                assert(self.globals@[j].name@ != key@);
                            }
                            lemma_table_lacks(entries(self.globals@), key@);
                        }
                        Some(Outcome::Failed(Error::Runtime))
                    },
                }
            },
        }
    }

    fn define_global(&mut self, index: usize) -> (r: Option<Outcome<'src>>)
        requires
            old(self).wf(),
        ensures
            final(self).wf(),
            final(self)@ == define_global(old(self)@, index).0,
            event_of(r) == define_global(old(self)@, index).1,
            final(self)@.ip == old(self)@.ip,
    {
        match self.name_at(index) {
            None => Some(Outcome::Failed(Error::Compiler)),
            Some(name) => {
                if self.stack.len() == 0 {
                    return Some(Outcome::Failed(Error::Compiler));
                }
                let value = self.pop_value();
                let key = name.to_owned();
                let ghost es = entries(self.globals@);
                match self.find_global(&key) {
                    Some(i) => {
                        self.globals.set(i, Global { name: key, value });
                        proof {
                            assert(entries(self.globals@) =~= es.update(
                                i as int,
                                (es[i as int].0, value@),
                            ));
                            lemma_table_update(es, i as int, value@);
                        }
                    },
                    None => {
                        self.globals.push(Global { name: key, value });
                        proof {
                            assert(entries(self.globals@) =~= es.push((key@, value@)));
                            lemma_table_push(es, key@, value@);
                        }
                    },
                }
                None
            },
        }
    }

    fn arithmetic(&mut self, op: Arith) -> (r: Option<Outcome<'src>>)
        requires
            old(self).wf(),
        ensures
            final(self).wf(),
            final(self)@ == arithmetic(old(self)@, op).0,
            event_of(r) == arithmetic(old(self)@, op).1,
            final(self)@.ip == old(self)@.ip,
    {
        if self.stack.len() < 2 {
            return Some(Outcome::Failed(Error::Compiler));
        }
        let b = self.pop_value();
        let a = self.pop_value();
        assert(self@.stack =~= popped(old(self)@, 2).stack);
        match (a, b) {
            (Value::Number(x), Value::Number(y)) => Some(
                Outcome::Compute(Request::Arithmetic(op, x, y)),
            ),
            (Value::Object(ObjectType::String(x)), Value::Object(ObjectType::String(y))) => {
                if op == Arith::Add {
                    let joined = x.concat(y.as_str());
                    self.push_value(Value::Object(ObjectType::String(joined)));
                    None
                } else {
                    self.push_value(Value::Object(ObjectType::String(x)));
                    self.push_value(Value::Object(ObjectType::String(y)));
                    proof {
                        assert(self@.stack =~= old(self)@.stack);
                    }
                    Some(Outcome::Failed(Error::Runtime))
                }
            },
            (a, b) => {
                self.push_value(a);
                self.push_value(b);
                proof {
                    assert(self@.stack =~= old(self)@.stack);
                }
                Some(Outcome::Failed(Error::Runtime))
            },
        }
    }

    fn compare(&mut self, op: Comparison) -> (r: Option<Outcome<'src>>)
        requires
            old(self).wf(),
        ensures
            final(self).wf(),
            final(self)@ == compare(old(self)@, op).0,
            event_of(r) == compare(old(self)@, op).1,
            final(self)@.ip == old(self)@.ip,
    {
        if self.stack.len() < 2 {
            return Some(Outcome::Failed(Error::Compiler));
        }
        let b = self.pop_value();
        let a = self.pop_value();
        assert(self@.stack =~= popped(old(self)@, 2).stack);
        match (a, b) {
            (Value::Number(x), Value::Number(y)) => Some(
                Outcome::Compute(Request::Compare(op, x, y)),
            ),
            (a, b) => {
                if op == Comparison::Equal {
                    let same = same_value(&a, &b);
                    self.push_value(Value::Bool(same));
                    None
                } else {
                    self.push_value(a);
                    self.push_value(b);
                    proof {
                        assert(self@.stack =~= old(self)@.stack);
                    }
                    Some(Outcome::Failed(Error::Runtime))
                }
            },
        }
    }

    /// The one-operand instructions: `Not`, `Print`, `Pop` and `Negate`.
    fn unary(&mut self, op: OpCode) -> (r: Option<Outcome<'src>>)
        requires
            old(self).wf(),
        ensures
            final(self).wf(),
            final(self)@ == unary(old(self)@, op).0,
            event_of(r) == unary(old(self)@, op).1,
            final(self)@.ip == old(self)@.ip,
    {
        if self.stack.len() < 1 {
            return Some(Outcome::Failed(Error::Compiler));
        }
        let a = self.pop_value();
        if op == OpCode::Not {
            let falsy = a.is_falsy();
            self.push_value(Value::Bool(falsy));
            None
        } else if op == OpCode::Print {
            Some(Outcome::Print(a))
        } else if op == OpCode::Pop {
            None
        } else {
            match a {
                Value::Number(x) => Some(Outcome::Compute(Request::Negate(x))),
                a => {
                    self.push_value(a);
                    proof {
                        assert(self@.stack =~= old(self)@.stack);
                    }
                    Some(Outcome::Failed(Error::Runtime))
                },
            }
        }
    }
}

/// Equality of two values that are not both numbers.
fn same_value(a: &Value, b: &Value) -> (r: bool)
    ensures
        !(a@ is Number && b@ is Number) ==> r == same_datum(a@, b@),
{
    match (a, b) {
        (Value::Bool(x), Value::Bool(y)) => *x == *y,
        (Value::Nil, Value::Nil) => true,
        (Value::Object(ObjectType::String(x)), Value::Object(ObjectType::String(y))) => *x == *y,
        _ => false,
    }
}

} // verus!

verus! {

// ----- Laws of execution -----

/// Logical negation: `Not` replaces the top of the stack with `true`
/// exactly when it is `false` or `nil`; every number (zero included) and
/// every string is true.
pub proof fn lemma_not_negates_truthiness(m: VmModel)
    requires
        m.ip < m.chunk.code.len(),
        m.chunk.code[m.ip as int] == OpCode::Not,
        m.stack.len() >= 1,
    ensures
        step(m).1 is None,
        step(m).0.stack == m.stack.drop_last().push(
            Datum::Bool(m.stack.last() == Datum::Bool(false) || m.stack.last() == Datum::Nil),
        ),
        step(m).0.globals == m.globals,
{
    assert(m.stack.subrange(0, m.stack.len() - 1) =~= m.stack.drop_last());
}

/// `+` on two strings pushes their concatenation; `+` on a string and
/// anything that is not a string is a run-time error.
pub proof fn lemma_add_strings(m: VmModel)
    requires
        m.ip < m.chunk.code.len(),
        m.chunk.code[m.ip as int] == OpCode::Add,
        m.stack.len() >= 2,
        m.stack[m.stack.len() - 2] is Str || m.stack.last() is Str,
    ensures
        (m.stack[m.stack.len() - 2] is Str && m.stack.last() is Str) ==> step(m).1 is None
            && step(m).0.stack == m.stack.subrange(0, m.stack.len() - 2).push(
            Datum::Str(m.stack[m.stack.len() - 2]->Str_0 + m.stack.last()->Str_0),
        ),
        !(m.stack[m.stack.len() - 2] is Str && m.stack.last() is Str) ==> step(m).1 == Some(
            Event::Failed(Error::Runtime),
        ),
{
}

/// Arithmetic on two numbers never fails: division by zero included, the
/// machine hands the operation to the host, whose float arithmetic
/// decides the result.
pub proof fn lemma_number_arithmetic_never_fails(m: VmModel, op: Arith)
    requires
        m.ip < m.chunk.code.len(),
        m.chunk.code[m.ip as int] == match op {
            Arith::Add => OpCode::Add,
            Arith::Subtract => OpCode::Subtract,
            Arith::Multiply => OpCode::Multiply,
            Arith::Divide => OpCode::Divide,
        },
        m.stack.len() >= 2,
        m.stack[m.stack.len() - 2] is Number,
        m.stack.last() is Number,
    ensures
        step(m).1 == Some(
            Event::Compute(
                Task::Arithmetic(op, m.stack[m.stack.len() - 2]->Number_0, m.stack.last()->Number_0),
            ),
        ),
        step(m).0.stack == m.stack.subrange(0, m.stack.len() - 2),
{
}

/// A global reads back the value last defined for it: after
/// `DefineGlobal` binds the top of the stack to a name, `GetGlobal` of
/// that name pushes the value, whatever was bound before.
pub proof fn lemma_define_then_get(m: VmModel, d: usize, g: usize)
    requires
        m.ip + 1 < m.chunk.code.len(),
        m.chunk.code[m.ip as int] == OpCode::DefineGlobal(d),
        m.chunk.code[m.ip + 1int] == OpCode::GetGlobal(g),
        name_at(m, d) is Some,
        name_at(m, d) == name_at(m, g),
        m.stack.len() >= 1,
    ensures
        step(step(m).0).1 is None,
        step(step(m).0).0.stack == m.stack.drop_last().push(m.stack.last()),
        step(step(m).0).0.globals == m.globals.insert(name_at(m, d)->0, m.stack.last()),
{
    assert(m.stack.subrange(0, m.stack.len() - 1) =~= m.stack.drop_last());
}

} // verus!
