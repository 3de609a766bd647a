use vstd::prelude::*;

verus! {

/// A 1-based source line.
pub type Line = u16;

/// The largest line number; counting stops there.
pub const MAX_LINE: u16 = 65535;

/// The line after `line`, saturating at the largest line number.
pub open spec fn next_line(line: Line) -> Line {
    if line < MAX_LINE {
        (line + 1) as Line
    } else {
        line
    }
}

/// The line after `line`, saturating at the largest line number.
pub fn following_line(line: Line) -> (r: Line)
    ensures
        r == next_line(line),
{
    if line < MAX_LINE {
        line + 1
    } else {
        line
    }
}

/// A heap object owned by a value.
#[derive(Debug, Clone, PartialEq, Eq)]
pub enum ObjectType {
    String(String),
}

/// A run-time datum. A number is held as the bit pattern of its 64-bit
/// IEEE-754 float.
#[derive(Debug, Clone)]
pub enum Value {
    Bool(bool),
    Nil,
    Number(u64),
    Object(ObjectType),
}

/// The mathematical model of a run-time value.
pub enum Datum {
    Bool(bool),
    Nil,
    Number(u64),
    Str(Seq<char>),
}

impl View for Value {
    type V = Datum;

    open spec fn view(&self) -> Datum {
        match self {
            Value::Bool(b) => Datum::Bool(*b),
            Value::Nil => Datum::Nil,
            Value::Number(n) => Datum::Number(*n),
            Value::Object(ObjectType::String(s)) => Datum::Str(s@),
        }
    }
}

/// A compile-time literal: a view into the source text. A number
/// constant holds the literal's text; the host reads it as a float when
/// the constant is loaded.
#[derive(Debug, Clone, Copy)]
pub enum Constant<'src> {
    String(&'src str),
    Number(&'src str),
}

/// The model of a constant: its tag and its text.
pub enum Literal {
    Str(Seq<char>),
    Num(Seq<char>),
}

impl<'src> View for Constant<'src> {
    type V = Literal;

    open spec fn view(&self) -> Literal {
        match self {
            Constant::String(s) => Literal::Str(s@),
            Constant::Number(s) => Literal::Num(s@),
        }
    }
}

/// Falsiness: exactly `false` and `nil` are false.
pub open spec fn is_falsy(v: Datum) -> bool {
    v == Datum::Bool(false) || v == Datum::Nil
}

impl Value {
    /// A copy of this value that owns its own text.
    pub fn duplicate(&self) -> (r: Value)
        ensures
            r@ == self@,
    {
        match self {
            Value::Bool(b) => Value::Bool(*b),
            Value::Nil => Value::Nil,
            Value::Number(n) => Value::Number(*n),
            Value::Object(ObjectType::String(s)) => Value::Object(ObjectType::String(s.clone())),
        }
    }

    /// Whether the value counts as false in a condition.
    pub fn is_falsy(&self) -> (r: bool)
        ensures
            r == is_falsy(self@),
    {
        match self {
            Value::Bool(b) => !*b,
            Value::Nil => true,
            _ => false,
        }
    }
}

impl View for ObjectType {
    type V = Seq<char>;

    open spec fn view(&self) -> Seq<char> {
        match self {
            ObjectType::String(s) => s@,
        }
    }
}

/// A stable handle to an object in a `Heap`.
#[derive(Debug, Clone, Copy, PartialEq, Eq, Structural)]
pub struct ObjectId {
    pub index: usize,
}

/// The arena that heap objects are to live in once they are collected:
/// objects are named by stable handles, so that a collector can mark
/// what the stack and the globals reach without following pointers.
/// Nothing is collected yet; objects stay for the heap's life.
#[derive(Debug)]
pub struct Heap {
    objects: Vec<ObjectType>,
}

impl View for Heap {
    type V = Seq<Seq<char>>;

    closed spec fn view(&self) -> Seq<Seq<char>> {
        self.objects@.map_values(|o: ObjectType| o@)
    }
}

impl Heap {
    pub fn new() -> (r: Self)
        ensures
            r@ == Seq::<Seq<char>>::empty(),
    {
        let r = Heap { objects: Vec::new() };
        assert(r@ =~= Seq::<Seq<char>>::empty());
        r
    }

    /// Places `object` in the heap; its handle is the next index.
    pub fn allocate(&mut self, object: ObjectType) -> (r: ObjectId)
        ensures
            r.index == old(self)@.len(),
            final(self)@ == old(self)@.push(object@),
    {
        let ghost before = self.objects@;
        self.objects.push(object);
        assert(self@ =~= before.map_values(|o: ObjectType| o@).push(object@));
        ObjectId { index: self.objects.len() - 1 }
    }

    /// The object that `id` names.
    pub fn get(&self, id: ObjectId) -> (r: &ObjectType)
        requires
            id.index < self@.len(),
        ensures
            r@ == self@[id.index as int],
    {
        &self.objects[id.index]
    }

    pub fn len(&self) -> (r: usize)
        ensures
            r == self@.len(),
    {
        self.objects.len()
    }
}

} // verus!
