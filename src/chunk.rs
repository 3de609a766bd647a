use vstd::prelude::*;

use crate::value::{Constant, Line, Literal};

verus! {

/// One instruction of the stack machine. The operand of `Constant`,
/// `GetGlobal` and `DefineGlobal` is an index into the constant pool.
#[derive(Debug, Clone, Copy, PartialEq, Eq, Structural)]
pub enum OpCode {
    Constant(usize),
    Nil,
    True,
    False,
    Pop,
    GetGlobal(usize),
    DefineGlobal(usize),
    Equal,
    Greater,
    Less,
    Add,
    Subtract,
    Multiply,
    Divide,
    Not,
    Negate,
    Print,
    Return,
}

/// A compiled unit: instructions, the source line of each, and the
/// constant pool they refer to.
#[derive(Debug)]
pub struct Chunk<'src> {
    code: Vec<OpCode>,
    constants: Vec<Constant<'src>>,
    lines: Vec<Line>,
}

/// The model of a chunk.
pub struct ChunkModel {
    pub code: Seq<OpCode>,
    pub lines: Seq<Line>,
    pub constants: Seq<Literal>,
}

/// One mutation of a chunk.
pub enum ChunkEdit {
    Write(OpCode, Line),
    AddConstant(Literal),
}

impl ChunkModel {
    pub open spec fn empty() -> ChunkModel {
        ChunkModel { code: Seq::empty(), lines: Seq::empty(), constants: Seq::empty() }
    }

    /// Every instruction has its line.
    pub open spec fn wf(self) -> bool {
        self.code.len() == self.lines.len()
    }

    pub open spec fn write(self, op: OpCode, line: Line) -> ChunkModel {
        ChunkModel { code: self.code.push(op), lines: self.lines.push(line), ..self }
    }

    pub open spec fn add_constant(self, c: Literal) -> ChunkModel {
        ChunkModel { constants: self.constants.push(c), ..self }
    }

    pub open spec fn edit(self, e: ChunkEdit) -> ChunkModel {
        match e {
            ChunkEdit::Write(op, line) => self.write(op, line),
            ChunkEdit::AddConstant(c) => self.add_constant(c),
        }
    }

    /// The chunk after the edits, in order.
    pub open spec fn edits(self, es: Seq<ChunkEdit>) -> ChunkModel
        decreases es.len(),
    {
        if es.len() == 0 {
            self
        } else {
            self.edits(es.drop_last()).edit(es.last())
        }
    }
}

impl<'src> View for Chunk<'src> {
    type V = ChunkModel;

    closed spec fn view(&self) -> ChunkModel {
        ChunkModel {
            code: self.code@,
            lines: self.lines@,
            constants: self.constants@.map_values(|c: Constant<'src>| c@),
        }
    }
}

impl<'src> Chunk<'src> {
    pub fn new() -> (r: Self)
        ensures
            r@ == ChunkModel::empty(),
    {
        let code = Vec::new();
        let constants = Vec::new();
        let lines = Vec::new();
        let r = Chunk { code, constants, lines };
        assert(r@.constants =~= Seq::<Literal>::empty());
        r
    }

    /// Appends an instruction and its line together.
    pub fn write(&mut self, op: OpCode, line: Line)
        ensures
            final(self)@ == old(self)@.write(op, line),
    {
        self.code.push(op);
        self.lines.push(line);
        assert(final(self)@.constants =~= old(self)@.constants);
    }

    /// The constant at `index` in the pool.
    pub fn constant(&self, index: usize) -> (r: Constant<'src>)
        requires
            index < self@.constants.len(),
        ensures
            r@ == self@.constants[index as int],
    {
        self.constants[index]
    }

    /// Appends a constant to the pool and returns its index.
    pub fn add_constant(&mut self, constant: Constant<'src>) -> (r: usize)
        ensures
            r == old(self)@.constants.len(),
            final(self)@ == old(self)@.add_constant(constant@),
    {
        self.constants.push(constant);
        assert(final(self)@.constants =~= old(self)@.constants.push(constant@));
        self.constants.len() - 1
    }

    /// The number of constants in the pool.
    pub fn constants_len(&self) -> (r: usize)
        ensures
            r == self@.constants.len(),
    {
        self.constants.len()
    }

    /// The instructions.
    pub fn code(&self) -> (r: &Vec<OpCode>)
        ensures
            r@ == self@.code,
    {
        &self.code
    }

    /// The source line of instruction `i`.
    pub fn line(&self, i: usize) -> (r: Line)
        requires
            i < self@.lines.len(),
        ensures
            r == self@.lines[i as int],
    {
        self.lines[i]
    }

    /// The line label of instruction `i` in a listing: its line where
    /// that differs from the previous instruction's, `None` where it
    /// repeats.
    pub fn line_label(&self, i: usize) -> (r: Option<Line>)
        requires
            i < self@.lines.len(),
        ensures
            r == (if i > 0 && self@.lines[i - 1] == self@.lines[i as int] {
                None::<Line>
            } else {
                Some(self@.lines[i as int])
            }),
    {
        if i > 0 && self.lines[i - 1] == self.lines[i] {
            None
        } else {
            Some(self.lines[i])
        }
    }
}

impl<'src> Default for Chunk<'src> {
    fn default() -> (r: Self)
        ensures
            r@ == ChunkModel::empty(),
    {
        Chunk::new()
    }
}

/// Edits keep a well-formed chunk well-formed.
pub proof fn lemma_edits_keep_wf(c: ChunkModel, es: Seq<ChunkEdit>)
    requires
        c.wf(),
    ensures
        c.edits(es).wf(),
    decreases es.len(),
{
    if es.len() > 0 {
        lemma_edits_keep_wf(c, es.drop_last());
    }
}

/// Lines keep pace with code: after any sequence of edits of an empty
/// chunk, and after each of its prefixes, there are as many lines as
/// instructions.
pub proof fn lemma_lines_track_code(es: Seq<ChunkEdit>)
    ensures
        forall|k: int|
            0 <= k <= es.len() ==> (#[trigger] ChunkModel::empty().edits(es.take(k))).wf(),
{
    assert forall|k: int| 0 <= k <= es.len() implies (#[trigger] ChunkModel::empty().edits(
        es.take(k),
    )).wf() by {
        lemma_edits_keep_wf(ChunkModel::empty(), es.take(k));
    }
}

/// The constant pool only grows: the pool after a prefix of the edits
/// is a prefix of the pool after any longer one. So an index, once
/// returned, keeps naming the same constant.
pub proof fn lemma_constants_stable(es: Seq<ChunkEdit>, i: int, j: int)
    requires
        0 <= i <= j <= es.len(),
    ensures
        ChunkModel::empty().edits(es.take(i)).constants.len() <= ChunkModel::empty().edits(
            es.take(j),
        ).constants.len(),
        ChunkModel::empty().edits(es.take(i)).constants =~= ChunkModel::empty().edits(
            es.take(j),
        ).constants.take(ChunkModel::empty().edits(es.take(i)).constants.len() as int),
    decreases j - i,
{
    if i < j {
        lemma_constants_stable(es, i, j - 1);
        assert(es.take(j).drop_last() =~= es.take(j - 1));
    }
}

/// Indices handed out by `add_constant` strictly increase: the index
/// returned by an addition at position `i` of the edits is smaller than
/// that returned by a later one at position `j`.
pub proof fn lemma_constant_indices_increase(es: Seq<ChunkEdit>, i: int, j: int)
    requires
        0 <= i < j < es.len(),
        es[i] is AddConstant,
        es[j] is AddConstant,
    ensures
        ChunkModel::empty().edits(es.take(i)).constants.len() < ChunkModel::empty().edits(
            es.take(j),
        ).constants.len(),
{
    lemma_constants_stable(es, i + 1, j);
    assert(es.take(i + 1).drop_last() =~= es.take(i));
}

} // verus!
