use crate::line_start::LineStart;
use crate::opcode::OpCode;
use crate::value::Value;
use vstd::prelude::*;

verus! {

/// The mathematical content of a `Chunk`.
pub struct ChunkView {
    pub code: Seq<u8>,
    pub lines: Seq<LineStart>,
    pub constants: Seq<Value>,
}

impl ChunkView {
    pub open spec fn empty() -> ChunkView {
        ChunkView { code: Seq::empty(), lines: Seq::empty(), constants: Seq::empty() }
    }

    /// The line map describes the code: it is empty exactly when the code is,
    /// its first run starts at offset 0, the offsets strictly increase and lie
    /// inside the code, and neighbouring runs differ in their line.
    pub open spec fn wf(self) -> bool {
        &&& self.lines.len() == 0 <==> self.code.len() == 0
        &&& self.lines.len() > 0 ==> self.lines[0].offset == 0
        &&& forall|i: int| 0 <= i < self.lines.len() ==> (#[trigger] self.lines[i]).offset < self.code.len()
        &&& forall|i: int, j: int|
            0 <= i < j < self.lines.len() ==> (#[trigger] self.lines[i]).offset < (#[trigger] self.lines[j]).offset
        &&& forall|i: int, j: int|
            0 <= i && j == i + 1 && j < self.lines.len() ==> (#[trigger] self.lines[i]).line != (
            #[trigger] self.lines[j]).line
    }

    /// The chunk after one more byte, written for source line `line`: a new
    /// run starts only where the line differs from that of the last run.
    pub open spec fn write(self, opcode: OpCode, line: i32) -> ChunkView {
        ChunkView {
            code: self.code.push(opcode.byte()),
            lines: if self.lines.len() > 0 && self.lines.last().line == line {
                self.lines
            } else {
                self.lines.push(LineStart { offset: self.code.len() as usize, line })
            },
            constants: self.constants,
        }
    }

    pub open spec fn add_constant(self, value: Value) -> ChunkView {
        ChunkView { code: self.code, lines: self.lines, constants: self.constants.push(value) }
    }

    /// The line of the last run that starts at or before `offset`.
    pub open spec fn line_at(self, offset: int) -> i32 {
        line_of_runs(self.lines, offset)
    }
}

/// `later` is `earlier` with more code and more constants behind what was
/// there.
pub open spec fn extends(earlier: ChunkView, later: ChunkView) -> bool {
    &&& earlier.code.len() <= later.code.len()
    &&& earlier.constants.len() <= later.constants.len()
    &&& forall|i: int| 0 <= i < earlier.code.len() ==> #[trigger] later.code[i] == earlier.code[i]
    &&& forall|i: int| 0 <= i < earlier.constants.len() ==> #[trigger] later.constants[i] == earlier.constants[i]
}

/// What extends an extension extends the chunk that it started from.
pub proof fn lemma_extends_chain(first: ChunkView, second: ChunkView, third: ChunkView)
    requires
        extends(first, second),
        extends(second, third),
    ensures
        extends(first, third),
{
    assert forall|i: int| 0 <= i < first.code.len() implies #[trigger] third.code[i] == first.code[i] by {
        assert(second.code[i] == first.code[i]);
    }
    assert forall|i: int| 0 <= i < first.constants.len() implies #[trigger] third.constants[i]
        == first.constants[i] by {
        assert(second.constants[i] == first.constants[i]);
    }
}

/// The line of the last of `runs` that starts at or before `offset`; 0 where
/// there is none.
pub open spec fn line_of_runs(runs: Seq<LineStart>, offset: int) -> i32
    decreases runs.len(),
{
    if runs.len() == 0 {
        0
    } else if runs.last().offset <= offset {
        runs.last().line
    } else {
        line_of_runs(runs.drop_last(), offset)
    }
}

/// The chunk that a sequence of writes builds, starting from nothing.
pub open spec fn written(writes: Seq<(OpCode, i32)>) -> ChunkView
    decreases writes.len(),
{
    if writes.len() == 0 {
        ChunkView::empty()
    } else {
        written(writes.drop_last()).write(writes.last().0, writes.last().1)
    }
}

/// How many writes, but for the first, name another line than the write
/// before them.
pub open spec fn line_changes(writes: Seq<(OpCode, i32)>) -> nat
    decreases writes.len(),
{
    if writes.len() <= 1 {
        0
    } else {
        let before = line_changes(writes.drop_last());
        if writes.last().1 != writes[writes.len() - 2].1 {
            before + 1
        } else {
            before
        }
    }
}

/// A compiled unit: instruction bytes, the run-length encoded map from byte
/// offsets to source lines, and the pool of constants.
#[derive(Clone, Debug, PartialEq)]
pub struct Chunk {
    pub code: Vec<u8>,
    pub lines: Vec<LineStart>,
    pub constants: Vec<Value>,
}

impl View for Chunk {
    type V = ChunkView;

    open spec fn view(&self) -> ChunkView {
        ChunkView { code: self.code@, lines: self.lines@, constants: self.constants@ }
    }
}

/// `Vec::capacity`: how many elements the vector holds without growing. The
/// number is the allocator's; the contract claims only that it is never
/// below the number of elements that the vector holds now.
#[verifier::external_body]
fn capacity_of<T>(items: &Vec<T>) -> (capacity: usize)
    ensures
        capacity >= items@.len(),
{
    items.capacity()
}

impl Chunk {
    pub open spec fn wf(&self) -> bool {
        self@.wf()
    }

    /// A chunk without code, lines and constants.
    pub fn new() -> (chunk: Chunk)
        ensures
            chunk@ == ChunkView::empty(),
            chunk.wf(),
    {
        Chunk { code: Vec::with_capacity(0), lines: Vec::with_capacity(0), constants: Vec::with_capacity(0) }
    }

    /// The number of instruction bytes.
    pub fn count(&self) -> (count: usize)
        ensures
            count == self@.code.len(),
    {
        self.code.len()
    }

    /// How many instruction bytes fit before the code has to grow.
    pub fn capacity(&self) -> (capacity: usize)
        ensures
            capacity >= self@.code.len(),
    {
        capacity_of(&self.code)
    }

    /// The number of runs in the line map.
    pub fn line_count(&self) -> (count: usize)
        ensures
            count == self@.lines.len(),
    {
        self.lines.len()
    }

    /// How many runs fit before the line map has to grow.
    pub fn line_capacity(&self) -> (capacity: usize)
        ensures
            capacity >= self@.lines.len(),
    {
        capacity_of(&self.lines)
    }

    /// Appends the byte of `opcode`, recorded as coming from source line `line`.
    pub fn write(&mut self, opcode: OpCode, line: i32)
        ensures
            final(self)@ == old(self)@.write(opcode, line),
            old(self).wf() ==> final(self).wf(),
    {
        let offset = self.code.len();
        self.code.push(u8::from(opcode));
        let line_count = self.lines.len();
        if line_count == 0 || self.lines[line_count - 1].line != line {
            self.lines.push(LineStart { offset, line });
        }
        proof {
            if old(self).wf() {
                lemma_write_wf(old(self)@, opcode, line);
            }
        }
    }

    /// Appends `value` to the pool and returns its index. Equal values are
    /// not shared: each call takes a new slot.
    pub fn add_constant(&mut self, value: Value) -> (index: usize)
        ensures
            final(self)@ == old(self)@.add_constant(value),
            index == old(self)@.constants.len(),
            old(self).wf() ==> final(self).wf(),
    {
        self.constants.push(value);
        self.constants.len() - 1
    }

    /// The source line of the instruction byte at offset `instruction`, found
    /// by bisecting the line map.
    pub fn get_line(&self, instruction: usize) -> (line: i32)
        requires
            self.wf(),
            self@.lines.len() > 0,
        ensures
            line == self@.line_at(instruction as int),
    {
        let mut start: usize = 0;
        let mut end: usize = self.lines.len() - 1;
        while start < end
            invariant
                start <= end < self.lines@.len(),
                self.lines@[start as int].offset <= instruction,
                end + 1 < self.lines@.len() ==> instruction < self.lines@[end + 1].offset,
            decreases end - start,
        {
            let mid = end - (end - start) / 2;
            if instruction < self.lines[mid].offset {
                end = mid - 1;
            } else {
                start = mid;
            }
        }
        proof {
            lemma_line_in_run(self@, start as int, instruction as int);
        }
        self.lines[start].line
    }
}

/// Writing keeps a chunk well formed.
pub proof fn lemma_write_wf(chunk: ChunkView, opcode: OpCode, line: i32)
    requires
        chunk.wf(),
        chunk.code.len() <= usize::MAX,
    ensures
        chunk.write(opcode, line).wf(),
{
    let after = chunk.write(opcode, line);
    if after.lines.len() > chunk.lines.len() {
        assert forall|i: int, j: int| 0 <= i < j < after.lines.len() implies (#[trigger] after.lines[i]).offset < (
        #[trigger] after.lines[j]).offset by {
            if j < chunk.lines.len() {
                assert(chunk.lines[i].offset < chunk.lines[j].offset);
            } else {
                assert(chunk.lines[i].offset < chunk.code.len());
            }
        }
        assert forall|i: int, j: int| 0 <= i && j == i + 1 && j < after.lines.len() implies (
        #[trigger] after.lines[i]).line != (#[trigger] after.lines[j]).line by {
            if j < chunk.lines.len() {
                assert(chunk.lines[i].line != chunk.lines[j].line);
            }
        }
    }
}

/// Every offset inside a run has the run's line: where run `run` starts at or
/// before `offset` and the next run, if there is one, starts after it.
pub proof fn lemma_line_in_run(chunk: ChunkView, run: int, offset: int)
    requires
        chunk.wf(),
        0 <= run < chunk.lines.len(),
        chunk.lines[run].offset <= offset,
        run + 1 < chunk.lines.len() ==> offset < chunk.lines[run + 1].offset,
    ensures
        chunk.line_at(offset) == chunk.lines[run].line,
{
    lemma_runs_lookup(chunk.lines, run, offset);
}

proof fn lemma_runs_lookup(runs: Seq<LineStart>, run: int, offset: int)
    requires
        forall|i: int, j: int| 0 <= i < j < runs.len() ==> (#[trigger] runs[i]).offset < (#[trigger] runs[j]).offset,
        0 <= run < runs.len(),
        runs[run].offset <= offset,
        run + 1 < runs.len() ==> offset < runs[run + 1].offset,
    ensures
        line_of_runs(runs, offset) == runs[run].line,
    decreases runs.len(),
{
    if run + 1 < runs.len() {
        assert(runs[run + 1].offset <= runs.last().offset) by {
            if run + 1 < runs.len() - 1 {
                assert(runs[run + 1].offset < runs[runs.len() - 1].offset);
            }
        }
        lemma_runs_lookup(runs.drop_last(), run, offset);
    }
}

/// What one write does to the lines: the new byte has the line it was written
/// with, and every earlier byte keeps its line.
pub proof fn lemma_write_line(chunk: ChunkView, opcode: OpCode, line: i32, offset: int)
    requires
        chunk.wf(),
        chunk.code.len() <= usize::MAX,
        0 <= offset <= chunk.code.len(),
    ensures
        offset == chunk.code.len() ==> chunk.write(opcode, line).line_at(offset) == line,
        offset < chunk.code.len() ==> chunk.write(opcode, line).line_at(offset) == chunk.line_at(offset),
{
    let after = chunk.write(opcode, line);
    if after.lines.len() > chunk.lines.len() {
        assert(after.lines.drop_last() =~= chunk.lines);
    } else if offset == chunk.code.len() {
        assert(chunk.lines.last().offset < chunk.code.len());
    }
}

/// After any sequence of writes into a new chunk, the byte at offset `k` is
/// the one that write `k` gave, and its line is the line that write `k` named.
pub proof fn lemma_written_lines(writes: Seq<(OpCode, i32)>, k: int)
    requires
        writes.len() <= usize::MAX,
        0 <= k < writes.len(),
    ensures
        written(writes).wf(),
        written(writes).code.len() == writes.len(),
        written(writes).code[k] == writes[k].0.byte(),
        written(writes).line_at(k) == writes[k].1,
    decreases writes.len(),
{
    let before = writes.drop_last();
    lemma_written_shape(before);
    lemma_write_wf(written(before), writes.last().0, writes.last().1);
    lemma_write_line(written(before), writes.last().0, writes.last().1, k);
    if k < before.len() {
        lemma_written_lines(before, k);
    }
}

/// Writes into a new chunk keep it well formed, give one byte each, and leave
/// the constant pool empty.
pub proof fn lemma_written_shape(writes: Seq<(OpCode, i32)>)
    requires
        writes.len() <= usize::MAX,
    ensures
        written(writes).wf(),
        written(writes).code.len() == writes.len(),
        written(writes).constants.len() == 0,
    decreases writes.len(),
{
    if writes.len() > 0 {
        lemma_written_shape(writes.drop_last());
        lemma_write_wf(written(writes.drop_last()), writes.last().0, writes.last().1);
    }
}

/// The line map holds one run for the first write and one more for each
/// change of line, however many writes share a line.
pub proof fn lemma_written_runs(writes: Seq<(OpCode, i32)>)
    requires
        writes.len() <= usize::MAX,
    ensures
        writes.len() == 0 ==> written(writes).lines.len() == 0,
        writes.len() > 0 ==> written(writes).lines.len() == 1 + line_changes(writes),
        writes.len() > 0 ==> written(writes).lines.last().line == writes.last().1,
    decreases writes.len(),
{
    if writes.len() > 0 {
        let before = writes.drop_last();
        lemma_written_runs(before);
        if before.len() > 0 {
            assert(before.last() == writes[writes.len() - 2]);
        }
    }
}

/// Any number of writes that all name one line leave exactly one run.
pub proof fn lemma_one_line_one_run(writes: Seq<(OpCode, i32)>, line: i32)
    requires
        0 < writes.len() <= usize::MAX,
        forall|k: int| 0 <= k < writes.len() ==> (#[trigger] writes[k]).1 == line,
    ensures
        written(writes).lines.len() == 1,
        written(writes).lines[0] == (LineStart { offset: 0, line }),
    decreases writes.len(),
{
    let before = writes.drop_last();
    assert(writes.last().1 == line);
    if writes.len() > 1 {
        assert forall|k: int| 0 <= k < before.len() implies (#[trigger] before[k]).1 == line by {
            assert(before[k] == writes[k]);
        }
        lemma_one_line_one_run(before, line);
    } else {
        assert(written(before) == ChunkView::empty());
    }
}

/// The pool shares nothing: adding one value twice gives two different
/// indices, and the value stands at both.
pub proof fn lemma_add_constant_twice(chunk: ChunkView, value: Value)
    ensures
        ({
            let once = chunk.add_constant(value);
            let twice = once.add_constant(value);
            &&& chunk.constants.len() != once.constants.len()
            &&& twice.constants[chunk.constants.len() as int] == value
            &&& twice.constants[once.constants.len() as int] == value
            &&& twice.constants.len() == chunk.constants.len() + 2
        }),
{
}

} // verus!
