use vstd::prelude::*;

use crate::value::Value;

verus! {

/// The most constants that a chunk can hold: an instruction names one with a single byte.
pub const MAX_CONSTANTS: usize = 256;

/// A run of consecutive instruction bytes that come from the same source line.
#[derive(Debug, Clone, Copy)]
pub struct LineRun {
    /// The source line.
    pub line: usize,
    /// The number of bytes in the run.
    pub count: usize,
}

/// The source line of every byte that the first `n` runs cover, in order.
pub open spec fn expand(runs: Seq<LineRun>, n: int) -> Seq<usize>
    decreases n,
{
    if n <= 0 || n > runs.len() {
        Seq::empty()
    } else {
        expand(runs, n - 1) + Seq::new(runs[n - 1].count as nat, |i: int| runs[n - 1].line)
    }
}

/// A chunk of bytecode: an instruction stream, the constants that it names, and the
/// source line of each of its bytes, held as runs.
#[derive(Debug)]
pub struct Chunk {
    instructions: Vec<u8>,
    constants: Vec<Value>,
    lines: Vec<LineRun>,
}

impl Chunk {
    /// The instruction stream.
    pub closed spec fn code(&self) -> Seq<u8> {
        self.instructions@
    }

    /// The constants pool.
    pub closed spec fn pool(&self) -> Seq<Value> {
        self.constants@
    }

    /// The source line of each byte of the instruction stream.
    pub closed spec fn line_numbers(&self) -> Seq<usize> {
        expand(self.lines@, self.lines@.len() as int)
    }

    /// The line table covers the instruction stream byte for byte, no run is empty, and
    /// the pool is within its bound.
    pub closed spec fn wf(&self) -> bool {
        &&& self.line_numbers().len() == self.instructions@.len()
        &&& self.constants@.len() <= MAX_CONSTANTS
        &&& forall|i: int| 0 <= i < self.lines@.len() ==> (#[trigger] self.lines@[i]).count > 0
    }

    /// What `wf` says of the public views.
    pub proof fn lemma_wf(&self)
        requires
            self.wf(),
        ensures
            self.line_numbers().len() == self.code().len(),
            self.pool().len() <= MAX_CONSTANTS,
    {
    }

    /// Create an empty chunk.
    pub fn new() -> (chunk: Self)
        ensures
            chunk.wf(),
            chunk.code() == Seq::<u8>::empty(),
            chunk.pool() == Seq::<Value>::empty(),
            chunk.line_numbers() == Seq::<usize>::empty(),
    {
        let chunk = Chunk { instructions: Vec::new(), constants: Vec::new(), lines: Vec::new() };
        assert(chunk.line_numbers() =~= Seq::<usize>::empty());
        chunk
    }

    /// Append a byte that comes from source line `line`.
    pub fn write(&mut self, byte: u8, line: usize)
        requires
            old(self).wf(),
        ensures
            final(self).wf(),
            final(self).code() == old(self).code().push(byte),
            final(self).line_numbers() == old(self).line_numbers().push(line),
            final(self).pool() == old(self).pool(),
    {
        self.instructions.push(byte);
        let total = self.instructions.len();
        let n = self.lines.len();
        let ghost before = self.lines@;
        if n > 0 && self.lines[n - 1].line == line {
            let run = self.lines[n - 1];
            proof {
                lemma_expand_len(before, n as int);
                assert(run.count < total);
            }
            let longer = LineRun { line, count: run.count + 1 };
            self.lines.set(n - 1, longer);
            proof {
                lemma_expand_prefix(before, self.lines@, n - 1);
                assert(Seq::new(longer.count as nat, |i: int| line) =~= Seq::new(
                    run.count as nat,
                    |i: int| line,
                ).push(line));
                assert(expand(self.lines@, n as int) =~= expand(before, n as int).push(line));
            }
        } else {
            self.lines.push(LineRun { line, count: 1 });
            proof {
                lemma_expand_prefix(before, self.lines@, n as int);
                assert(Seq::new(1, |i: int| line) =~= Seq::<usize>::empty().push(line));
                assert(expand(self.lines@, n + 1) =~= expand(before, n as int).push(line));
            }
        }
    }

    /// Append a constant to the pool and return its index, or `None` from a full pool,
    /// which is left as it is.
    pub fn add_constant(&mut self, value: Value) -> (index: Option<u8>)
        requires
            old(self).wf(),
        ensures
            final(self).wf(),
            final(self).code() == old(self).code(),
            final(self).line_numbers() == old(self).line_numbers(),
            old(self).pool().len() < MAX_CONSTANTS ==> index == Some(old(self).pool().len() as u8)
                && final(self).pool() == old(self).pool().push(value),
            old(self).pool().len() >= MAX_CONSTANTS ==> index.is_none() && final(self).pool()
                == old(self).pool(),
    {
        let n = self.constants.len();
        if n >= MAX_CONSTANTS {
            return None;
        }
        self.constants.push(value);
        Some(n as u8)
    }

    /// The number of bytes in the instruction stream.
    pub fn len(&self) -> (n: usize)
        ensures
            n == self.code().len(),
    {
        self.instructions.len()
    }

    /// The byte at `offset` of the instruction stream, if there is one.
    pub fn byte_at(&self, offset: usize) -> (byte: Option<u8>)
        ensures
            byte == (if offset < self.code().len() {
                Some(self.code()[offset as int])
            } else {
                None
            }),
    {
        if offset < self.instructions.len() {
            Some(self.instructions[offset])
        } else {
            None
        }
    }

    /// The number of constants in the pool.
    pub fn constant_count(&self) -> (n: usize)
        ensures
            n == self.pool().len(),
    {
        self.constants.len()
    }

    /// The constant at `index` of the pool, if there is one.
    pub fn constant_at(&self, index: usize) -> (value: Option<Value>)
        ensures
            value == (if index < self.pool().len() {
                Some(self.pool()[index as int])
            } else {
                None
            }),
    {
        if index < self.constants.len() {
            Some(self.constants[index])
        } else {
            None
        }
    }

    /// The source line of the byte at `offset`, if there is such a byte.
    pub fn get_line(&self, offset: usize) -> (line: Option<usize>)
        requires
            self.wf(),
        ensures
            line == (if offset < self.code().len() {
                Some(self.line_numbers()[offset as int])
            } else {
                None
            }),
    {
        let mut covered: usize = 0;
        let mut i: usize = 0;
        while i < self.lines.len()
            invariant
                i <= self.lines@.len(),
                covered == expand(self.lines@, i as int).len(),
                covered <= offset,
                self.wf(),
            decreases self.lines@.len() - i,
        {
            let run = self.lines[i];
            proof {
                lemma_expand_len(self.lines@, self.lines@.len() as int);
                lemma_expand_monotone(self.lines@, i + 1, self.lines@.len() as int);
            }
            if offset - covered < run.count {
                proof {
                    lemma_expand_monotone(self.lines@, i + 1, self.lines@.len() as int);
                    assert(expand(self.lines@, i + 1)[offset as int] == run.line);
                }
                return Some(run.line);
            }
            covered = covered + run.count;
            i += 1;
        }
        None
    }
}

/// The expansion of `n` runs has as many lines as the runs have bytes, so it grows with
/// `n`.
pub proof fn lemma_expand_len(runs: Seq<LineRun>, n: int)
    requires
        0 <= n <= runs.len(),
    ensures
        n > 0 ==> expand(runs, n).len() == expand(runs, n - 1).len() + runs[n - 1].count,
        n == 0 ==> expand(runs, n).len() == 0,
    decreases n,
{
}

/// The expansion of fewer runs is a prefix of the expansion of more.
pub proof fn lemma_expand_monotone(runs: Seq<LineRun>, m: int, n: int)
    requires
        0 <= m <= n <= runs.len(),
    ensures
        expand(runs, m).len() <= expand(runs, n).len(),
        forall|k: int| 0 <= k < expand(runs, m).len() ==> expand(runs, n)[k] == expand(runs, m)[k],
    decreases n - m,
{
    if m < n {
        lemma_expand_monotone(runs, m, n - 1);
    }
}

/// Two run tables that agree on their first `n` runs expand alike up to there.
pub proof fn lemma_expand_prefix(a: Seq<LineRun>, b: Seq<LineRun>, n: int)
    requires
        0 <= n <= a.len(),
        n <= b.len(),
        forall|i: int| 0 <= i < n ==> a[i] == b[i],
    ensures
        expand(a, n) == expand(b, n),
    decreases n,
{
    if n > 0 {
        lemma_expand_prefix(a, b, n - 1);
    }
}

} // verus!
