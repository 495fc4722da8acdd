use crate::error::{KaitaiError, KaitaiErrorV};
use vstd::prelude::*;

verus! {

/// How a terminator-delimited read treats the terminator byte.
#[derive(Copy, Clone, PartialEq, Eq, Structural, Debug)]
pub enum TerminatorFlags {
    /// Keep the terminator in the returned bytes.
    Include,
    /// Leave the cursor after the terminator instead of on it.
    Consume,
}

/// 256 to the power of `n`: the number of values of an `n`-byte run.
pub open spec fn pow256(n: nat) -> nat
    decreases n,
{
    if n == 0 {
        1
    } else {
        256 * pow256((n - 1) as nat)
    }
}

/// The value of a byte run read in little-endian order: the first byte is
/// the least significant.
pub open spec fn spec_le_value(bytes: Seq<u8>) -> nat
    decreases bytes.len(),
{
    if bytes.len() == 0 {
        0
    } else {
        (bytes.first() + 256 * spec_le_value(bytes.drop_first())) as nat
    }
}

/// The value of a byte run read in big-endian order: the first byte is the
/// most significant.
pub open spec fn spec_be_value(bytes: Seq<u8>) -> nat
    decreases bytes.len(),
{
    if bytes.len() == 0 {
        0
    } else {
        (spec_be_value(bytes.drop_last()) * 256 + bytes.last()) as nat
    }
}

pub proof fn lemma_pow256_increases(a: nat, b: nat)
    requires
        a <= b,
    ensures
        pow256(a) <= pow256(b),
    decreases b,
{
    if a < b {
        lemma_pow256_increases(a, (b - 1) as nat);
    }
}


pub proof fn lemma_pow256_values()
    ensures
        pow256(1) == 0x100,
        pow256(2) == 0x1_0000,
        pow256(4) == 0x1_0000_0000,
        pow256(8) == 0x1_0000_0000_0000_0000,
{
    reveal_with_fuel(pow256, 9);
}

pub proof fn lemma_le_value_bound(bytes: Seq<u8>)
    ensures
        spec_le_value(bytes) < pow256(bytes.len()),
    decreases bytes.len(),
{
    if bytes.len() > 0 {
        lemma_le_value_bound(bytes.drop_first());
    }
}

pub proof fn lemma_be_value_bound(bytes: Seq<u8>)
    ensures
        spec_be_value(bytes) < pow256(bytes.len()),
    decreases bytes.len(),
{
    if bytes.len() > 0 {
        lemma_be_value_bound(bytes.drop_last());
    }
}


/// Whether a flag is among the given flags.
fn has_flag(flags: &[TerminatorFlags], flag: TerminatorFlags) -> (r: bool)
    ensures
        r == flags@.contains(flag),
{
    let mut i: usize = 0;
    #[verifier::loop_isolation(false)]
    while i < flags.len()
        invariant
            i <= flags@.len(),
            forall|j: int| 0 <= j < i ==> flags@[j] != flag,
        decreases flags@.len() - i,
    {
        if flags[i] == flag {
            return true;
        }
        i = i + 1;
    }
    false
}

/// Whether two byte vectors hold the same bytes.
fn vec_u8_eq(a: &Vec<u8>, b: &Vec<u8>) -> (r: bool)
    ensures
        r == (a@ == b@),
{
    if a.len() != b.len() {
        proof {
            assert(a@.len() != b@.len());
        }
        return false;
    }
    let mut i: usize = 0;
    #[verifier::loop_isolation(false)]
    while i < a.len()
        invariant
            i <= a@.len(),
            a@.len() == b@.len(),
            forall|j: int| 0 <= j < i ==> a@[j] == b@[j],
        decreases a@.len() - i,
    {
        if a[i] != b[i] {
            return false;
        }
        i = i + 1;
    }
    proof {
        assert(a@ =~= b@);
    }
    true
}

/// A sequential cursor over an in-memory byte stream.  Every read advances
/// the cursor by exactly the bytes it consumed; a read past the end of the
/// stream fails without moving the cursor.
pub struct KaitaiStream {
    /// The bytes of the stream.
    pub data: Vec<u8>,
    /// The cursor: an index into `data`.
    pub pos: usize,
}

impl KaitaiStream {
    /// A stream over the given bytes, with the cursor at the start.
    pub fn new(data: Vec<u8>) -> (r: Self)
        ensures
            r.data@ == data@,
            r.pos == 0,
    {
        KaitaiStream { data, pos: 0 }
    }

    /// The current cursor position.
    pub fn pos(&self) -> (r: usize)
        ensures
            r == self.pos,
    {
        self.pos
    }

    /// The total length of the stream.
    pub fn size(&self) -> (r: usize)
        ensures
            r == self.data@.len(),
    {
        self.data.len()
    }

    /// Moves the cursor to an absolute position.
    pub fn seek_to(&mut self, pos: usize)
        ensures
            final(self).data@ == old(self).data@,
            final(self).pos == pos,
    {
        self.pos = pos;
    }

    /// Whether the cursor is at or past the end of the stream.
    pub fn is_eof(&self) -> (r: bool)
        ensures
            r == (self.pos >= self.data@.len()),
    {
        self.pos >= self.data.len()
    }

    /// Reads one byte.
    fn read_byte(&mut self) -> (r: Result<u8, KaitaiError>)
        ensures
            final(self).data@ == old(self).data@,
            match r {
                Ok(b) => old(self).pos < old(self).data@.len() && b == old(self).data@[old(
                    self,
                ).pos as int] && final(self).pos == old(self).pos + 1,
                Err(e) => old(self).pos >= old(self).data@.len() && e@ == KaitaiErrorV::Eof
                    && final(self).pos == old(self).pos,
            },
    {
        if self.pos < self.data.len() {
            let b = self.data[self.pos];
            self.pos = self.pos + 1;
            Ok(b)
        } else {
            Err(KaitaiError::Eof)
        }
    }

    /// Reads `count` bytes in little-endian order into one value.
    fn read_le(&mut self, count: usize) -> (r: Result<u64, KaitaiError>)
        requires
            count <= 8,
        ensures
            final(self).data@ == old(self).data@,
            match r {
                Ok(v) => old(self).pos + count <= old(self).data@.len() && final(self).pos == old(
                    self,
                ).pos + count && v as nat == spec_le_value(
                    old(self).data@.subrange(old(self).pos as int, old(self).pos + count),
                ),
                Err(e) => old(self).pos + count > old(self).data@.len() && e@ == KaitaiErrorV::Eof
                    && final(self).pos == old(self).pos,
            },
    {
        if self.pos > self.data.len() || count > self.data.len() - self.pos {
            return Err(KaitaiError::Eof);
        }
        let base = self.pos;
        let mut value: u64 = 0;
        let mut k: usize = 0;
        proof {
            assert(old(self).data@.subrange(base + count, base + count).len() == 0);
            lemma_pow256_increases(0, count as nat);
        }
        #[verifier::loop_isolation(false)]
        while k < count
            invariant
                k <= count,
                value as nat == spec_le_value(
                    self.data@.subrange(base + count - k, base + count),
                ),
                value < pow256(k as nat),
            decreases count - k,
        {
            let b = self.data[base + count - 1 - k];
            proof {
                let lo = base + count - k - 1;
                let hi = base + count;
                assert(self.data@.subrange(lo, hi).drop_first() =~= self.data@.subrange(
                    lo + 1,
                    hi,
                ));
                assert(self.data@.subrange(lo, hi).first() == self.data@[lo]);
                assert(pow256((k + 1) as nat) == 256 * pow256(k as nat));
                lemma_pow256_increases((k + 1) as nat, 8);
                assert(pow256(8) == 0x1_0000_0000_0000_0000) by {
                    reveal_with_fuel(pow256, 9);
                }
            }
            value = value * 256 + (b as u64);
            k = k + 1;
        }
        self.pos = base + count;
        proof {
            assert(self.data@.subrange(base as int, base + count) =~= old(self).data@.subrange(
                old(self).pos as int,
                old(self).pos + count,
            ));
        }
        Ok(value)
    }

    /// Reads `count` bytes in big-endian order into one value.
    fn read_be(&mut self, count: usize) -> (r: Result<u64, KaitaiError>)
        requires
            count <= 8,
        ensures
            final(self).data@ == old(self).data@,
            match r {
                Ok(v) => old(self).pos + count <= old(self).data@.len() && final(self).pos == old(
                    self,
                ).pos + count && v as nat == spec_be_value(
                    old(self).data@.subrange(old(self).pos as int, old(self).pos + count),
                ),
                Err(e) => old(self).pos + count > old(self).data@.len() && e@ == KaitaiErrorV::Eof
                    && final(self).pos == old(self).pos,
            },
    {
        if self.pos > self.data.len() || count > self.data.len() - self.pos {
            return Err(KaitaiError::Eof);
        }
        let base = self.pos;
        let mut value: u64 = 0;
        let mut k: usize = 0;
        proof {
            assert(old(self).data@.subrange(base as int, base as int).len() == 0);
            lemma_pow256_increases(0, count as nat);
        }
        #[verifier::loop_isolation(false)]
        while k < count
            invariant
                k <= count,
                value as nat == spec_be_value(self.data@.subrange(base as int, base + k)),
                value < pow256(k as nat),
            decreases count - k,
        {
            let b = self.data[base + k];
            proof {
                assert(self.data@.subrange(base as int, base + k + 1).drop_last()
                    =~= self.data@.subrange(base as int, base + k));
                assert(self.data@.subrange(base as int, base + k + 1).last() == self.data@[base
                    + k]);
                assert(pow256((k + 1) as nat) == 256 * pow256(k as nat));
                lemma_pow256_increases((k + 1) as nat, 8);
                assert(pow256(8) == 0x1_0000_0000_0000_0000) by {
                    reveal_with_fuel(pow256, 9);
                }
            }
            value = value * 256 + (b as u64);
            k = k + 1;
        }
        self.pos = base + count;
        proof {
            assert(self.data@.subrange(base as int, base + count) =~= old(self).data@.subrange(
                old(self).pos as int,
                old(self).pos + count,
            ));
        }
        Ok(value)
    }

    /// Reads exactly `count` bytes.
    pub fn read_bytes(&mut self, count: usize) -> (r: Result<Vec<u8>, KaitaiError>)
        ensures
            final(self).data@ == old(self).data@,
            match r {
                Ok(v) => old(self).pos + count <= old(self).data@.len() && final(self).pos == old(
                    self,
                ).pos + count && v@ == old(self).data@.subrange(
                    old(self).pos as int,
                    old(self).pos + count,
                ),
                Err(e) => old(self).pos + count > old(self).data@.len() && e@ == KaitaiErrorV::Eof
                    && final(self).pos == old(self).pos,
            },
    {
        if self.pos > self.data.len() || count > self.data.len() - self.pos {
            return Err(KaitaiError::Eof);
        }
        let base = self.pos;
        let mut buffer: Vec<u8> = Vec::new();
        let mut k: usize = 0;
        #[verifier::loop_isolation(false)]
        while k < count
            invariant
                k <= count,
                buffer@ =~= self.data@.subrange(base as int, base + k),
            decreases count - k,
        {
            buffer.push(self.data[base + k]);
            proof {
                assert(buffer@ =~= self.data@.subrange(base as int, base + k + 1));
            }
            k = k + 1;
        }
        self.pos = base + count;
        Ok(buffer)
    }

    /// Reads the remaining bytes of the stream.
    pub fn read_bytes_full(&mut self) -> (r: Vec<u8>)
        ensures
            final(self).data@ == old(self).data@,
            old(self).pos <= old(self).data@.len() ==> r@ == old(self).data@.subrange(
                old(self).pos as int,
                old(self).data@.len() as int,
            ) && final(self).pos == old(self).data@.len(),
            old(self).pos > old(self).data@.len() ==> r@ == Seq::<u8>::empty() && final(self).pos
                == old(self).pos,
    {
        if self.pos > self.data.len() {
            return Vec::new();
        }
        let count = self.data.len() - self.pos;
        match self.read_bytes(count) {
            Ok(v) => v,
            Err(_) => Vec::new(),
        }
    }

    /// The position of the first terminator byte at or after `from`, if any:
    /// a byte whose code point is the terminator character.
    pub open spec fn spec_first_term(data: Seq<u8>, from: int, term: char) -> Option<int>
        decreases data.len() - from,
    {
        if from < 0 || from >= data.len() {
            None
        } else if data[from] as char == term {
            Some(from)
        } else {
            Self::spec_first_term(data, from + 1, term)
        }
    }

    /// Reads bytes up to a terminator character.
    ///
    /// With `Include` among the flags the terminator is part of the returned
    /// bytes and the cursor stands after it.  Otherwise, with `Consume` the
    /// cursor stands after the terminator, and without it on the terminator.
    /// Where the stream ends first, every remaining byte has been consumed
    /// and the read fails.
    pub fn read_bytes_term(&mut self, term: char, flags: &[TerminatorFlags]) -> (r: Result<
        Vec<u8>,
        KaitaiError,
    >)
        ensures
            final(self).data@ == old(self).data@,
            match r {
                Ok(v) => Self::spec_first_term(old(self).data@, old(self).pos as int, term)
                    matches Some(j) && v@ == old(self).data@.subrange(old(self).pos as int, j) + (
                if flags@.contains(TerminatorFlags::Include) {
                    seq![old(self).data@[j]]
                } else {
                    Seq::<u8>::empty()
                }) && final(self).pos == (if flags@.contains(TerminatorFlags::Include)
                    || flags@.contains(TerminatorFlags::Consume) {
                    j + 1
                } else {
                    j
                }),
                Err(e) => Self::spec_first_term(old(self).data@, old(self).pos as int, term)
                    is None && e@ == KaitaiErrorV::EofBeforeTerminator(term) && final(self).pos == (
                if old(self).pos > old(self).data@.len() {
                    old(self).pos as int
                } else {
                    old(self).data@.len() as int
                }),
            },
    {
        if self.pos > self.data.len() {
            return Err(KaitaiError::EofBeforeTerminator(term));
        }
        let keep_term = has_flag(flags, TerminatorFlags::Include);
        let consume = has_flag(flags, TerminatorFlags::Consume);
        let ghost base = self.pos as int;
        let mut buffer: Vec<u8> = Vec::new();
        #[verifier::loop_isolation(false)]
        while self.pos < self.data.len()
            invariant
                self.data@ == old(self).data@,
                base <= self.pos,
                self.pos <= self.data@.len(),
                Self::spec_first_term(self.data@, base, term) == Self::spec_first_term(
                    self.data@,
                    self.pos as int,
                    term,
                ),
                buffer@ =~= self.data@.subrange(base, self.pos as int),
            decreases self.data@.len() - self.pos,
        {
            let b = self.data[self.pos];
            if b as char == term {
                let ghost j = self.pos as int;
                self.pos = self.pos + 1;
                if keep_term {
                    buffer.push(b);
                } else if !consume {
                    self.pos = self.pos - 1;
                }
                proof {
                    assert(Self::spec_first_term(self.data@, j, term) == Some(j));
                }
                return Ok(buffer);
            }
            buffer.push(b);
            self.pos = self.pos + 1;
            proof {
                assert(buffer@ =~= self.data@.subrange(base, self.pos as int));
            }
        }
        Err(KaitaiError::EofBeforeTerminator(term))
    }

    /// Reads exactly the length of the expected bytes and checks them for
    /// equality: a mismatch is an error carrying both byte runs, and the
    /// cursor stands after the consumed run either way.
    pub fn ensure_fixed_contents(&mut self, expected: Vec<u8>) -> (r: Result<(), KaitaiError>)
        ensures
            final(self).data@ == old(self).data@,
            match r {
                Ok(_) => old(self).pos + expected@.len() <= old(self).data@.len() && final(self).pos == old(self).pos + expected@.len() && old(self).data@.subrange(
                    old(self).pos as int,
                    old(self).pos + expected@.len(),
                ) == expected@,
                Err(e) => match e {
                    KaitaiError::Eof => old(self).pos + expected@.len() > old(
                        self,
                    ).data@.len() && final(self).pos == old(self).pos,
                    KaitaiError::UnexpectedContents { actual, expected: exp } => old(self).pos
                        + expected@.len() <= old(self).data@.len() && actual@ == old(
                        self,
                    ).data@.subrange(old(self).pos as int, old(self).pos + expected@.len())
                        && exp@ == expected@ && actual@ != expected@ && final(self).pos == old(
                        self,
                    ).pos + expected@.len(),
                    _ => false,
                },
            },
    {
        let actual = match self.read_bytes(expected.len()) {
            Ok(v) => v,
            Err(e) => {
                return Err(e);
            },
        };
        if vec_u8_eq(&actual, &expected) {
            Ok(())
        } else {
            Err(KaitaiError::UnexpectedContents { actual, expected })
        }
    }

    /// Reads an unsigned 8-bit value.
    pub fn read_u1(&mut self) -> (r: Result<u8, KaitaiError>)
        ensures
            final(self).data@ == old(self).data@,
            match r {
                Ok(b) => old(self).pos < old(self).data@.len() && b == old(self).data@[old(
                    self,
                ).pos as int] && final(self).pos == old(self).pos + 1,
                Err(e) => old(self).pos >= old(self).data@.len() && e@ == KaitaiErrorV::Eof
                    && final(self).pos == old(self).pos,
            },
    {
        self.read_byte()
    }

    /// Reads a signed 8-bit value.
    pub fn read_s1(&mut self) -> (r: Result<i8, KaitaiError>)
        ensures
            final(self).data@ == old(self).data@,
            match r {
                Ok(b) => old(self).pos < old(self).data@.len() && b == old(self).data@[old(
                    self,
                ).pos as int] as i8 && final(self).pos == old(self).pos + 1,
                Err(e) => old(self).pos >= old(self).data@.len() && e@ == KaitaiErrorV::Eof
                    && final(self).pos == old(self).pos,
            },
    {
        match self.read_byte() {
            Ok(b) => Ok(b as i8),
            Err(e) => Err(e),
        }
    }

    /// Reads a little-endian unsigned 16-bit value.
    pub fn read_u2le(&mut self) -> (r: Result<u16, KaitaiError>)
        ensures
            final(self).data@ == old(self).data@,
            match r {
                Ok(v) => old(self).pos + 2 <= old(self).data@.len() && final(self).pos == old(
                    self,
                ).pos + 2 && v as nat == spec_le_value(
                    old(self).data@.subrange(old(self).pos as int, old(self).pos + 2),
                ),
                Err(e) => old(self).pos + 2 > old(self).data@.len() && e@ == KaitaiErrorV::Eof
                    && final(self).pos == old(self).pos,
            },
    {
        match self.read_le(2) {
            Ok(v) => {
                proof {
                    lemma_le_value_bound(
                        old(self).data@.subrange(old(self).pos as int, old(self).pos + 2),
                    );
                    lemma_pow256_values();
                }
                Ok(v as u16)
            },
            Err(e) => Err(e),
        }
    }

    /// Reads a big-endian unsigned 16-bit value.
    pub fn read_u2be(&mut self) -> (r: Result<u16, KaitaiError>)
        ensures
            final(self).data@ == old(self).data@,
            match r {
                Ok(v) => old(self).pos + 2 <= old(self).data@.len() && final(self).pos == old(
                    self,
                ).pos + 2 && v as nat == spec_be_value(
                    old(self).data@.subrange(old(self).pos as int, old(self).pos + 2),
                ),
                Err(e) => old(self).pos + 2 > old(self).data@.len() && e@ == KaitaiErrorV::Eof
                    && final(self).pos == old(self).pos,
            },
    {
        match self.read_be(2) {
            Ok(v) => {
                proof {
                    lemma_be_value_bound(
                        old(self).data@.subrange(old(self).pos as int, old(self).pos + 2),
                    );
                    lemma_pow256_values();
                }
                Ok(v as u16)
            },
            Err(e) => Err(e),
        }
    }

    /// Reads a little-endian unsigned 32-bit value.
    pub fn read_u4le(&mut self) -> (r: Result<u32, KaitaiError>)
        ensures
            final(self).data@ == old(self).data@,
            match r {
                Ok(v) => old(self).pos + 4 <= old(self).data@.len() && final(self).pos == old(
                    self,
                ).pos + 4 && v as nat == spec_le_value(
                    old(self).data@.subrange(old(self).pos as int, old(self).pos + 4),
                ),
                Err(e) => old(self).pos + 4 > old(self).data@.len() && e@ == KaitaiErrorV::Eof
                    && final(self).pos == old(self).pos,
            },
    {
        match self.read_le(4) {
            Ok(v) => {
                proof {
                    lemma_le_value_bound(
                        old(self).data@.subrange(old(self).pos as int, old(self).pos + 4),
                    );
                    lemma_pow256_values();
                }
                Ok(v as u32)
            },
            Err(e) => Err(e),
        }
    }

    /// Reads a big-endian unsigned 32-bit value.
    pub fn read_u4be(&mut self) -> (r: Result<u32, KaitaiError>)
        ensures
            final(self).data@ == old(self).data@,
            match r {
                Ok(v) => old(self).pos + 4 <= old(self).data@.len() && final(self).pos == old(
                    self,
                ).pos + 4 && v as nat == spec_be_value(
                    old(self).data@.subrange(old(self).pos as int, old(self).pos + 4),
                ),
                Err(e) => old(self).pos + 4 > old(self).data@.len() && e@ == KaitaiErrorV::Eof
                    && final(self).pos == old(self).pos,
            },
    {
        match self.read_be(4) {
            Ok(v) => {
                proof {
                    lemma_be_value_bound(
                        old(self).data@.subrange(old(self).pos as int, old(self).pos + 4),
                    );
                    lemma_pow256_values();
                }
                Ok(v as u32)
            },
            Err(e) => Err(e),
        }
    }

    /// Reads a little-endian unsigned 64-bit value.
    pub fn read_u8le(&mut self) -> (r: Result<u64, KaitaiError>)
        ensures
            final(self).data@ == old(self).data@,
            match r {
                Ok(v) => old(self).pos + 8 <= old(self).data@.len() && final(self).pos == old(
                    self,
                ).pos + 8 && v as nat == spec_le_value(
                    old(self).data@.subrange(old(self).pos as int, old(self).pos + 8),
                ),
                Err(e) => old(self).pos + 8 > old(self).data@.len() && e@ == KaitaiErrorV::Eof
                    && final(self).pos == old(self).pos,
            },
    {
        match self.read_le(8) {
            Ok(v) => {
                proof {
                    lemma_le_value_bound(
                        old(self).data@.subrange(old(self).pos as int, old(self).pos + 8),
                    );
                    lemma_pow256_values();
                }
                Ok(v as u64)
            },
            Err(e) => Err(e),
        }
    }

    /// Reads a big-endian unsigned 64-bit value.
    pub fn read_u8be(&mut self) -> (r: Result<u64, KaitaiError>)
        ensures
            final(self).data@ == old(self).data@,
            match r {
                Ok(v) => old(self).pos + 8 <= old(self).data@.len() && final(self).pos == old(
                    self,
                ).pos + 8 && v as nat == spec_be_value(
                    old(self).data@.subrange(old(self).pos as int, old(self).pos + 8),
                ),
                Err(e) => old(self).pos + 8 > old(self).data@.len() && e@ == KaitaiErrorV::Eof
                    && final(self).pos == old(self).pos,
            },
    {
        match self.read_be(8) {
            Ok(v) => {
                proof {
                    lemma_be_value_bound(
                        old(self).data@.subrange(old(self).pos as int, old(self).pos + 8),
                    );
                    lemma_pow256_values();
                }
                Ok(v as u64)
            },
            Err(e) => Err(e),
        }
    }

    /// Reads a little-endian signed 16-bit value, in
    /// two's complement.
    pub fn read_s2le(&mut self) -> (r: Result<i16, KaitaiError>)
        ensures
            final(self).data@ == old(self).data@,
            match r {
                Ok(v) => old(self).pos + 2 <= old(self).data@.len() && final(self).pos == old(
                    self,
                ).pos + 2 && v == spec_le_value(
                    old(self).data@.subrange(old(self).pos as int, old(self).pos + 2),
                ) as u16 as i16,
                Err(e) => old(self).pos + 2 > old(self).data@.len() && e@ == KaitaiErrorV::Eof
                    && final(self).pos == old(self).pos,
            },
    {
        match self.read_le(2) {
            Ok(v) => {
                proof {
                    lemma_le_value_bound(
                        old(self).data@.subrange(old(self).pos as int, old(self).pos + 2),
                    );
                    lemma_pow256_values();
                }
                Ok(v as u16 as i16)
            },
            Err(e) => Err(e),
        }
    }

    /// Reads a big-endian signed 16-bit value, in
    /// two's complement.
    pub fn read_s2be(&mut self) -> (r: Result<i16, KaitaiError>)
        ensures
            final(self).data@ == old(self).data@,
            match r {
                Ok(v) => old(self).pos + 2 <= old(self).data@.len() && final(self).pos == old(
                    self,
                ).pos + 2 && v == spec_be_value(
                    old(self).data@.subrange(old(self).pos as int, old(self).pos + 2),
                ) as u16 as i16,
                Err(e) => old(self).pos + 2 > old(self).data@.len() && e@ == KaitaiErrorV::Eof
                    && final(self).pos == old(self).pos,
            },
    {
        match self.read_be(2) {
            Ok(v) => {
                proof {
                    lemma_be_value_bound(
                        old(self).data@.subrange(old(self).pos as int, old(self).pos + 2),
                    );
                    lemma_pow256_values();
                }
                Ok(v as u16 as i16)
            },
            Err(e) => Err(e),
        }
    }

    /// Reads a little-endian signed 32-bit value, in
    /// two's complement.
    pub fn read_s4le(&mut self) -> (r: Result<i32, KaitaiError>)
        ensures
            final(self).data@ == old(self).data@,
            match r {
                Ok(v) => old(self).pos + 4 <= old(self).data@.len() && final(self).pos == old(
                    self,
                ).pos + 4 && v == spec_le_value(
                    old(self).data@.subrange(old(self).pos as int, old(self).pos + 4),
                ) as u32 as i32,
                Err(e) => old(self).pos + 4 > old(self).data@.len() && e@ == KaitaiErrorV::Eof
                    && final(self).pos == old(self).pos,
            },
    {
        match self.read_le(4) {
            Ok(v) => {
                proof {
                    lemma_le_value_bound(
                        old(self).data@.subrange(old(self).pos as int, old(self).pos + 4),
                    );
                    lemma_pow256_values();
                }
                Ok(v as u32 as i32)
            },
            Err(e) => Err(e),
        }
    }

    /// Reads a big-endian signed 32-bit value, in
    /// two's complement.
    pub fn read_s4be(&mut self) -> (r: Result<i32, KaitaiError>)
        ensures
            final(self).data@ == old(self).data@,
            match r {
                Ok(v) => old(self).pos + 4 <= old(self).data@.len() && final(self).pos == old(
                    self,
                ).pos + 4 && v == spec_be_value(
                    old(self).data@.subrange(old(self).pos as int, old(self).pos + 4),
                ) as u32 as i32,
                Err(e) => old(self).pos + 4 > old(self).data@.len() && e@ == KaitaiErrorV::Eof
                    && final(self).pos == old(self).pos,
            },
    {
        match self.read_be(4) {
            Ok(v) => {
                proof {
                    lemma_be_value_bound(
                        old(self).data@.subrange(old(self).pos as int, old(self).pos + 4),
                    );
                    lemma_pow256_values();
                }
                Ok(v as u32 as i32)
            },
            Err(e) => Err(e),
        }
    }

    /// Reads a little-endian signed 64-bit value, in
    /// two's complement.
    pub fn read_s8le(&mut self) -> (r: Result<i64, KaitaiError>)
        ensures
            final(self).data@ == old(self).data@,
            match r {
                Ok(v) => old(self).pos + 8 <= old(self).data@.len() && final(self).pos == old(
                    self,
                ).pos + 8 && v == spec_le_value(
                    old(self).data@.subrange(old(self).pos as int, old(self).pos + 8),
                ) as u64 as i64,
                Err(e) => old(self).pos + 8 > old(self).data@.len() && e@ == KaitaiErrorV::Eof
                    && final(self).pos == old(self).pos,
            },
    {
        match self.read_le(8) {
            Ok(v) => {
                proof {
                    lemma_le_value_bound(
                        old(self).data@.subrange(old(self).pos as int, old(self).pos + 8),
                    );
                    lemma_pow256_values();
                }
                Ok(v as u64 as i64)
            },
            Err(e) => Err(e),
        }
    }

    /// Reads a big-endian signed 64-bit value, in
    /// two's complement.
    pub fn read_s8be(&mut self) -> (r: Result<i64, KaitaiError>)
        ensures
            final(self).data@ == old(self).data@,
            match r {
                Ok(v) => old(self).pos + 8 <= old(self).data@.len() && final(self).pos == old(
                    self,
                ).pos + 8 && v == spec_be_value(
                    old(self).data@.subrange(old(self).pos as int, old(self).pos + 8),
                ) as u64 as i64,
                Err(e) => old(self).pos + 8 > old(self).data@.len() && e@ == KaitaiErrorV::Eof
                    && final(self).pos == old(self).pos,
            },
    {
        match self.read_be(8) {
            Ok(v) => {
                proof {
                    lemma_be_value_bound(
                        old(self).data@.subrange(old(self).pos as int, old(self).pos + 8),
                    );
                    lemma_pow256_values();
                }
                Ok(v as u64 as i64)
            },
            Err(e) => Err(e),
        }
    }

    /// Reads a little-endian 32-bit floating-point
    /// value, returned as its IEEE 754 bit pattern; turning the bits into a
    /// float is the caller's step.
    pub fn read_f4le(&mut self) -> (r: Result<u32, KaitaiError>)
        ensures
            final(self).data@ == old(self).data@,
            match r {
                Ok(v) => old(self).pos + 4 <= old(self).data@.len() && final(self).pos == old(
                    self,
                ).pos + 4 && v as nat == spec_le_value(
                    old(self).data@.subrange(old(self).pos as int, old(self).pos + 4),
                ),
                Err(e) => old(self).pos + 4 > old(self).data@.len() && e@ == KaitaiErrorV::Eof
                    && final(self).pos == old(self).pos,
            },
    {
        match self.read_le(4) {
            Ok(v) => {
                proof {
                    lemma_le_value_bound(
                        old(self).data@.subrange(old(self).pos as int, old(self).pos + 4),
                    );
                    lemma_pow256_values();
                }
                Ok(v as u32)
            },
            Err(e) => Err(e),
        }
    }

    /// Reads a big-endian 32-bit floating-point
    /// value, returned as its IEEE 754 bit pattern; turning the bits into a
    /// float is the caller's step.
    pub fn read_f4be(&mut self) -> (r: Result<u32, KaitaiError>)
        ensures
            final(self).data@ == old(self).data@,
            match r {
                Ok(v) => old(self).pos + 4 <= old(self).data@.len() && final(self).pos == old(
                    self,
                ).pos + 4 && v as nat == spec_be_value(
                    old(self).data@.subrange(old(self).pos as int, old(self).pos + 4),
                ),
                Err(e) => old(self).pos + 4 > old(self).data@.len() && e@ == KaitaiErrorV::Eof
                    && final(self).pos == old(self).pos,
            },
    {
        match self.read_be(4) {
            Ok(v) => {
                proof {
                    lemma_be_value_bound(
                        old(self).data@.subrange(old(self).pos as int, old(self).pos + 4),
                    );
                    lemma_pow256_values();
                }
                Ok(v as u32)
            },
            Err(e) => Err(e),
        }
    }

    /// Reads a little-endian 64-bit floating-point
    /// value, returned as its IEEE 754 bit pattern; turning the bits into a
    /// float is the caller's step.
    pub fn read_f8le(&mut self) -> (r: Result<u64, KaitaiError>)
        ensures
            final(self).data@ == old(self).data@,
            match r {
                Ok(v) => old(self).pos + 8 <= old(self).data@.len() && final(self).pos == old(
                    self,
                ).pos + 8 && v as nat == spec_le_value(
                    old(self).data@.subrange(old(self).pos as int, old(self).pos + 8),
                ),
                Err(e) => old(self).pos + 8 > old(self).data@.len() && e@ == KaitaiErrorV::Eof
                    && final(self).pos == old(self).pos,
            },
    {
        match self.read_le(8) {
            Ok(v) => {
                proof {
                    lemma_le_value_bound(
                        old(self).data@.subrange(old(self).pos as int, old(self).pos + 8),
                    );
                    lemma_pow256_values();
                }
                Ok(v as u64)
            },
            Err(e) => Err(e),
        }
    }

    /// Reads a big-endian 64-bit floating-point
    /// value, returned as its IEEE 754 bit pattern; turning the bits into a
    /// float is the caller's step.
    pub fn read_f8be(&mut self) -> (r: Result<u64, KaitaiError>)
        ensures
            final(self).data@ == old(self).data@,
            match r {
                Ok(v) => old(self).pos + 8 <= old(self).data@.len() && final(self).pos == old(
                    self,
                ).pos + 8 && v as nat == spec_be_value(
                    old(self).data@.subrange(old(self).pos as int, old(self).pos + 8),
                ),
                Err(e) => old(self).pos + 8 > old(self).data@.len() && e@ == KaitaiErrorV::Eof
                    && final(self).pos == old(self).pos,
            },
    {
        match self.read_be(8) {
            Ok(v) => {
                proof {
                    lemma_be_value_bound(
                        old(self).data@.subrange(old(self).pos as int, old(self).pos + 8),
                    );
                    lemma_pow256_values();
                }
                Ok(v as u64)
            },
            Err(e) => Err(e),
        }
    }
}

} // verus!

