//! The GT20 compressed stream: a 16-byte envelope followed by an LZ-style
//! bitstream.

use vstd::prelude::*;

use super::bytes::{has_prefix, le_u16, le_u32, read_u16_le, read_u32_le, starts_with};
use super::HeaderError;

verus! {

/// Bytes taken by the envelope: the signature and three words.
pub const GT_HEADER_LEN: usize = 16;

/// "GT20"
pub open spec fn gt_magic() -> Seq<u8> {
    seq![0x47u8, 0x54, 0x32, 0x30]
}

pub struct GTHeader {
    pub gt_signature: [u8; 4],
    pub gt_uncompressed_size: u32,
    /// Overlap for in-place decompression.
    pub gt_overlap: u32,
    /// Number of bytes to skip to the compressed data.
    pub gt_skip: u32,
}

/// Whether the buffer begins with the GT20 signature.
pub fn parse_magic(input: &[u8]) -> (r: bool)
    ensures
        r == starts_with(input@, gt_magic()),
{
    let magic: [u8; 4] = [0x47, 0x54, 0x32, 0x30];
    assert(magic@ =~= gt_magic());
    has_prefix(input, magic.as_slice())
}

/// Reads the envelope at the start of a GT20 buffer.
pub fn parse_header(input: &[u8]) -> (r: Result<GTHeader, HeaderError>)
    ensures
        !starts_with(input@, gt_magic()) <==> r matches Err(HeaderError::BadSignature),
        starts_with(input@, gt_magic()) && input@.len() < GT_HEADER_LEN <==> r matches Err(
            HeaderError::Truncated,
        ),
        r matches Ok(h) ==> {
            &&& h.gt_signature@ == gt_magic()
            &&& h.gt_uncompressed_size as int == le_u32(input@, 4)
            &&& h.gt_overlap as int == le_u32(input@, 8)
            &&& h.gt_skip as int == le_u32(input@, 12)
        },
{
    if !parse_magic(input) {
        return Err(HeaderError::BadSignature);
    }
    if input.len() < GT_HEADER_LEN {
        return Err(HeaderError::Truncated);
    }
    let gt_signature: [u8; 4] = [0x47, 0x54, 0x32, 0x30];
    assert(gt_signature@ =~= gt_magic());
    Ok(
        GTHeader {
            gt_signature,
            gt_uncompressed_size: read_u32_le(input, 4),
            gt_overlap: read_u32_le(input, 8),
            gt_skip: read_u32_le(input, 12),
        },
    )
}

#[derive(Debug, PartialEq, Eq, Structural, Clone, Copy)]
pub enum DecompressionError {
    /// The buffer does not begin with the GT20 signature.
    IncorrectFileSignature,
    /// A read or a write would leave its buffer, or the stream ends before
    /// its terminator.
    CorruptFile,
}

/// Where a decompression stands: the next input byte, the control word and
/// how many of its bits are live (its lowest bit is the current one), the
/// output and the output cursor.
pub struct Decoder {
    pub pos: int,
    pub bits: u32,
    pub live: int,
    pub out: Seq<u8>,
    pub at: int,
}

/// The outcome of one instruction of the stream.
pub enum Step {
    Next(Decoder),
    Finished(Seq<u8>),
    Failed,
}

/// Moves to the next control bit; when the word is spent, the next four input
/// bytes become the control word.
pub open spec fn next_bit(input: Seq<u8>, d: Decoder) -> Option<Decoder> {
    if d.live > 1 {
        Some(Decoder { bits: (d.bits / 2) as u32, live: d.live - 1, ..d })
    } else if 0 <= d.pos && d.pos + 4 <= input.len() {
        Some(Decoder { pos: d.pos + 4, bits: le_u32(input, d.pos) as u32, live: 32, ..d })
    } else {
        None
    }
}

/// Copies `n` bytes of `out` one at a time, in forward order, from `from` to
/// `to`, so that an overlapping source repeats what was just written.
pub open spec fn copy_run(out: Seq<u8>, from: int, to: int, n: nat) -> Option<Seq<u8>>
    decreases n,
{
    if n == 0 {
        Some(out)
    } else if 0 <= from < out.len() && 0 <= to < out.len() {
        copy_run(out.update(to, out[from]), from + 1, to + 1, (n - 1) as nat)
    } else {
        None
    }
}

/// A back-reference of `n` bytes from `from` to the output cursor.
pub open spec fn copy_in(d: Decoder, from: int, n: nat) -> Option<Decoder> {
    match copy_run(d.out, from, d.at, n) {
        Some(o) => Some(Decoder { out: o, at: d.at + n, ..d }),
        None => None,
    }
}

/// Ends an instruction by moving to the next control bit.
pub open spec fn advance(input: Seq<u8>, d: Option<Decoder>) -> Step {
    match d {
        Some(d) => match next_bit(input, d) {
            Some(d2) => Step::Next(d2),
            None => Step::Failed,
        },
        None => Step::Failed,
    }
}

/// The source of a long match: thirteen bits of the code, as an offset below
/// the cursor within an 8192-byte window, in wrapping 32-bit arithmetic.
pub open spec fn long_source(at: int, code: int) -> int {
    (at + code / 8 + 0xffffe000) % 0x1_0000_0000
}

/// The source of a short match: the byte, less 256, from the cursor, in
/// wrapping 32-bit arithmetic.
pub open spec fn short_source(at: int, b: u8) -> int {
    (at + b + 0xffffff00) % 0x1_0000_0000
}

/// A long match, once its two control bits are read: a 16-bit code, and when
/// its low three bits are zero, a length byte (and perhaps a 16-bit length).
/// A length byte whose low seven bits are 1 ends the stream.
pub open spec fn long_match(input: Seq<u8>, d: Decoder) -> Step {
    if !(0 <= d.pos && d.pos + 2 <= input.len()) {
        Step::Failed
    } else {
        let code = le_u16(input, d.pos);
        let from = long_source(d.at, code);
        let d1 = Decoder { pos: d.pos + 2, ..d };
        if code % 8 != 0 {
            advance(input, copy_in(d1, from, (code % 8 + 2) as nat))
        } else if d1.pos >= input.len() {
            Step::Failed
        } else {
            let b = input[d1.pos];
            let from2 = if b >= 128 { from - 0x2000 } else { from };
            let d2 = Decoder { pos: d1.pos + 1, ..d1 };
            let n = b % 128;
            if n == 1 {
                Step::Finished(d2.out)
            } else if n == 0 {
                if d2.pos + 2 > input.len() {
                    Step::Failed
                } else {
                    let d3 = Decoder { pos: d2.pos + 2, ..d2 };
                    advance(input, copy_in(d3, from2, le_u16(input, d2.pos) as nat))
                }
            } else {
                advance(input, copy_in(d2, from2, (n + 2) as nat))
            }
        }
    }
}

/// A short match, once its two control bits are read: two bytes from a
/// source given by one input byte, two more if the next control bit is set,
/// and one more if the bit after it is set.
pub open spec fn short_match(input: Seq<u8>, d: Decoder) -> Step {
    if !(0 <= d.pos < input.len()) {
        Step::Failed
    } else {
        let from = short_source(d.at, input[d.pos]);
        let d1 = Decoder { pos: d.pos + 1, ..d };
        match copy_in(d1, from, 2) {
            None => Step::Failed,
            Some(d2) => match next_bit(input, d2) {
                None => Step::Failed,
                Some(d3) => {
                    let d4 = if d3.bits % 2 == 1 {
                        copy_in(d3, from + 2, 2)
                    } else {
                        Some(d3)
                    };
                    let from4 = if d3.bits % 2 == 1 {
                        from + 4
                    } else {
                        from + 2
                    };
                    match d4 {
                        None => Step::Failed,
                        Some(d4) => match next_bit(input, d4) {
                            None => Step::Failed,
                            Some(d5) => if d5.bits % 2 == 1 {
                                advance(input, copy_in(d5, from4, 1))
                            } else {
                                advance(input, Some(d5))
                            },
                        },
                    }
                },
            },
        }
    }
}

/// One instruction: a literal byte when the control bit is 0; otherwise a
/// long match or a short match, as the next control bit is 1 or 0.
pub open spec fn step(input: Seq<u8>, d: Decoder) -> Step {
    if d.bits % 2 == 0 {
        if 0 <= d.pos < input.len() && 0 <= d.at < d.out.len() {
            advance(
                input,
                Some(Decoder { pos: d.pos + 1, out: d.out.update(d.at, input[d.pos]), at: d.at + 1, ..d }),
            )
        } else {
            Step::Failed
        }
    } else {
        match next_bit(input, d) {
            None => Step::Failed,
            Some(d1) => if d1.bits % 2 == 1 {
                long_match(input, d1)
            } else {
                short_match(input, d1)
            },
        }
    }
}

/// Runs instructions until the terminator. Every instruction consumes input,
/// which bounds the run.
pub open spec fn run(input: Seq<u8>, d: Decoder) -> Result<Seq<u8>, DecompressionError>
    decreases input.len() - d.pos,
{
    match step(input, d) {
        Step::Next(d2) => if d.pos < d2.pos <= input.len() {
            run(input, d2)
        } else {
            Err(DecompressionError::CorruptFile)
        },
        Step::Finished(o) => Ok(o),
        Step::Failed => Err(DecompressionError::CorruptFile),
    }
}

/// The decoder before the first instruction: the first control word follows
/// the envelope, and the output is `size` zero bytes.
pub open spec fn start(input: Seq<u8>, size: nat) -> Decoder {
    Decoder {
        pos: GT_HEADER_LEN + 4,
        bits: le_u32(input, GT_HEADER_LEN as int) as u32,
        live: 32,
        out: Seq::new(size, |i: int| 0u8),
        at: 0,
    }
}

/// What decompressing `input` to `size` bytes gives.
pub open spec fn gt_decompress(input: Seq<u8>, size: nat) -> Result<Seq<u8>, DecompressionError> {
    if !starts_with(input, gt_magic()) {
        Err(DecompressionError::IncorrectFileSignature)
    } else if input.len() < GT_HEADER_LEN + 4 {
        Err(DecompressionError::CorruptFile)
    } else {
        run(input, start(input, size))
    }
}

proof fn lemma_copy_run_len(out: Seq<u8>, from: int, to: int, n: nat)
    ensures
        copy_run(out, from, to, n) matches Some(o) ==> o.len() == out.len(),
    decreases n,
{
    if n > 0 && 0 <= from < out.len() && 0 <= to < out.len() {
        lemma_copy_run_len(out.update(to, out[from]), from + 1, to + 1, (n - 1) as nat);
    }
}

proof fn lemma_step_len(input: Seq<u8>, d: Decoder)
    ensures
        step(input, d) matches Step::Next(d2) ==> d2.out.len() == d.out.len(),
        step(input, d) matches Step::Finished(o) ==> o.len() == d.out.len(),
{
    assert forall|d1: Decoder, from: int, n: nat| #[trigger]
        copy_in(d1, from, n) is Some implies copy_in(d1, from, n)->Some_0.out.len()
            == d1.out.len() by {
        lemma_copy_run_len(d1.out, from, d1.at, n);
    }
}

proof fn lemma_run_len(input: Seq<u8>, d: Decoder)
    ensures
        run(input, d) matches Ok(o) ==> o.len() == d.out.len(),
    decreases input.len() - d.pos,
{
    lemma_step_len(input, d);
    if let Step::Next(d2) = step(input, d) {
        if d.pos < d2.pos <= input.len() {
            lemma_run_len(input, d2);
        }
    }
}

/// A stream that decompresses at all gives exactly the declared number of
/// bytes.
pub proof fn lemma_decompressed_len(input: Seq<u8>, size: nat)
    ensures
        gt_decompress(input, size) matches Ok(o) ==> o.len() == size,
{
    if starts_with(input, gt_magic()) && input.len() >= GT_HEADER_LEN + 4 {
        lemma_run_len(input, start(input, size));
    }
}

/// Decompression depends on the input bytes and the declared size alone:
/// equal inputs give equal results.
pub proof fn lemma_decompress_deterministic(a: Seq<u8>, b: Seq<u8>, size: nat)
    requires
        a == b,
    ensures
        gt_decompress(a, size) == gt_decompress(b, size),
{
}

/// The working state of `decompress`.
struct Inflater {
    pos: usize,
    bits: u32,
    live: u32,
    out: Vec<u8>,
    at: usize,
}

impl View for Inflater {
    type V = Decoder;

    closed spec fn view(&self) -> Decoder {
        Decoder {
            pos: self.pos as int,
            bits: self.bits,
            live: self.live as int,
            out: self.out@,
            at: self.at as int,
        }
    }
}

impl Inflater {
    spec fn wf(&self, input_len: int) -> bool {
        &&& self.pos <= input_len
        &&& 1 <= self.live <= 32
        &&& self.at <= self.out@.len()
        &&& self.out@.len() <= u32::MAX
    }

    fn next_bit(&mut self, input: &[u8]) -> (r: Result<(), DecompressionError>)
        requires
            old(self).wf(input@.len() as int),
        ensures
            match next_bit(input@, old(self)@) {
                Some(d) => r is Ok && final(self)@ == d && final(self).wf(input@.len() as int),
                None => r == Err::<(), DecompressionError>(DecompressionError::CorruptFile),
            },
    {
        if self.live > 1 {
            self.bits = self.bits / 2;
            self.live = self.live - 1;
            Ok(())
        } else if input.len() - self.pos >= 4 {
            self.bits = read_u32_le(input, self.pos);
            self.pos = self.pos + 4;
            self.live = 32;
            Ok(())
        } else {
            Err(DecompressionError::CorruptFile)
        }
    }

    fn copy_from(&mut self, from: i64, n: u32, Ghost(input_len): Ghost<int>) -> (r: Result<(), DecompressionError>)
        requires
            old(self).wf(input_len),
            -0x2000 <= from <= 0x2_0000_0000,
        ensures
            match copy_in(old(self)@, from as int, n as nat) {
                Some(d) => r is Ok && final(self)@ == d && final(self).wf(input_len),
                None => r == Err::<(), DecompressionError>(DecompressionError::CorruptFile),
            },
    {
        let mut k: u32 = 0;
        let mut src: i64 = from;
        while k < n
            invariant
                self.wf(input_len),
                k <= n,
                src == from + k,
                self.at == old(self).at + k,
                self.pos == old(self).pos,
                self.bits == old(self).bits,
                self.live == old(self).live,
                copy_run(old(self).out@, from as int, old(self).at as int, n as nat) == copy_run(
                    self.out@,
                    src as int,
                    self.at as int,
                    (n - k) as nat,
                ),
            decreases n - k,
        {
            if src < 0 || src as u64 >= self.out.len() as u64 || self.at >= self.out.len() {
                return Err(DecompressionError::CorruptFile);
            }
            let v = self.out[src as usize];
            self.out.set(self.at, v);
            self.at = self.at + 1;
            src = src + 1;
            k = k + 1;
        }
        Ok(())
    }

    fn advance(&mut self, input: &[u8]) -> (r: Result<bool, DecompressionError>)
        requires
            old(self).wf(input@.len() as int),
        ensures
            advance(input@, Some(old(self)@)) matches Step::Next(d) ==> r == Ok::<
                bool,
                DecompressionError,
            >(false) && final(self)@ == d && final(self).wf(input@.len() as int) && old(self).pos
                <= final(self).pos,
            advance(input@, Some(old(self)@)) matches Step::Failed ==> r == Err::<
                bool,
                DecompressionError,
            >(DecompressionError::CorruptFile),
            !(advance(input@, Some(old(self)@)) matches Step::Finished(_)),
    {
        match self.next_bit(input) {
            Ok(()) => Ok(false),
            Err(e) => Err(e),
        }
    }

    fn run_long_match(&mut self, input: &[u8]) -> (r: Result<bool, DecompressionError>)
        requires
            old(self).wf(input@.len() as int),
        ensures
            match long_match(input@, old(self)@) {
                Step::Next(d) => r == Ok::<bool, DecompressionError>(false) && final(self)@ == d
                    && final(self).wf(input@.len() as int) && old(self).pos < final(self).pos,
                Step::Finished(o) => r == Ok::<bool, DecompressionError>(true) && final(self).out@
                    == o,
                Step::Failed => r == Err::<bool, DecompressionError>(
                    DecompressionError::CorruptFile,
                ),
            },
    {
        let ghost len = input@.len() as int;
        if input.len() - self.pos < 2 {
            return Err(DecompressionError::CorruptFile);
        }
        let code = read_u16_le(input, self.pos);
        let from: i64 = ((self.at as u64 + (code / 8) as u64 + 0xffffe000u64) % 0x1_0000_0000u64) as i64;
        self.pos = self.pos + 2;
        if code % 8 != 0 {
            if let Err(e) = self.copy_from(from, (code % 8 + 2) as u32, Ghost(len)) {
                return Err(e);
            }
            return self.advance(input);
        }
        if self.pos >= input.len() {
            return Err(DecompressionError::CorruptFile);
        }
        let b = input[self.pos];
        let from2: i64 = if b >= 128 {
            from - 0x2000
        } else {
            from
        };
        self.pos = self.pos + 1;
        let n = b % 128;
        if n == 1 {
            return Ok(true);
        }
        let count: u32 = if n == 0 {
            if input.len() - self.pos < 2 {
                return Err(DecompressionError::CorruptFile);
            }
            let c = read_u16_le(input, self.pos);
            self.pos = self.pos + 2;
            c as u32
        } else {
            (n + 2) as u32
        };
        if let Err(e) = self.copy_from(from2, count, Ghost(len)) {
            return Err(e);
        }
        self.advance(input)
    }

    fn run_short_match(&mut self, input: &[u8]) -> (r: Result<bool, DecompressionError>)
        requires
            old(self).wf(input@.len() as int),
        ensures
            match short_match(input@, old(self)@) {
                Step::Next(d) => r == Ok::<bool, DecompressionError>(false) && final(self)@ == d
                    && final(self).wf(input@.len() as int) && old(self).pos < final(self).pos,
                Step::Finished(o) => false,
                Step::Failed => r == Err::<bool, DecompressionError>(
                    DecompressionError::CorruptFile,
                ),
            },
    {
        let ghost len = input@.len() as int;
        if self.pos >= input.len() {
            return Err(DecompressionError::CorruptFile);
        }
        let b = input[self.pos];
        let from: i64 = ((self.at as u64 + b as u64 + 0xffffff00u64) % 0x1_0000_0000u64) as i64;
        self.pos = self.pos + 1;
        if let Err(e) = self.copy_from(from, 2, Ghost(len)) {
            return Err(e);
        }
        if let Err(e) = self.next_bit(input) {
            return Err(e);
        }
        let from4: i64 = if self.bits % 2 == 1 {
            if let Err(e) = self.copy_from(from + 2, 2, Ghost(len)) {
                return Err(e);
            }
            from + 4
        } else {
            from + 2
        };
        if let Err(e) = self.next_bit(input) {
            return Err(e);
        }
        if self.bits % 2 == 1 {
            if let Err(e) = self.copy_from(from4, 1, Ghost(len)) {
                return Err(e);
            }
        }
        self.advance(input)
    }

    fn run_step(&mut self, input: &[u8]) -> (r: Result<bool, DecompressionError>)
        requires
            old(self).wf(input@.len() as int),
        ensures
            match step(input@, old(self)@) {
                Step::Next(d) => r == Ok::<bool, DecompressionError>(false) && final(self)@ == d
                    && final(self).wf(input@.len() as int) && old(self).pos < final(self).pos,
                Step::Finished(o) => r == Ok::<bool, DecompressionError>(true) && final(self).out@
                    == o,
                Step::Failed => r == Err::<bool, DecompressionError>(
                    DecompressionError::CorruptFile,
                ),
            },
    {
        if self.bits % 2 == 0 {
            if self.pos >= input.len() || self.at >= self.out.len() {
                return Err(DecompressionError::CorruptFile);
            }
            self.out.set(self.at, input[self.pos]);
            self.pos = self.pos + 1;
            self.at = self.at + 1;
            return self.advance(input);
        }
        if let Err(e) = self.next_bit(input) {
            return Err(e);
        }
        if self.bits % 2 == 1 {
            self.run_long_match(input)
        } else {
            self.run_short_match(input)
        }
    }
}

/// Decompresses a GT20 stream into a buffer of `uncompressed_size` bytes.
/// Fails with `IncorrectFileSignature` when the signature is absent, and with
/// `CorruptFile` when a read or a write would leave its buffer or the input
/// ends before the terminator.
pub fn decompress(input: &[u8], uncompressed_size: u32) -> (r: Result<Vec<u8>, DecompressionError>)
    ensures
        match r {
            Ok(v) => gt_decompress(input@, uncompressed_size as nat) == Ok::<
                Seq<u8>,
                DecompressionError,
            >(v@),
            Err(e) => gt_decompress(input@, uncompressed_size as nat) == Err::<
                Seq<u8>,
                DecompressionError,
            >(e),
        },
{
    if !parse_magic(input) {
        return Err(DecompressionError::IncorrectFileSignature);
    }
    if input.len() < GT_HEADER_LEN + 4 {
        return Err(DecompressionError::CorruptFile);
    }
    let mut out: Vec<u8> = Vec::new();
    let mut i: u32 = 0;
    while i < uncompressed_size
        invariant
            out@.len() == i,
            i <= uncompressed_size,
            forall|k: int| 0 <= k < i ==> out@[k] == 0u8,
        decreases uncompressed_size - i,
    {
        out.push(0u8);
        i = i + 1;
    }
    assert(out@ =~= Seq::new(uncompressed_size as nat, |k: int| 0u8));
    let mut st = Inflater {
        pos: GT_HEADER_LEN + 4,
        bits: read_u32_le(input, GT_HEADER_LEN),
        live: 32,
        out,
        at: 0,
    };
    assert(st@ == start(input@, uncompressed_size as nat));
    loop
        invariant
            st.wf(input@.len() as int),
            run(input@, st@) == gt_decompress(input@, uncompressed_size as nat),
        decreases input@.len() - st.pos,
    {
        match st.run_step(input) {
            Err(e) => {
                return Err(e);
            },
            Ok(true) => {
                return Ok(st.out);
            },
            Ok(false) => {},
        }
    }
}

} // verus!
