use vstd::prelude::*;
use crate::error::AppError;

verus! {

// ---------------------------------------------------------------------------
// Byte-level character decoding
// ---------------------------------------------------------------------------

/// The outcome of decoding one character at a byte position: the character
/// and the position after it, a clean end of input, or malformed bytes.
pub enum CharStep {
    Okc(char, int),
    Eof,
    Invalid,
}

pub open spec fn is_cont_byte(b: u8) -> bool {
    0x80 <= b && b < 0xC0
}

/// Strict UTF-8 decoding of the scalar value starting at `pos`.
///
/// `Eof` is returned both at the very end of the input and where the input
/// ends in the middle of a multi-byte sequence, mirroring a reader that asks
/// for one more byte and finds none; `Invalid` is returned as soon as a byte
/// rules out every completion.
pub open spec fn spec_read_char(bytes: Seq<u8>, pos: int) -> CharStep {
    if pos < 0 || pos >= bytes.len() {
        CharStep::Eof
    } else {
        let b0 = bytes[pos];
        if b0 < 0x80 {
            CharStep::Okc(b0 as char, pos + 1)
        } else if b0 < 0xC2 {
            CharStep::Invalid
        } else if b0 < 0xE0 {
            if pos + 1 >= bytes.len() {
                CharStep::Eof
            } else {
                let b1 = bytes[pos + 1];
                if !is_cont_byte(b1) {
                    CharStep::Invalid
                } else {
                    CharStep::Okc((((b0 - 0xC0) as int) * 0x40 + ((b1 - 0x80) as int)) as char, pos + 2)
                }
            }
        } else if b0 < 0xF0 {
            if pos + 1 >= bytes.len() {
                CharStep::Eof
            } else {
                let b1 = bytes[pos + 1];
                if !(if b0 == 0xE0 {
                    0xA0 <= b1 && b1 < 0xC0
                } else if b0 == 0xED {
                    0x80 <= b1 && b1 < 0xA0
                } else {
                    is_cont_byte(b1)
                }) {
                    CharStep::Invalid
                } else if pos + 2 >= bytes.len() {
                    CharStep::Eof
                } else {
                    let b2 = bytes[pos + 2];
                    if !is_cont_byte(b2) {
                        CharStep::Invalid
                    } else {
                        CharStep::Okc(
                            (((b0 - 0xE0) as int) * 0x1000 + ((b1 - 0x80) as int) * 0x40
                                + ((b2 - 0x80) as int)) as char,
                            pos + 3,
                        )
                    }
                }
            }
        } else if b0 <= 0xF4 {
            if pos + 1 >= bytes.len() {
                CharStep::Eof
            } else {
                let b1 = bytes[pos + 1];
                if !(if b0 == 0xF0 {
                    0x90 <= b1 && b1 < 0xC0
                } else if b0 == 0xF4 {
                    0x80 <= b1 && b1 < 0x90
                } else {
                    is_cont_byte(b1)
                }) {
                    CharStep::Invalid
                } else if pos + 2 >= bytes.len() {
                    CharStep::Eof
                } else {
                    let b2 = bytes[pos + 2];
                    if !is_cont_byte(b2) {
                        CharStep::Invalid
                    } else if pos + 3 >= bytes.len() {
                        CharStep::Eof
                    } else {
                        let b3 = bytes[pos + 3];
                        if !is_cont_byte(b3) {
                            CharStep::Invalid
                        } else {
                            CharStep::Okc(
                                (((b0 - 0xF0) as int) * 0x40000 + ((b1 - 0x80) as int) * 0x1000
                                    + ((b2 - 0x80) as int) * 0x40 + ((b3 - 0x80) as int)) as char,
                                pos + 4,
                            )
                        }
                    }
                }
            }
        } else {
            CharStep::Invalid
        }
    }
}

/// A decoded character always advances the position and stays in bounds.
pub proof fn lemma_read_char_advances(bytes: Seq<u8>, pos: int)
    ensures
        match spec_read_char(bytes, pos) {
            CharStep::Okc(_, p) => pos < p <= bytes.len(),
            _ => true,
        },
{
}

/// Relies on `char::from_u32`: every non-surrogate code point up to 0x10FFFF
/// is a valid `char` with that scalar value.
#[verifier::external_body]
fn char_of(v: u32) -> (c: char)
    requires
        v < 0xD800 || (0xE000 <= v && v <= 0x10FFFF),
    ensures
        c == v as char,
{
    match char::from_u32(v) {
        Some(c) => c,
        None => ' ',
    }
}

// ---------------------------------------------------------------------------
// Derived scanning specifications
// ---------------------------------------------------------------------------

/// The outcome of matching a fixed pattern of characters: the position after
/// a full match, the position reached when a character differs, or a failure
/// position.
pub enum MatchStep {
    Matched(int),
    Mismatch(int),
    MEof(int),
    MInvalid(int),
}

pub open spec fn spec_match_next(bytes: Seq<u8>, pos: int, pattern: Seq<char>) -> MatchStep
    decreases pattern.len(),
{
    if pattern.len() == 0 {
        MatchStep::Matched(pos)
    } else {
        match spec_read_char(bytes, pos) {
            CharStep::Okc(c, p) => if c == pattern[0] {
                spec_match_next(bytes, p, pattern.skip(1))
            } else {
                MatchStep::Mismatch(p)
            },
            CharStep::Eof => MatchStep::MEof(pos),
            CharStep::Invalid => MatchStep::MInvalid(pos),
        }
    }
}

/// The outcome of a greedy character run: the run and the position after the
/// stopping character (which is consumed but not part of the run), or a
/// malformed-byte position. End of input stops the run without failing.
pub enum UntilStep {
    Done(Seq<char>, int),
    UInvalid(int),
}

/// Greedy run of the characters satisfying `want`, when `keep` is true, or of
/// those not satisfying it, when `keep` is false.
pub open spec fn spec_until(
    bytes: Seq<u8>,
    pos: int,
    want: spec_fn(char) -> bool,
    keep: bool,
) -> UntilStep
    decreases bytes.len() - pos,
    when pos <= bytes.len()
    via spec_until_decreases
{
    match spec_read_char(bytes, pos) {
        CharStep::Eof => UntilStep::Done(Seq::empty(), pos),
        CharStep::Invalid => UntilStep::UInvalid(pos),
        CharStep::Okc(c, p) => if want(c) == keep {
            match spec_until(bytes, p, want, keep) {
                UntilStep::Done(run, q) => UntilStep::Done(seq![c] + run, q),
                UntilStep::UInvalid(q) => UntilStep::UInvalid(q),
            }
        } else {
            UntilStep::Done(Seq::empty(), p)
        },
    }
}

#[via_fn]
proof fn spec_until_decreases(bytes: Seq<u8>, pos: int, want: spec_fn(char) -> bool, keep: bool) {
    lemma_read_char_advances(bytes, pos);
}

/// The membership predicate of a character set given as a sequence.
pub open spec fn in_seq_pred(set: Seq<char>) -> spec_fn(char) -> bool {
    |c: char| set.contains(c)
}

/// The outcome of scanning forward for a pattern before a terminator: the
/// position after the matched pattern, the position after the terminator, or
/// a failure position. A mismatched character restarts the pattern from its
/// beginning without being re-examined.
pub enum SearchStep {
    Found(int),
    NotFound(int),
    SEof(int),
    SInvalid(int),
}

pub open spec fn spec_search(
    bytes: Seq<u8>,
    pos: int,
    pattern: Seq<char>,
    term: char,
    idx: int,
) -> SearchStep
    decreases bytes.len() - pos,
    when pos <= bytes.len() && 0 <= idx < pattern.len()
    via spec_search_decreases
{
    match spec_read_char(bytes, pos) {
        CharStep::Eof => SearchStep::SEof(pos),
        CharStep::Invalid => SearchStep::SInvalid(pos),
        CharStep::Okc(c, p) => if c == term {
            SearchStep::NotFound(p)
        } else if c == pattern[idx] {
            if idx + 1 == pattern.len() {
                SearchStep::Found(p)
            } else {
                spec_search(bytes, p, pattern, term, idx + 1)
            }
        } else {
            spec_search(bytes, p, pattern, term, 0)
        },
    }
}

#[via_fn]
proof fn spec_search_decreases(bytes: Seq<u8>, pos: int, pattern: Seq<char>, term: char, idx: int) {
    lemma_read_char_advances(bytes, pos);
}

/// The outcome of reading a fixed number of characters.
pub enum ChunkStep {
    Chunk(Seq<char>, int),
    CEof(int),
    CInvalid(int),
}

pub open spec fn spec_read_chars(bytes: Seq<u8>, pos: int, n: nat) -> ChunkStep
    decreases n,
{
    if n == 0 {
        ChunkStep::Chunk(Seq::empty(), pos)
    } else {
        match spec_read_char(bytes, pos) {
            CharStep::Eof => ChunkStep::CEof(pos),
            CharStep::Invalid => ChunkStep::CInvalid(pos),
            CharStep::Okc(c, p) => match spec_read_chars(bytes, p, (n - 1) as nat) {
                ChunkStep::Chunk(run, q) => ChunkStep::Chunk(seq![c] + run, q),
                ChunkStep::CEof(q) => ChunkStep::CEof(q),
                ChunkStep::CInvalid(q) => ChunkStep::CInvalid(q),
            },
        }
    }
}

// ---------------------------------------------------------------------------
// The reader
// ---------------------------------------------------------------------------

/// A tolerant UTF-8 character reader over an in-memory byte buffer, with an
/// absolute cursor that supports lookahead and rewind.
pub struct StreamReader {
    pub bytes: Vec<u8>,
    pub pos: usize,
}

impl StreamReader {
    /// The cursor never points past the end of the buffer.
    pub open spec fn wf(self) -> bool {
        self.pos <= self.bytes@.len()
    }

    pub fn new(bytes: Vec<u8>) -> (r: StreamReader)
        ensures
            r.bytes == bytes,
            r.pos == 0,
            r.wf(),
    {
        StreamReader { bytes, pos: 0 }
    }

    /// The absolute byte offset of the cursor.
    pub fn position(&self) -> (r: usize)
        ensures
            r == self.pos,
    {
        self.pos
    }

    /// Moves the cursor to an absolute byte offset.
    pub fn set_position(&mut self, pos: usize)
        requires
            pos <= old(self).bytes@.len(),
        ensures
            final(self).bytes == old(self).bytes,
            final(self).pos == pos,
            final(self).wf(),
    {
        self.pos = pos;
    }

    /// Decodes the next character, failing with `UnexpectedEof` at (or
    /// truncated inside) the end of input and `InvalidUtf8` on malformed
    /// bytes. The cursor moves past the character on success and stays put on
    /// failure.
    pub fn read_char(&mut self) -> (r: Result<char, AppError>)
        requires
            old(self).wf(),
        ensures
            final(self).bytes == old(self).bytes,
            final(self).wf(),
            match spec_read_char(old(self).bytes@, old(self).pos as int) {
                CharStep::Okc(c, p) => r == Ok::<char, AppError>(c) && final(self).pos == p,
                CharStep::Eof => r == Err::<char, AppError>(AppError::UnexpectedEof)
                    && final(self).pos == old(self).pos,
                CharStep::Invalid => r == Err::<char, AppError>(AppError::InvalidUtf8)
                    && final(self).pos == old(self).pos,
            },
    {
        let len = self.bytes.len();
        if self.pos >= len {
            return Err(AppError::UnexpectedEof);
        }
        let b0 = self.bytes[self.pos];
        if b0 < 0x80 {
            let c = char_of(b0 as u32);
            self.pos = self.pos + 1;
            Ok(c)
        } else if b0 < 0xC2 {
            Err(AppError::InvalidUtf8)
        } else if b0 < 0xE0 {
            if self.pos + 1 >= len {
                return Err(AppError::UnexpectedEof);
            }
            let b1 = self.bytes[self.pos + 1];
            if !(0x80 <= b1 && b1 < 0xC0) {
                return Err(AppError::InvalidUtf8);
            }
            let v: u32 = (b0 as u32 - 0xC0) * 0x40 + (b1 as u32 - 0x80);
            let c = char_of(v);
            self.pos = self.pos + 2;
            Ok(c)
        } else if b0 < 0xF0 {
            if self.pos + 1 >= len {
                return Err(AppError::UnexpectedEof);
            }
            let b1 = self.bytes[self.pos + 1];
            let b1_ok = if b0 == 0xE0 {
                0xA0 <= b1 && b1 < 0xC0
            } else if b0 == 0xED {
                0x80 <= b1 && b1 < 0xA0
            } else {
                0x80 <= b1 && b1 < 0xC0
            };
            if !b1_ok {
                return Err(AppError::InvalidUtf8);
            }
            if self.pos + 2 >= len {
                return Err(AppError::UnexpectedEof);
            }
            let b2 = self.bytes[self.pos + 2];
            if !(0x80 <= b2 && b2 < 0xC0) {
                return Err(AppError::InvalidUtf8);
            }
            let v: u32 = (b0 as u32 - 0xE0) * 0x1000 + (b1 as u32 - 0x80) * 0x40 + (b2 as u32
                - 0x80);
            let c = char_of(v);
            self.pos = self.pos + 3;
            Ok(c)
        } else if b0 <= 0xF4 {
            if self.pos + 1 >= len {
                return Err(AppError::UnexpectedEof);
            }
            let b1 = self.bytes[self.pos + 1];
            let b1_ok = if b0 == 0xF0 {
                0x90 <= b1 && b1 < 0xC0
            } else if b0 == 0xF4 {
                0x80 <= b1 && b1 < 0x90
            } else {
                0x80 <= b1 && b1 < 0xC0
            };
            if !b1_ok {
                return Err(AppError::InvalidUtf8);
            }
            if self.pos + 2 >= len {
                return Err(AppError::UnexpectedEof);
            }
            let b2 = self.bytes[self.pos + 2];
            if !(0x80 <= b2 && b2 < 0xC0) {
                return Err(AppError::InvalidUtf8);
            }
            if self.pos + 3 >= len {
                return Err(AppError::UnexpectedEof);
            }
            let b3 = self.bytes[self.pos + 3];
            if !(0x80 <= b3 && b3 < 0xC0) {
                return Err(AppError::InvalidUtf8);
            }
            let v: u32 = (b0 as u32 - 0xF0) * 0x40000 + (b1 as u32 - 0x80) * 0x1000 + (b2 as u32
                - 0x80) * 0x40 + (b3 as u32 - 0x80);
            let c = char_of(v);
            self.pos = self.pos + 4;
            Ok(c)
        } else {
            Err(AppError::InvalidUtf8)
        }
    }

    /// Consumes characters of `pattern` in order; on the first difference
    /// reports `false` and, when `rewind` is set, restores the cursor to
    /// where the call began. A full match leaves the cursor past the matched
    /// text.
    pub fn match_next(&mut self, pattern: &[char], rewind: bool) -> (r: Result<bool, AppError>)
        requires
            old(self).wf(),
        ensures
            final(self).bytes == old(self).bytes,
            final(self).wf(),
            match spec_match_next(old(self).bytes@, old(self).pos as int, pattern@) {
                MatchStep::Matched(p) => r == Ok::<bool, AppError>(true) && final(self).pos == p,
                MatchStep::Mismatch(p) => r == Ok::<bool, AppError>(false) && final(self).pos
                    == (if rewind { old(self).pos as int } else { p }),
                MatchStep::MEof(p) => r == Err::<bool, AppError>(AppError::UnexpectedEof)
                    && final(self).pos == p,
                MatchStep::MInvalid(p) => r == Err::<bool, AppError>(AppError::InvalidUtf8)
                    && final(self).pos == p,
            },
    {
        let start = self.pos;
        let mut i: usize = 0;
        proof {
            assert(pattern@.skip(0) =~= pattern@);
        }
        while i < pattern.len()
            invariant
                self.wf(),
                self.bytes == old(self).bytes,
                start == old(self).pos,
                0 <= i <= pattern@.len(),
                spec_match_next(old(self).bytes@, start as int, pattern@) == spec_match_next(
                    self.bytes@,
                    self.pos as int,
                    pattern@.skip(i as int),
                ),
            decreases pattern@.len() - i,
        {
            let ghost pre = *self;
            let next = match self.read_char() {
                Ok(c) => c,
                Err(e) => {
                    proof {
                        assert(pattern@.skip(i as int).len() > 0);
                    }
                    return Err(e);
                },
            };
            proof {
                assert(pattern@.skip(i as int).len() > 0);
                assert(pattern@.skip(i as int)[0] == pattern@[i as int]);
                assert(pattern@.skip(i as int).skip(1) == pattern@.skip(i + 1));
            }
            if next != pattern[i] {
                if rewind {
                    self.set_position(start);
                }
                return Ok(false);
            }
            i = i + 1;
        }
        proof {
            assert(pattern@.skip(i as int).len() == 0);
        }
        Ok(true)
    }

    /// Tests whether the next character is one of `chars`, returning it when
    /// it is; on a miss the cursor is restored when `rewind` is set, and
    /// otherwise left past the rejected character.
    pub fn match_next_or(&mut self, chars: &[char], rewind: bool) -> (r: Result<
        Option<char>,
        AppError,
    >)
        requires
            old(self).wf(),
        ensures
            final(self).bytes == old(self).bytes,
            final(self).wf(),
            match spec_read_char(old(self).bytes@, old(self).pos as int) {
                CharStep::Okc(c, p) => if chars@.contains(c) {
                    r == Ok::<Option<char>, AppError>(Some(c)) && final(self).pos == p
                } else {
                    r == Ok::<Option<char>, AppError>(None) && final(self).pos == (if rewind {
                        old(self).pos as int
                    } else {
                        p
                    })
                },
                CharStep::Eof => r == Err::<Option<char>, AppError>(AppError::UnexpectedEof)
                    && final(self).pos == old(self).pos,
                CharStep::Invalid => r == Err::<Option<char>, AppError>(AppError::InvalidUtf8)
                    && final(self).pos == old(self).pos,
            },
    {
        let start = self.pos;
        let next = match self.read_char() {
            Ok(c) => c,
            Err(e) => {
                return Err(e);
            },
        };
        let mut i: usize = 0;
        let mut found = false;
        while i < chars.len()
            invariant
                0 <= i <= chars@.len(),
                found == chars@.subrange(0, i as int).contains(next),
            decreases chars@.len() - i,
        {
            proof {
                assert(chars@.subrange(0, i + 1).drop_last() == chars@.subrange(0, i as int));
                assert(chars@.subrange(0, i + 1).last() == chars@[i as int]);
            }
            if chars[i] == next {
                found = true;
            }
            i = i + 1;
        }
        proof {
            assert(chars@.subrange(0, chars@.len() as int) == chars@);
        }
        if found {
            Ok(Some(next))
        } else {
            if rewind {
                self.set_position(start);
            }
            Ok(None)
        }
    }

    /// Greedily reads the run of characters contained in `legal`; the first
    /// character outside the set is consumed and ends the run, and end of
    /// input ends the run without failing.
    pub fn get_until_mismatch(&mut self, legal: &[char]) -> (r: Result<Vec<char>, AppError>)
        requires
            old(self).wf(),
        ensures
            final(self).bytes == old(self).bytes,
            final(self).wf(),
            match spec_until(old(self).bytes@, old(self).pos as int, in_seq_pred(legal@), true) {
                UntilStep::Done(run, q) => r matches Ok(v) && v@ == run && final(self).pos == q,
                UntilStep::UInvalid(q) => r == Err::<Vec<char>, AppError>(AppError::InvalidUtf8)
                    && final(self).pos == q,
            },
    {
        self.until_generic(legal, true)
    }

    /// Greedily reads the run of characters not contained in `term`; the
    /// terminating character is consumed and ends the run, and end of input
    /// ends the run without failing.
    pub fn get_until_term(&mut self, term: &[char]) -> (r: Result<Vec<char>, AppError>)
        requires
            old(self).wf(),
        ensures
            final(self).bytes == old(self).bytes,
            final(self).wf(),
            match spec_until(old(self).bytes@, old(self).pos as int, in_seq_pred(term@), false) {
                UntilStep::Done(run, q) => r matches Ok(v) && v@ == run && final(self).pos == q,
                UntilStep::UInvalid(q) => r == Err::<Vec<char>, AppError>(AppError::InvalidUtf8)
                    && final(self).pos == q,
            },
    {
        self.until_generic(term, false)
    }

    fn until_generic(&mut self, set: &[char], keep: bool) -> (r: Result<Vec<char>, AppError>)
        requires
            old(self).wf(),
        ensures
            final(self).bytes == old(self).bytes,
            final(self).wf(),
            match spec_until(old(self).bytes@, old(self).pos as int, in_seq_pred(set@), keep) {
                UntilStep::Done(run, q) => r matches Ok(v) && v@ == run && final(self).pos == q,
                UntilStep::UInvalid(q) => r == Err::<Vec<char>, AppError>(AppError::InvalidUtf8)
                    && final(self).pos == q,
            },
    {
        let mut acc: Vec<char> = Vec::new();
        proof {
            match spec_until(self.bytes@, self.pos as int, in_seq_pred(set@), keep) {
                UntilStep::Done(rest, _) => {
                    assert(acc@ + rest =~= rest);
                },
                UntilStep::UInvalid(_) => {},
            }
        }
        loop
            invariant
                self.wf(),
                self.bytes == old(self).bytes,
                match spec_until(self.bytes@, self.pos as int, in_seq_pred(set@), keep) {
                    UntilStep::Done(rest, q) => spec_until(
                        old(self).bytes@,
                        old(self).pos as int,
                        in_seq_pred(set@),
                        keep,
                    ) == UntilStep::Done(acc@ + rest, q),
                    UntilStep::UInvalid(q) => spec_until(
                        old(self).bytes@,
                        old(self).pos as int,
                        in_seq_pred(set@),
                        keep,
                    ) == UntilStep::UInvalid(q),
                },
            decreases self.bytes@.len() - self.pos,
        {
            let ghost pre_pos = self.pos as int;
            proof {
                lemma_read_char_advances(self.bytes@, pre_pos);
            }
            let next = match self.read_char() {
                Ok(c) => c,
                Err(AppError::UnexpectedEof) => {
                    proof {
                        assert(acc@ + Seq::<char>::empty() =~= acc@);
                    }
                    return Ok(acc);
                },
                Err(e) => {
                    return Err(e);
                },
            };
            let mut i: usize = 0;
            let mut found = false;
            while i < set.len()
                invariant
                    0 <= i <= set@.len(),
                    found == set@.subrange(0, i as int).contains(next),
                decreases set@.len() - i,
            {
                proof {
                    assert(set@.subrange(0, i + 1).drop_last() == set@.subrange(0, i as int));
                    assert(set@.subrange(0, i + 1).last() == set@[i as int]);
                }
                if set[i] == next {
                    found = true;
                }
                i = i + 1;
            }
            proof {
                assert(set@.subrange(0, set@.len() as int) == set@);
                assert(found == in_seq_pred(set@)(next));
            }
            if found == keep {
                let ghost acc_pre = acc@;
                acc.push(next);
                proof {
                    match spec_until(self.bytes@, self.pos as int, in_seq_pred(set@), keep) {
                        UntilStep::Done(rest, q) => {
                            assert(spec_until(self.bytes@, pre_pos, in_seq_pred(set@), keep)
                                == UntilStep::Done(seq![next] + rest, q));
                            assert(acc@ + rest =~= acc_pre + (seq![next] + rest));
                        },
                        UntilStep::UInvalid(_) => {},
                    }
                }
            } else {
                proof {
                    assert(acc@ + Seq::<char>::empty() =~= acc@);
                }
                return Ok(acc);
            }
        }
    }

    /// Scans forward for `pattern` with restart-on-mismatch matching,
    /// stopping unsuccessfully at the first `term_char`. On that miss the
    /// cursor is restored to the start of the call when `rewind` is set and
    /// left past the terminator otherwise.
    pub fn read_until_match(&mut self, pattern: &[char], term_char: char, rewind: bool) -> (r:
        Result<bool, AppError>)
        requires
            old(self).wf(),
            pattern@.len() > 0,
        ensures
            final(self).bytes == old(self).bytes,
            final(self).wf(),
            match spec_search(old(self).bytes@, old(self).pos as int, pattern@, term_char, 0) {
                SearchStep::Found(p) => r == Ok::<bool, AppError>(true) && final(self).pos == p,
                SearchStep::NotFound(p) => r == Ok::<bool, AppError>(false) && final(self).pos
                    == (if rewind { old(self).pos as int } else { p }),
                SearchStep::SEof(p) => r == Err::<bool, AppError>(AppError::UnexpectedEof)
                    && final(self).pos == p,
                SearchStep::SInvalid(p) => r == Err::<bool, AppError>(AppError::InvalidUtf8)
                    && final(self).pos == p,
            },
    {
        let start = self.pos;
        let mut index: usize = 0;
        loop
            invariant
                self.wf(),
                self.bytes == old(self).bytes,
                start == old(self).pos,
                start <= self.bytes@.len(),
                pattern@.len() > 0,
                0 <= index < pattern@.len(),
                spec_search(old(self).bytes@, start as int, pattern@, term_char, 0) == spec_search(
                    self.bytes@,
                    self.pos as int,
                    pattern@,
                    term_char,
                    index as int,
                ),
            decreases self.bytes@.len() - self.pos,
        {
            let ghost pre_pos = self.pos as int;
            proof {
                lemma_read_char_advances(self.bytes@, pre_pos);
            }
            let next = match self.read_char() {
                Ok(c) => c,
                Err(e) => {
                    return Err(e);
                },
            };
            let ghost index_pre = index as int;
            if next == term_char {
                if rewind {
                    self.set_position(start);
                }
                return Ok(false);
            }
            if next == pattern[index] {
                index = index + 1;
                if index == pattern.len() {
                    return Ok(true);
                }
                proof {
                    assert(spec_search(self.bytes@, pre_pos, pattern@, term_char, index_pre)
                        == spec_search(self.bytes@, self.pos as int, pattern@, term_char, index as int));
                }
            } else {
                index = 0;
                proof {
                    assert(spec_search(self.bytes@, pre_pos, pattern@, term_char, index_pre)
                        == spec_search(self.bytes@, self.pos as int, pattern@, term_char, 0));
                }
            }
        }
    }

    /// Reads exactly `n` characters, failing where the input ends or turns
    /// invalid before all of them are decoded.
    pub fn read_chars(&mut self, n: usize) -> (r: Result<Vec<char>, AppError>)
        requires
            old(self).wf(),
        ensures
            final(self).bytes == old(self).bytes,
            final(self).wf(),
            match spec_read_chars(old(self).bytes@, old(self).pos as int, n as nat) {
                ChunkStep::Chunk(run, q) => r matches Ok(v) && v@ == run && final(self).pos == q,
                ChunkStep::CEof(q) => r == Err::<Vec<char>, AppError>(AppError::UnexpectedEof)
                    && final(self).pos == q,
                ChunkStep::CInvalid(q) => r == Err::<Vec<char>, AppError>(AppError::InvalidUtf8)
                    && final(self).pos == q,
            },
    {
        let mut acc: Vec<char> = Vec::new();
        let mut i: usize = 0;
        proof {
            match spec_read_chars(self.bytes@, self.pos as int, n as nat) {
                ChunkStep::Chunk(rest, _) => {
                    assert(acc@ + rest =~= rest);
                },
                _ => {},
            }
        }
        while i < n
            invariant
                self.wf(),
                self.bytes == old(self).bytes,
                0 <= i <= n,
                acc@.len() == i,
                match spec_read_chars(self.bytes@, self.pos as int, (n - i) as nat) {
                    ChunkStep::Chunk(rest, q) => spec_read_chars(
                        old(self).bytes@,
                        old(self).pos as int,
                        n as nat,
                    ) == ChunkStep::Chunk(acc@ + rest, q),
                    ChunkStep::CEof(q) => spec_read_chars(
                        old(self).bytes@,
                        old(self).pos as int,
                        n as nat,
                    ) == ChunkStep::CEof(q),
                    ChunkStep::CInvalid(q) => spec_read_chars(
                        old(self).bytes@,
                        old(self).pos as int,
                        n as nat,
                    ) == ChunkStep::CInvalid(q),
                },
            decreases n - i,
        {
            let ghost pre_pos = self.pos as int;
            let next = match self.read_char() {
                Ok(c) => c,
                Err(e) => {
                    return Err(e);
                },
            };
            let ghost acc_pre = acc@;
            acc.push(next);
            i = i + 1;
            proof {
                match spec_read_chars(self.bytes@, self.pos as int, (n - i) as nat) {
                    ChunkStep::Chunk(rest, q) => {
                        assert(spec_read_chars(self.bytes@, pre_pos, (n - i + 1) as nat)
                            == ChunkStep::Chunk(seq![next] + rest, q));
                        assert(acc@ + rest =~= acc_pre + (seq![next] + rest));
                    },
                    _ => {},
                }
            }
        }
        proof {
            assert(acc@ + Seq::<char>::empty() =~= acc@);
        }
        Ok(acc)
    }
}

} // verus!
