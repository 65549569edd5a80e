use vstd::prelude::*;
use crate::error::AppError;
use crate::reader::{
    StreamReader, CharStep, UntilStep, SearchStep, spec_read_char, spec_until, spec_search,
    in_seq_pred, lemma_read_char_advances,
};
use crate::url_fsm::{lemma_search_bounds};
use crate::web::chars_to_string;

verus! {

/// The states of the title scanner: looking for a `<`, checking a tag for
/// `title>`, collecting the title text, and done.
#[derive(Debug, Clone, PartialEq, Eq)]
pub enum TitleParseState {
    FindTag,
    ReadHtmlTag,
    ReadTitle,
    Terminate,
}

/// The outcome of scanning for the next `<`.
pub enum TagScan {
    TagAt(int),
    TsEof,
    TsInvalid,
}

pub open spec fn spec_scan_tag(bytes: Seq<u8>, pos: int) -> TagScan
    decreases bytes.len() - pos,
    when pos <= bytes.len()
    via spec_scan_tag_decreases
{
    match spec_read_char(bytes, pos) {
        CharStep::Eof => TagScan::TsEof,
        CharStep::Invalid => TagScan::TsInvalid,
        CharStep::Okc(c, p) => if c == '<' {
            TagScan::TagAt(p)
        } else {
            spec_scan_tag(bytes, p)
        },
    }
}

#[via_fn]
proof fn spec_scan_tag_decreases(bytes: Seq<u8>, pos: int) {
    lemma_read_char_advances(bytes, pos);
}

proof fn lemma_scan_tag_bounds(bytes: Seq<u8>, pos: int)
    requires
        0 <= pos <= bytes.len(),
    ensures
        match spec_scan_tag(bytes, pos) {
            TagScan::TagAt(p) => pos < p <= bytes.len(),
            _ => true,
        },
    decreases bytes.len() - pos,
{
    lemma_read_char_advances(bytes, pos);
    match spec_read_char(bytes, pos) {
        CharStep::Okc(c, p) => {
            if c != '<' {
                lemma_scan_tag_bounds(bytes, p);
            }
        },
        _ => {},
    }
}

/// The title the scanner extracts from `pos` onward: the text between the
/// first `title>` tag opening and the next `<` or `>`, the empty string when
/// the input ends without one, or the error that stops the scan.
pub open spec fn spec_title_run(bytes: Seq<u8>, pos: int) -> Result<Seq<char>, AppError>
    decreases bytes.len() - pos,
    when 0 <= pos <= bytes.len()
    via spec_title_run_decreases
{
    match spec_scan_tag(bytes, pos) {
        TagScan::TsEof => Ok(Seq::empty()),
        TagScan::TsInvalid => Err(AppError::InvalidUtf8),
        TagScan::TagAt(p) => match spec_search(
            bytes,
            p,
            seq!['t', 'i', 't', 'l', 'e', '>'],
            '<',
            0,
        ) {
            SearchStep::SEof(_) => Ok(Seq::empty()),
            SearchStep::SInvalid(_) => Err(AppError::InvalidUtf8),
            SearchStep::NotFound(_) => spec_title_run(bytes, p),
            SearchStep::Found(p2) => match spec_until(
                bytes,
                p2,
                in_seq_pred(seq!['<', '>']),
                false,
            ) {
                UntilStep::UInvalid(_) => Err(AppError::InvalidUtf8),
                UntilStep::Done(run, _) => Ok(run),
            },
        },
    }
}

#[via_fn]
proof fn spec_title_run_decreases(bytes: Seq<u8>, pos: int) {
    lemma_scan_tag_bounds(bytes, pos);
}

/// Streams a document looking for its first `<title>` tag and collects the
/// text up to the next `<` or `>`; binary input and truncation end the scan
/// with whatever was collected.
pub struct TitleExtractorFSM {
    pub reader: StreamReader,
    pub state: TitleParseState,
    pub title: String,
}

impl TitleExtractorFSM {
    pub open spec fn wf(self) -> bool {
        self.reader.wf() && (self.state matches TitleParseState::FindTag) && self.title@.len()
            == 0
    }

    pub fn new(bytes: Vec<u8>) -> (r: Result<TitleExtractorFSM, AppError>)
        ensures
            r matches Ok(f) && f.wf() && f.reader.bytes == bytes && f.reader.pos == 0,
    {
        Ok(TitleExtractorFSM {
            reader: StreamReader::new(bytes),
            state: TitleParseState::FindTag,
            title: String::new(),
        })
    }

    fn find_tag(&mut self) -> (r: Result<bool, AppError>)
        requires
            old(self).reader.wf(),
        ensures
            final(self).reader.wf(),
            final(self).reader.bytes == old(self).reader.bytes,
            final(self).state == old(self).state,
            final(self).title == old(self).title,
            match spec_scan_tag(old(self).reader.bytes@, old(self).reader.pos as int) {
                TagScan::TagAt(p) => r == Ok::<bool, AppError>(true) && final(self).reader.pos
                    == p,
                TagScan::TsEof => r == Ok::<bool, AppError>(false),
                TagScan::TsInvalid => r == Err::<bool, AppError>(AppError::InvalidUtf8),
            },
    {
        loop
            invariant
                self.reader.wf(),
                self.reader.bytes == old(self).reader.bytes,
                self.state == old(self).state,
                self.title == old(self).title,
                spec_scan_tag(old(self).reader.bytes@, old(self).reader.pos as int)
                    == spec_scan_tag(self.reader.bytes@, self.reader.pos as int),
            decreases self.reader.bytes@.len() - self.reader.pos,
        {
            let ghost pre = self.reader.pos as int;
            proof {
                lemma_read_char_advances(self.reader.bytes@, pre);
            }
            match self.reader.read_char() {
                Err(AppError::UnexpectedEof) => {
                    return Ok(false);
                },
                Err(e) => {
                    return Err(e);
                },
                Ok(c) => {
                    if c == '<' {
                        return Ok(true);
                    }
                },
            }
        }
    }

    /// Scans to the end of the input or the first title, returning the
    /// collected text; the empty string where no title occurs.
    pub fn perform(self) -> (r: Result<String, AppError>)
        requires
            self.wf(),
        ensures
            match spec_title_run(self.reader.bytes@, self.reader.pos as int) {
                Ok(t) => r matches Ok(s) && s@ == t,
                Err(e) => r == Err::<String, AppError>(e),
            },
    {
        let ghost g_bytes = self.reader.bytes@;
        let ghost g_run = spec_title_run(self.reader.bytes@, self.reader.pos as int);
        let mut fsm = self;
        #[verifier::loop_isolation(false)]
        loop
            invariant
                fsm.reader.wf(),
                fsm.reader.bytes@ == g_bytes,
                spec_title_run(g_bytes, fsm.reader.pos as int) == g_run,
            decreases g_bytes.len() - fsm.reader.pos,
        {
            let ghost pre_pos = fsm.reader.pos as int;
            proof {
                lemma_scan_tag_bounds(g_bytes, pre_pos);
            }
            match fsm.find_tag() {
                Err(e) => {
                    return Err(e);
                },
                Ok(false) => {
                    proof {
                        assert(spec_scan_tag(g_bytes, pre_pos) == TagScan::TsEof);
                    }
                    return Ok(String::new());
                },
                Ok(true) => {},
            }
            let ghost p_tag = fsm.reader.pos as int;
            proof {
                lemma_search_bounds(g_bytes, p_tag, seq!['t', 'i', 't', 'l', 'e', '>'], '<', 0);
            }
            let title_pat = vec!['t', 'i', 't', 'l', 'e', '>'];
            proof {
                assert(title_pat@ =~= seq!['t', 'i', 't', 'l', 'e', '>']);
            }
            match fsm.reader.read_until_match(title_pat.as_slice(), '<', true) {
                Err(AppError::UnexpectedEof) => {
                    return Ok(String::new());
                },
                Err(e) => {
                    return Err(e);
                },
                Ok(false) => {
                    // not this tag: the cursor is back right after the `<`
                },
                Ok(true) => {
                    let terms = vec!['<', '>'];
                    proof {
                        assert(terms@ =~= seq!['<', '>']);
                    }
                    match fsm.reader.get_until_term(terms.as_slice()) {
                        Err(e) => {
                            return Err(e);
                        },
                        Ok(run) => {
                            return Ok(chars_to_string(&run));
                        },
                    }
                },
            }
        }
    }
}

} // verus!
