//! The streaming array scanner: a buffered lookahead reader over a byte
//! source, and the state machine that walks a JSON array's lifecycle.
//!
//! The reader owns a growable lookahead buffer and a consumed-prefix
//! offset; bytes at `[buffer_offset, buffer.len())` are valid unconsumed
//! lookahead. It finds structural delimiter bytes (array-open,
//! element-separator, array-close) without parsing element contents, and
//! it can itself be read as a byte source - buffered tail first, then the
//! underlying source - so a value decoder can be layered on top with no
//! extra copy.

use vstd::prelude::*;

use crate::entry::{entry_from_value, DecodeProblem, LogEntry};
use crate::json::{decode_first_value, json_prefix, ParsedPrefix, RawOutcome};
use crate::severity::LogSeverity;
use crate::source::{ByteSource, ReadFailure};

verus! {

/// The byte that opens the array.
pub const ARRAY_START: u8 = 91;

/// The byte that separates two elements.
pub const ARRAY_SEP: u8 = 44;

/// The byte that closes the array.
pub const ARRAY_END: u8 = 93;

/// How many bytes one read from the underlying source asks for.
pub const CHUNK_SIZE: usize = 4096;

/// Where in the array's lifecycle a reader stands.
#[derive(Debug, Clone, Copy, PartialEq, Eq, Structural)]
pub enum IterState {
    /// No array-open byte has been consumed yet.
    NotStarted,
    /// Inside the array: just before the first element, or between two.
    Started,
    /// Terminal: the array closed, the stream ended, or a pull failed.
    Finished,
}

/// What advancing to the next element came to.
#[derive(Debug, Clone, Copy, PartialEq, Eq, Structural)]
pub enum DelimOutcome {
    /// A separator was consumed; another element follows.
    Separator,
    /// The array-close byte was consumed; the array ended cleanly.
    Closed,
    /// The stream ended before a separator or the array-close byte.
    Exhausted,
}

/// Why a pull failed.
#[derive(Debug)]
pub enum LogError {
    /// The underlying source failed mid-read.
    Read(ReadFailure),
    /// The stream ended where more input was owed: after the array opened
    /// but before it closed, or inside an element.
    Truncated,
    /// An element's bytes did not decode into a record.
    Decode(DecodeProblem),
}

/// Whether some byte of `s` is among `targets`.
pub open spec fn has_target(s: Seq<u8>, targets: Seq<u8>) -> bool {
    exists|k: int| 0 <= k < s.len() && targets.contains(s[k])
}

/// JSON insignificant whitespace: space, tab, line feed, carriage return.
pub open spec fn is_json_ws(b: u8) -> bool {
    b == 32 || b == 9 || b == 10 || b == 13
}

/// Whether some byte of `s` is the element separator.
pub open spec fn tail_has_separator(s: Seq<u8>) -> bool {
    exists|k: int| 0 <= k < s.len() && s[k] == ARRAY_SEP
}

/// Whether `s` closes the array before any further element: an
/// array-close byte occurs, and no separator does.
pub open spec fn tail_closes_array(s: Seq<u8>) -> bool {
    &&& (forall|k: int| 0 <= k < s.len() ==> s[k] != ARRAY_SEP)
    &&& (exists|k: int| 0 <= k < s.len() && s[k] == ARRAY_END)
}

/// Whether `s` already shows a whole empty array: its first array-open
/// byte, then only whitespace, then an array-close byte.
pub open spec fn tail_shows_empty_array(s: Seq<u8>) -> bool {
    exists|i: int, j: int|
        {
            &&& 0 <= i < j < s.len()
            &&& s[i] == ARRAY_START
            &&& (forall|k: int| 0 <= k < i ==> s[k] != ARRAY_START)
            &&& s[j] == ARRAY_END
            &&& (forall|k: int| i < k < j ==> is_json_ws(s[k]))
        }
}

/// The suffix of `s` past its first element-separator byte.
pub open spec fn past_first_separator(s: Seq<u8>) -> Seq<u8>
    decreases s.len(),
{
    if s.len() == 0 {
        s
    } else if s[0] == ARRAY_SEP {
        s.skip(1)
    } else {
        past_first_separator(s.skip(1))
    }
}

/// The suffix of `s` past its first array-open byte.
pub open spec fn past_first_open(s: Seq<u8>) -> Seq<u8>
    decreases s.len(),
{
    if s.len() == 0 {
        s
    } else if s[0] == ARRAY_START {
        s.skip(1)
    } else {
        past_first_open(s.skip(1))
    }
}

/// The suffix of `s` past its leading whitespace.
pub open spec fn past_leading_ws(s: Seq<u8>) -> Seq<u8>
    decreases s.len(),
{
    if s.len() == 0 {
        s
    } else if is_json_ws(s[0]) {
        past_leading_ws(s.skip(1))
    } else {
        s
    }
}

proof fn lemma_past_first_separator(s: Seq<u8>, f: int)
    requires
        0 <= f < s.len(),
        s[f] == ARRAY_SEP,
        forall|k: int| 0 <= k < f ==> s[k] != ARRAY_SEP,
    ensures
        past_first_separator(s) == s.skip(f + 1),
    decreases f,
{
    if f == 0 {
    } else {
        let t = s.skip(1);
        assert(t[f - 1] == s[f]);
        assert forall|k: int| 0 <= k < f - 1 implies t[k] != ARRAY_SEP by {
            assert(t[k] == s[k + 1]);
        }
        lemma_past_first_separator(t, f - 1);
        assert(t.skip(f) =~= s.skip(f + 1));
    }
}

proof fn lemma_past_first_open(s: Seq<u8>, f: int)
    requires
        0 <= f < s.len(),
        s[f] == ARRAY_START,
        forall|k: int| 0 <= k < f ==> s[k] != ARRAY_START,
    ensures
        past_first_open(s) == s.skip(f + 1),
    decreases f,
{
    if f == 0 {
    } else {
        let t = s.skip(1);
        assert(t[f - 1] == s[f]);
        assert forall|k: int| 0 <= k < f - 1 implies t[k] != ARRAY_START by {
            assert(t[k] == s[k + 1]);
        }
        lemma_past_first_open(t, f - 1);
        assert(t.skip(f) =~= s.skip(f + 1));
    }
}

proof fn lemma_past_leading_ws(s: Seq<u8>, m: int)
    requires
        0 <= m < s.len(),
        !is_json_ws(s[m]),
        forall|k: int| 0 <= k < m ==> is_json_ws(s[k]),
    ensures
        past_leading_ws(s) == s.skip(m),
    decreases m,
{
    if m == 0 {
        assert(s.skip(0) =~= s);
    } else {
        let t = s.skip(1);
        assert(t[m - 1] == s[m]);
        assert forall|k: int| 0 <= k < m - 1 implies is_json_ws(t[k]) by {
            assert(t[k] == s[k + 1]);
        }
        lemma_past_leading_ws(t, m - 1);
        assert(t.skip(m - 1) =~= s.skip(m));
    }
}

/// Whether `s` already shows an array with a first element: its first
/// array-open byte, then whitespace, then a byte that starts an element
/// rather than closing the array.
pub open spec fn tail_opens_element(s: Seq<u8>) -> bool {
    exists|i: int, j: int|
        {
            &&& 0 <= i < j < s.len()
            &&& s[i] == ARRAY_START
            &&& (forall|k: int| 0 <= k < i ==> s[k] != ARRAY_START)
            &&& !is_json_ws(s[j])
            &&& s[j] != ARRAY_END
            &&& (forall|k: int| i < k < j ==> is_json_ws(s[k]))
        }
}

/// Whether `b` occurs in `targets`.
fn byte_in(targets: &Vec<u8>, b: u8) -> (r: bool)
    ensures
        r == targets@.contains(b),
{
    let mut i: usize = 0;
    while i < targets.len()
        invariant
            i <= targets@.len(),
            forall|j: int| 0 <= j < i ==> targets@[j] != b,
        decreases targets@.len() - i,
    {
        if targets[i] == b {
            return true;
        }
        i += 1;
    }
    false
}

/// The first position at or after `start` whose byte is among `targets`.
fn find_target(v: &Vec<u8>, start: usize, targets: &Vec<u8>) -> (r: Option<usize>)
    requires
        start <= v@.len(),
    ensures
        r matches Some(j) ==> start <= j < v@.len() && j < usize::MAX && targets@.contains(
            v@[j as int],
        ) && forall|k: int| start <= k < j ==> !targets@.contains(v@[k]),
        r is None ==> forall|k: int| start <= k < v@.len() ==> !targets@.contains(v@[k]),
{
    let mut i: usize = start;
    while i < v.len()
        invariant
            start <= i <= v@.len(),
            forall|k: int| start <= k < i ==> !targets@.contains(v@[k]),
        decreases v@.len() - i,
    {
        if byte_in(targets, v[i]) {
            return Some(i);
        }
        i += 1;
    }
    None
}

/// The first position at or after `start` whose byte is not whitespace.
fn find_non_ws(v: &Vec<u8>, start: usize) -> (r: Option<usize>)
    requires
        start <= v@.len(),
    ensures
        r matches Some(j) ==> start <= j < v@.len() && j < usize::MAX && !is_json_ws(v@[j as int])
            && forall|k: int| start <= k < j ==> is_json_ws(v@[k]),
        r is None ==> forall|k: int| start <= k < v@.len() ==> is_json_ws(v@[k]),
{
    let mut i: usize = start;
    while i < v.len()
        invariant
            start <= i <= v@.len(),
            forall|k: int| start <= k < i ==> is_json_ws(v@[k]),
        decreases v@.len() - i,
    {
        let b = v[i];
        if !(b == 32 || b == 9 || b == 10 || b == 13) {
            return Some(i);
        }
        i += 1;
    }
    None
}

/// Law: serving a prefix out of the lookahead tail neither duplicates nor
/// drops a byte: what is served, followed by what remains, is exactly the
/// tail there was - so reading everything through the exposure path
/// reproduces the underlying byte sequence.
pub proof fn lemma_exposure_round_trip(tail: Seq<u8>, n: int)
    requires
        0 <= n <= tail.len(),
    ensures
        tail.take(n) + tail.skip(n) == tail,
{
    assert(tail.take(n) + tail.skip(n) =~= tail);
}

/// A streaming reader of log records out of one JSON array.
///
/// Built over a byte source; owns the lookahead buffer, the consumed
/// prefix offset into it, and the array-lifecycle state.
pub struct LogEntryIter<T> {
    /// Lookahead read from the source but not yet consumed past.
    pub buffer: Vec<u8>,
    /// How many leading buffer bytes are already consumed.
    pub buffer_offset: usize,
    /// Where further bytes come from.
    pub inner: T,
    /// Where in the array's lifecycle this reader stands.
    pub state: IterState,
    /// How many more chunks this reader is willing to pull from the
    /// source, over its whole life. It starts astronomically high - no
    /// real dump comes near it - and exists so that every scanning loop
    /// provably stops even over a source that never ends.
    pub read_budget: usize,
}

impl<T> LogEntryIter<T> {
    /// The consumed prefix never runs past the end of the buffer.
    pub open spec fn wf(&self) -> bool {
        self.buffer_offset <= self.buffer@.len()
    }

    /// The unconsumed lookahead: the buffer past the consumed prefix.
    pub open spec fn tail(&self) -> Seq<u8> {
        self.buffer@.skip(self.buffer_offset as int)
    }
}

impl<T: ByteSource> LogEntryIter<T> {
    /// A reader over the given source: empty buffer, before the array.
    pub fn new(inner: T) -> (r: LogEntryIter<T>)
        ensures
            r.wf(),
            r.buffer@.len() == 0,
            r.buffer_offset == 0,
            r.inner == inner,
            r.state == IterState::NotStarted,
            r.read_budget == usize::MAX,
    {
        LogEntryIter {
            buffer: Vec::new(),
            buffer_offset: 0,
            inner,
            state: IterState::NotStarted,
            read_budget: usize::MAX,
        }
    }

    /// The failure reported when the read budget runs out.
    fn budget_failure() -> (r: ReadFailure) {
        ReadFailure { message: "read budget exhausted".to_owned() }
    }

    /// Compaction: discards the consumed prefix, shifting the unconsumed
    /// tail to the buffer's start.
    pub fn trim_until_offset(&mut self)
        requires
            old(self).wf(),
        ensures
            final(self).wf(),
            final(self).buffer@ == old(self).tail(),
            final(self).buffer_offset == 0,
            final(self).state == old(self).state,
            final(self).inner == old(self).inner,
            final(self).read_budget == old(self).read_budget,
    {
        if self.buffer_offset > 0 {
            let mut kept: Vec<u8> = Vec::new();
            let mut i: usize = self.buffer_offset;
            while i < self.buffer.len()
                invariant
                    old(self).wf(),
                    self.buffer@ == old(self).buffer@,
                    self.buffer_offset == old(self).buffer_offset,
                    self.state == old(self).state,
                    self.inner == old(self).inner,
                    old(self).buffer_offset <= i <= self.buffer@.len(),
                    kept@ == old(self).buffer@.subrange(old(self).buffer_offset as int, i as int),
                decreases self.buffer@.len() - i,
            {
                kept.push(self.buffer[i]);
                proof {
                    assert(kept@ =~= old(self).buffer@.subrange(
                        old(self).buffer_offset as int,
                        i + 1,
                    ));
                }
                i += 1;
            }
            self.buffer = kept;
            self.buffer_offset = 0;
            proof {
                assert(self.buffer@ =~= old(self).tail());
            }
        } else {
            proof {
                assert(self.buffer@ =~= old(self).tail());
            }
        }
    }

    /// Stream exposure: serves a read out of the unconsumed tail first;
    /// only with the tail exhausted does the read fall through to the
    /// underlying source.
    pub fn read_exposed(&mut self, max: usize) -> (r: Result<Vec<u8>, ReadFailure>)
        requires
            old(self).wf(),
            max >= 1,
        ensures
            final(self).wf(),
            final(self).state == old(self).state,
            old(self).tail().len() > 0 ==> ({
                let served = if max <= old(self).tail().len() {
                    max as int
                } else {
                    old(self).tail().len() as int
                };
                &&& final(self).buffer@ == old(self).buffer@
                &&& final(self).inner == old(self).inner
                &&& r matches Ok(v) && v@ == old(self).tail().take(served) && final(self).tail()
                    == old(self).tail().skip(served)
            }),
            old(self).tail().len() == 0 ==> final(self).buffer@ == old(self).buffer@ && final(self).buffer_offset == old(self).buffer_offset && (r matches Ok(v) ==> v@.len() <= max),
    {
        let tl = self.buffer.len() - self.buffer_offset;
        if tl > 0 {
            let n = if max <= tl {
                max
            } else {
                tl
            };
            let mut out: Vec<u8> = Vec::new();
            let mut i: usize = 0;
            while i < n
                invariant
                    old(self).wf(),
                    self == old(self),
                    n <= self.buffer@.len() - self.buffer_offset,
                    self.buffer@.len() <= usize::MAX,
                    i <= n,
                    out@ == old(self).tail().take(i as int),
                decreases n - i,
            {
                out.push(self.buffer[self.buffer_offset + i]);
                proof {
                    assert(out@ =~= old(self).tail().take(i + 1));
                }
                i += 1;
            }
            self.buffer_offset = self.buffer_offset + n;
            proof {
                assert(self.tail() =~= old(self).tail().skip(n as int));
            }
            Ok(out)
        } else {
            self.inner.read_chunk(max)
        }
    }

    /// Scans for the next occurrence of one of the `expected` bytes:
    /// through the unconsumed tail first, then through further chunks of
    /// the source, consuming (and discarding) everything up to and
    /// including the matched byte. `None` means the stream ended first.
    pub fn seek_until_byte(&mut self, expected: &Vec<u8>) -> (r: Result<Option<u8>, ReadFailure>)
        requires
            old(self).wf(),
        ensures
            final(self).wf(),
            final(self).state == old(self).state,
            r matches Ok(Some(b)) ==> expected@.contains(b) && 1 <= final(self).buffer_offset
                && final(self).buffer@[final(self).buffer_offset - 1] == b,
            r matches Ok(None) ==> final(self).tail().len() == 0,
            r is Err ==> final(self).tail().len() == 0,
            !has_target(old(self).tail(), expected@) ==> final(self).buffer@.len() <= CHUNK_SIZE,
            has_target(old(self).tail(), expected@) ==> ({
                let f = final(self).buffer_offset as int - old(self).buffer_offset as int - 1;
                &&& final(self).buffer@ == old(self).buffer@
                &&& final(self).inner == old(self).inner
                &&& 0 <= f < old(self).tail().len()
                &&& expected@.contains(old(self).tail()[f])
                &&& (forall|k: int| 0 <= k < f ==> !expected@.contains(old(self).tail()[k]))
                &&& r == Ok::<Option<u8>, ReadFailure>(Some(old(self).tail()[f]))
            }),
    {
        match find_target(&self.buffer, self.buffer_offset, expected) {
            Some(j) => {
                let b = self.buffer[j];
                self.buffer_offset = j + 1;
                proof {
                    let off = old(self).buffer_offset as int;
                    assert(old(self).tail()[j - off] == old(self).buffer@[j as int]);
                    assert forall|k: int| 0 <= k < j - off implies !expected@.contains(
                        old(self).tail()[k],
                    ) by {
                        assert(old(self).tail()[k] == old(self).buffer@[off + k]);
                    }
                }
                return Ok(Some(b));
            },
            None => {
                proof {
                    let off = old(self).buffer_offset as int;
                    assert forall|k: int| 0 <= k < old(self).tail().len() implies !expected@.contains(
                        old(self).tail()[k],
                    ) by {
                        assert(old(self).tail()[k] == old(self).buffer@[off + k]);
                    }
                }
            },
        }
        // Nothing sought is in the lookahead; what was scanned is dead
        // weight, so drop it before pulling further chunks.
        self.buffer = Vec::new();
        self.buffer_offset = 0;
        loop
            invariant
                self.wf(),
                self.state == old(self).state,
                self.buffer_offset == 0,
                self.buffer@.len() == 0,
                !has_target(old(self).tail(), expected@),
            decreases self.read_budget,
        {
            let chunk = match self.inner.read_chunk(CHUNK_SIZE) {
                Ok(c) => c,
                Err(e) => {
                    return Err(e);
                },
            };
            if chunk.len() == 0 {
                return Ok(None);
            }
            match find_target(&chunk, 0, expected) {
                Some(j) => {
                    let b = chunk[j];
                    self.buffer = chunk;
                    self.buffer_offset = j + 1;
                    return Ok(Some(b));
                },
                None => {},
            }
            if self.read_budget == 0 {
                return Err(Self::budget_failure());
            }
            self.read_budget = self.read_budget - 1;
        }
    }

    /// Scans (discarding everything) for the array-open byte. `true`
    /// means the reader now stands just inside the array; `false` means
    /// the stream ended without an array ever opening.
    pub fn seek_until_start(&mut self) -> (r: Result<bool, ReadFailure>)
        requires
            old(self).wf(),
        ensures
            final(self).wf(),
            final(self).state == old(self).state,
            r matches Ok(true) ==> 1 <= final(self).buffer_offset && final(self).buffer@[final(self).buffer_offset - 1] == ARRAY_START,
            r matches Ok(false) ==> final(self).tail().len() == 0,
            r is Err ==> final(self).tail().len() == 0,
            has_target(old(self).tail(), seq![ARRAY_START]) ==> ({
                let f = final(self).buffer_offset as int - old(self).buffer_offset as int - 1;
                &&& final(self).buffer@ == old(self).buffer@
                &&& final(self).inner == old(self).inner
                &&& 0 <= f < old(self).tail().len()
                &&& old(self).tail()[f] == ARRAY_START
                &&& (forall|k: int| 0 <= k < f ==> old(self).tail()[k] != ARRAY_START)
                &&& r == Ok::<bool, ReadFailure>(true)
            }),
    {
        let mut targets: Vec<u8> = Vec::new();
        targets.push(ARRAY_START);
        proof {
            assert(targets@ =~= seq![ARRAY_START]);
        }
        let found = self.seek_until_byte(&targets);
        proof {
            if has_target(old(self).tail(), seq![ARRAY_START]) {
                let f = self.buffer_offset as int - old(self).buffer_offset as int - 1;
                assert(seq![ARRAY_START][0] == ARRAY_START);
                assert(old(self).tail()[f] == ARRAY_START);
                assert forall|k: int| 0 <= k < f implies old(self).tail()[k] != ARRAY_START by {
                    assert(!seq![ARRAY_START].contains(old(self).tail()[k]));
                }
            }
        }
        match found {
            Ok(Some(_)) => Ok(true),
            Ok(None) => Ok(false),
            Err(e) => Err(e),
        }
    }

    /// Advances from the end of one element to the start of the next: a
    /// separator already in the lookahead tail is taken there; otherwise
    /// the buffer is compacted and the scan reads on for a separator or
    /// the array-close byte.
    pub fn seek_until_delim(&mut self) -> (r: Result<DelimOutcome, ReadFailure>)
        requires
            old(self).wf(),
        ensures
            final(self).wf(),
            final(self).state == old(self).state,
            r matches Ok(o) ==> (o is Separator ==> 1 <= final(self).buffer_offset && final(self).buffer@[final(self).buffer_offset - 1] == ARRAY_SEP),
            r matches Ok(o) ==> (o is Closed ==> 1 <= final(self).buffer_offset && final(self).buffer@[final(self).buffer_offset - 1] == ARRAY_END),
            r matches Ok(o) ==> (o is Exhausted ==> final(self).tail().len() == 0),
            r is Err ==> final(self).tail().len() == 0,
            tail_closes_array(old(self).tail()) ==> ({
                &&& final(self).buffer@ == old(self).tail()
                &&& 1 <= final(self).buffer_offset <= old(self).tail().len()
                &&& old(self).tail()[final(self).buffer_offset - 1] == ARRAY_END
                &&& r == Ok::<DelimOutcome, ReadFailure>(DelimOutcome::Closed)
            }),
            tail_has_separator(old(self).tail()) ==> ({
                let f = final(self).buffer_offset as int - old(self).buffer_offset as int - 1;
                &&& final(self).buffer@ == old(self).buffer@
                &&& final(self).inner == old(self).inner
                &&& 0 <= f < old(self).tail().len()
                &&& old(self).tail()[f] == ARRAY_SEP
                &&& (forall|k: int| 0 <= k < f ==> old(self).tail()[k] != ARRAY_SEP)
                &&& r == Ok::<DelimOutcome, ReadFailure>(DelimOutcome::Separator)
            }),
    {
        let mut sep: Vec<u8> = Vec::new();
        sep.push(ARRAY_SEP);
        match find_target(&self.buffer, self.buffer_offset, &sep) {
            Some(j) => {
                let off: usize = self.buffer_offset;
                self.buffer_offset = j + 1;
                proof {
                    assert(sep@.contains(old(self).buffer@[j as int]));
                    assert(sep@[0] == ARRAY_SEP);
                    assert(old(self).tail()[j - off] == old(self).buffer@[j as int]);
                    assert forall|k: int| 0 <= k < j - off implies old(self).tail()[k]
                        != ARRAY_SEP by {
                        assert(old(self).tail()[k] == old(self).buffer@[off + k]);
                    }
                }
                return Ok(DelimOutcome::Separator);
            },
            None => {
                proof {
                    let off = old(self).buffer_offset as int;
                    assert forall|k: int| 0 <= k < old(self).tail().len() implies old(
                        self,
                    ).tail()[k] != ARRAY_SEP by {
                        assert(old(self).tail()[k] == old(self).buffer@[off + k]);
                        assert(!sep@.contains(old(self).buffer@[off + k]));
                        assert(sep@[0] == ARRAY_SEP);
                    }
                }
            },
        }
        // A new delimiter must be discovered: compact first, so consumed
        // bytes never pile up across elements.
        self.trim_until_offset();
        let ghost mid = *self;
        proof {
            assert(mid.tail() =~= old(self).tail());
        }
        let mut targets: Vec<u8> = Vec::new();
        targets.push(ARRAY_SEP);
        targets.push(ARRAY_END);
        let sought = self.seek_until_byte(&targets);
        proof {
            assert(targets@[0] == ARRAY_SEP);
            assert(targets@[1] == ARRAY_END);
            if tail_closes_array(old(self).tail()) {
                let w = choose|k: int|
                    0 <= k < old(self).tail().len() && old(self).tail()[k] == ARRAY_END;
                assert(mid.tail()[w] == ARRAY_END);
                assert(targets@.contains(mid.tail()[w]));
                assert(has_target(mid.tail(), targets@));
                let f = self.buffer_offset as int - mid.buffer_offset as int - 1;
                assert(targets@.contains(mid.tail()[f]));
                assert(old(self).tail()[f] != ARRAY_SEP);
                assert(mid.tail()[f] == ARRAY_END);
            }
        }
        match sought {
            Ok(Some(b)) => {
                if b == ARRAY_SEP {
                    Ok(DelimOutcome::Separator)
                } else {
                    Ok(DelimOutcome::Closed)
                }
            },
            Ok(None) => Ok(DelimOutcome::Exhausted),
            Err(e) => Err(e),
        }
    }

    /// Positions the reader at the next byte that is not JSON whitespace,
    /// reading further chunks as needed, and peeks at it without
    /// consuming it. `None` means the stream ended first.
    fn peek_past_ws(&mut self) -> (r: Result<Option<u8>, ReadFailure>)
        requires
            old(self).wf(),
        ensures
            final(self).wf(),
            final(self).state == old(self).state,
            r matches Ok(Some(b)) ==> !is_json_ws(b) && final(self).tail().len() >= 1 && final(self).tail()[0] == b,
            r matches Ok(Some(b)) ==> final(self).buffer_offset < usize::MAX,
            r matches Ok(None) ==> final(self).tail().len() == 0,
            (exists|k: int|
                0 <= k < old(self).tail().len() && !is_json_ws(old(self).tail()[k])) ==> ({
                let f = final(self).buffer_offset as int - old(self).buffer_offset as int;
                &&& final(self).buffer@ == old(self).buffer@
                &&& final(self).inner == old(self).inner
                &&& 0 <= f < old(self).tail().len()
                &&& !is_json_ws(old(self).tail()[f])
                &&& (forall|k: int| 0 <= k < f ==> is_json_ws(old(self).tail()[k]))
                &&& r == Ok::<Option<u8>, ReadFailure>(Some(old(self).tail()[f]))
            }),
    {
        match find_non_ws(&self.buffer, self.buffer_offset) {
            Some(j) => {
                let b = self.buffer[j];
                self.buffer_offset = j;
                proof {
                    let off = old(self).buffer_offset as int;
                    assert(self.tail()[0] == self.buffer@[j as int]);
                    assert(old(self).tail()[j - off] == old(self).buffer@[j as int]);
                    assert forall|k: int| 0 <= k < j - off implies is_json_ws(
                        old(self).tail()[k],
                    ) by {
                        assert(old(self).tail()[k] == old(self).buffer@[off + k]);
                    }
                }
                return Ok(Some(b));
            },
            None => {
                proof {
                    let off = old(self).buffer_offset as int;
                    assert forall|k: int| 0 <= k < old(self).tail().len() implies is_json_ws(
                        old(self).tail()[k],
                    ) by {
                        assert(old(self).tail()[k] == old(self).buffer@[off + k]);
                    }
                }
            },
        }
        // Only whitespace is left in the lookahead; drop it and read on.
        self.buffer = Vec::new();
        self.buffer_offset = 0;
        loop
            invariant
                self.wf(),
                self.state == old(self).state,
                self.buffer_offset == 0,
                self.buffer@.len() == 0,
                forall|k: int| 0 <= k < old(self).tail().len() ==> is_json_ws(old(self).tail()[k]),
            decreases self.read_budget,
        {
            let chunk = match self.inner.read_chunk(CHUNK_SIZE) {
                Ok(c) => c,
                Err(e) => {
                    return Err(e);
                },
            };
            if chunk.len() == 0 {
                return Ok(None);
            }
            match find_non_ws(&chunk, 0) {
                Some(j) => {
                    let b = chunk[j];
                    self.buffer = chunk;
                    self.buffer_offset = j;
                    proof {
                        assert(self.tail()[0] == self.buffer@[j as int]);
                    }
                    return Ok(Some(b));
                },
                None => {},
            }
            if self.read_budget == 0 {
                return Err(Self::budget_failure());
            }
            self.read_budget = self.read_budget - 1;
        }
    }

    /// Decodes one element: parses a single complete JSON value out of
    /// the lookahead (reading further chunks until the value completes)
    /// and turns it into a record. The stream ending before the value
    /// completes is a `Truncated` error - a cut-off trailing element is
    /// surfaced, never silently dropped.
    pub fn extract_single_value(&mut self) -> (r: Result<LogEntry, LogError>)
        requires
            old(self).wf(),
        ensures
            final(self).wf(),
            final(self).state == old(self).state,
            r matches Ok(e) ==> e.severity != LogSeverity::Alert,
            json_prefix(old(self).tail()) matches ParsedPrefix::Complete(n) ==> ({
                &&& final(self).buffer@ == old(self).buffer@
                &&& final(self).inner == old(self).inner
                &&& final(self).buffer_offset as int == old(self).buffer_offset + n
                &&& !(r matches Err(LogError::Truncated))
                &&& !(r matches Err(LogError::Read(_)))
                &&& (r matches Err(e) ==> e matches LogError::Decode(p) && !(p is Syntax))
            }),
            json_prefix(old(self).tail()) is Malformed ==> ({
                &&& final(self).buffer@ == old(self).buffer@
                &&& final(self).inner == old(self).inner
                &&& final(self).buffer_offset == old(self).buffer_offset
                &&& r matches Err(e) && e matches LogError::Decode(p) && p is Syntax
            }),
    {
        loop
            invariant
                self.wf(),
                self.state == old(self).state,
                !(json_prefix(old(self).tail()) is Incomplete) ==> *self == *old(self),
            decreases self.read_budget,
        {
            match decode_first_value(&self.buffer, self.buffer_offset) {
                RawOutcome::Value(v, n) => {
                    let end = self.buffer.len();
                    proof {
                        assert(self.buffer_offset + n <= end);
                    }
                    self.buffer_offset = self.buffer_offset + n;
                    return match entry_from_value(v) {
                        Ok(e) => Ok(e),
                        Err(p) => Err(LogError::Decode(p)),
                    };
                },
                RawOutcome::NeedMore => {
                    // The decoder ran out of bytes: compact, then grow the
                    // lookahead by one chunk and try again.
                    self.trim_until_offset();
                    match self.inner.read_chunk(CHUNK_SIZE) {
                        Ok(c) => {
                            if c.len() == 0 {
                                return Err(LogError::Truncated);
                            }
                            let mut c = c;
                            self.buffer.append(&mut c);
                        },
                        Err(f) => {
                            return Err(LogError::Read(f));
                        },
                    }
                    if self.read_budget == 0 {
                        return Err(LogError::Read(Self::budget_failure()));
                    }
                    self.read_budget = self.read_budget - 1;
                },
                RawOutcome::Invalid(msg) => {
                    return Err(LogError::Decode(DecodeProblem::Syntax(msg)));
                },
            }
        }
    }

    /// One element pull in `Started` state: decode, then compact away
    /// what the element consumed; a failed decode finishes the reader.
    fn pull_element(&mut self) -> (r: Option<Result<LogEntry, LogError>>)
        requires
            old(self).wf(),
            old(self).state == IterState::Started,
        ensures
            final(self).wf(),
            r is Some,
            r matches Some(Ok(e)) ==> final(self).state == IterState::Started && e.severity
                != LogSeverity::Alert,
            r matches Some(Err(_)) ==> final(self).state == IterState::Finished,
            json_prefix(old(self).tail()) is Complete ==> !(r matches Some(
                Err(LogError::Truncated),
            )) && !(r matches Some(Err(LogError::Read(_)))) && (r matches Some(Err(e)) ==> e
                matches LogError::Decode(p) && !(p is Syntax)),
    {
        match self.extract_single_value() {
            Ok(e) => {
                self.trim_until_offset();
                Some(Ok(e))
            },
            Err(er) => {
                self.state = IterState::Finished;
                Some(Err(er))
            },
        }
    }

    /// One step of the iteration: the next record, an error, or the end.
    ///
    /// `None` is the clean end of the sequence, and always leaves the
    /// reader `Finished`; a `Finished` reader yields `None` forever and
    /// is not touched. An error also finishes the reader: after any
    /// error, no further element is produced.
    pub fn next_entry(&mut self) -> (r: Option<Result<LogEntry, LogError>>)
        requires
            old(self).wf(),
        ensures
            final(self).wf(),
            old(self).state == IterState::Finished ==> r is None && *final(self) == *old(self),
            r is None ==> final(self).state == IterState::Finished,
            r matches Some(Ok(e)) ==> final(self).state == IterState::Started && old(self).state
                != IterState::Finished && e.severity != LogSeverity::Alert,
            r matches Some(Err(_)) ==> final(self).state == IterState::Finished && old(self).state
                != IterState::Finished,
            old(self).state == IterState::NotStarted && tail_shows_empty_array(old(self).tail())
                ==> r is None,
            old(self).state == IterState::NotStarted && tail_opens_element(old(self).tail()) ==> r
                is Some,
            old(self).state == IterState::Started && tail_closes_array(old(self).tail()) ==> r
                is None,
            old(self).state == IterState::Started && tail_has_separator(old(self).tail()) ==> r
                is Some,
            old(self).state == IterState::Started && tail_has_separator(old(self).tail())
                && json_prefix(past_first_separator(old(self).tail())) is Complete ==> !(r matches
            Some(Err(LogError::Truncated))) && !(r matches Some(Err(LogError::Read(_)))) && (
            r matches Some(Err(e)) ==> e matches LogError::Decode(p) && !(p is Syntax)),
            old(self).state == IterState::NotStarted && tail_opens_element(old(self).tail())
                && json_prefix(past_leading_ws(past_first_open(old(self).tail()))) is Complete
                ==> !(r matches Some(Err(LogError::Truncated))) && !(r matches Some(
                Err(LogError::Read(_)),
            )) && (r matches Some(Err(e)) ==> e matches LogError::Decode(p) && !(p is Syntax)),
    {
        match self.state {
            IterState::NotStarted => {
                let st = self.seek_until_start();
                proof {
                    if tail_shows_empty_array(old(self).tail()) {
                        let t0 = old(self).tail();
                        let (i, j) = choose|i: int, j: int|
                            {
                                &&& 0 <= i < j < t0.len()
                                &&& t0[i] == ARRAY_START
                                &&& (forall|k: int| 0 <= k < i ==> t0[k] != ARRAY_START)
                                &&& t0[j] == ARRAY_END
                                &&& (forall|k: int| i < k < j ==> is_json_ws(t0[k]))
                            };
                        assert(seq![ARRAY_START][0] == ARRAY_START);
                        assert(seq![ARRAY_START].contains(t0[i]));
                        assert(has_target(t0, seq![ARRAY_START]));
                    }
                    if tail_opens_element(old(self).tail()) {
                        let t0 = old(self).tail();
                        let (i, j) = choose|i: int, j: int|
                            {
                                &&& 0 <= i < j < t0.len()
                                &&& t0[i] == ARRAY_START
                                &&& (forall|k: int| 0 <= k < i ==> t0[k] != ARRAY_START)
                                &&& !is_json_ws(t0[j])
                                &&& t0[j] != ARRAY_END
                                &&& (forall|k: int| i < k < j ==> is_json_ws(t0[k]))
                            };
                        assert(seq![ARRAY_START][0] == ARRAY_START);
                        assert(seq![ARRAY_START].contains(t0[i]));
                        assert(has_target(t0, seq![ARRAY_START]));
                    }
                }
                match st {
                    Ok(true) => {
                        self.state = IterState::Started;
                        let ghost mid = *self;
                        // An empty array closes right after it opens; the
                        // stream ending here instead is a truncation.
                        let pk = self.peek_past_ws();
                        proof {
                            if tail_shows_empty_array(old(self).tail()) {
                                let t0 = old(self).tail();
                                let (i, j) = choose|i: int, j: int|
                                    {
                                        &&& 0 <= i < j < t0.len()
                                        &&& t0[i] == ARRAY_START
                                        &&& (forall|k: int| 0 <= k < i ==> t0[k] != ARRAY_START)
                                        &&& t0[j] == ARRAY_END
                                        &&& (forall|k: int| i < k < j ==> is_json_ws(t0[k]))
                                    };
                                // the scan stopped at the first array-open
                                // byte, which is the chosen one
                                let f = mid.buffer_offset as int - old(self).buffer_offset as int
                                    - 1;
                                assert(t0[f] == ARRAY_START);
                                if f < i {
                                    assert(t0[f] != ARRAY_START);
                                }
                                if i < f {
                                    assert(t0[i] != ARRAY_START);
                                }
                                assert(f == i);
                                assert(mid.tail().len() == t0.len() - i - 1);
                                assert forall|k: int| 0 <= k < mid.tail().len() implies mid.tail()[k]
                                    == t0[i + 1 + k] by {
                                    assert(mid.tail()[k] == mid.buffer@[mid.buffer_offset + k]);
                                    assert(t0[i + 1 + k] == old(self).buffer@[old(
                                        self,
                                    ).buffer_offset + i + 1 + k]);
                                }
                                // the close byte is the first thing past the
                                // open that is not whitespace
                                assert(mid.tail()[j - i - 1] == t0[j]);
                                assert(!is_json_ws(ARRAY_END));
                                assert(exists|k: int|
                                    0 <= k < mid.tail().len() && !is_json_ws(mid.tail()[k]));
                                let f2 = self.buffer_offset as int - mid.buffer_offset as int;
                                if f2 < j - i - 1 {
                                    assert(is_json_ws(t0[i + 1 + f2]));
                                    assert(mid.tail()[f2] == t0[i + 1 + f2]);
                                }
                                if j - i - 1 < f2 {
                                    assert(is_json_ws(mid.tail()[j - i - 1]));
                                }
                                assert(f2 == j - i - 1);
                                assert(pk == Ok::<Option<u8>, ReadFailure>(Some(ARRAY_END)));
                            }
                            if tail_opens_element(old(self).tail()) {
                                let t0 = old(self).tail();
                                let (i, j) = choose|i: int, j: int|
                                    {
                                        &&& 0 <= i < j < t0.len()
                                        &&& t0[i] == ARRAY_START
                                        &&& (forall|k: int| 0 <= k < i ==> t0[k] != ARRAY_START)
                                        &&& !is_json_ws(t0[j])
                                        &&& t0[j] != ARRAY_END
                                        &&& (forall|k: int| i < k < j ==> is_json_ws(t0[k]))
                                    };
                                let f = mid.buffer_offset as int - old(self).buffer_offset as int
                                    - 1;
                                assert(t0[f] == ARRAY_START);
                                if f < i {
                                    assert(t0[f] != ARRAY_START);
                                }
                                if i < f {
                                    assert(t0[i] != ARRAY_START);
                                }
                                assert(f == i);
                                assert(mid.tail().len() == t0.len() - i - 1);
                                assert forall|k: int| 0 <= k < mid.tail().len() implies mid.tail()[k]
                                    == t0[i + 1 + k] by {
                                    assert(mid.tail()[k] == mid.buffer@[mid.buffer_offset + k]);
                                    assert(t0[i + 1 + k] == old(self).buffer@[old(
                                        self,
                                    ).buffer_offset + i + 1 + k]);
                                }
                                assert(mid.tail()[j - i - 1] == t0[j]);
                                assert(exists|k: int|
                                    0 <= k < mid.tail().len() && !is_json_ws(mid.tail()[k]));
                                let f2 = self.buffer_offset as int - mid.buffer_offset as int;
                                if f2 < j - i - 1 {
                                    assert(is_json_ws(t0[i + 1 + f2]));
                                    assert(mid.tail()[f2] == t0[i + 1 + f2]);
                                }
                                if j - i - 1 < f2 {
                                    assert(is_json_ws(mid.tail()[j - i - 1]));
                                }
                                assert(f2 == j - i - 1);
                                assert(pk == Ok::<Option<u8>, ReadFailure>(Some(t0[j])));
                                // the tail now starts at the element's
                                // first byte: past the open, past the
                                // whitespace
                                lemma_past_first_open(t0, i);
                                let suffix = t0.skip(i + 1);
                                assert(suffix.len() == t0.len() - i - 1);
                                assert forall|k: int| 0 <= k < j - i - 1 implies is_json_ws(
                                    suffix[k],
                                ) by {
                                    assert(suffix[k] == t0[i + 1 + k]);
                                }
                                assert(suffix[j - i - 1] == t0[j]);
                                lemma_past_leading_ws(suffix, j - i - 1);
                                assert(suffix.skip(j - i - 1) =~= t0.skip(j));
                                assert(self.tail().len() == t0.len() - j);
                                assert forall|k: int| 0 <= k < self.tail().len() implies self.tail()[k]
                                    == t0[j + k] by {
                                    assert(self.tail()[k] == self.buffer@[self.buffer_offset + k]);
                                    assert(t0[j + k] == old(self).buffer@[old(self).buffer_offset
                                        + j + k]);
                                }
                                assert(self.tail() =~= t0.skip(j));
                                assert(self.tail() == past_leading_ws(past_first_open(t0)));
                            }
                        }
                        match pk {
                            Ok(Some(b)) => {
                                if b == ARRAY_END {
                                    self.buffer_offset = self.buffer_offset + 1;
                                    self.state = IterState::Finished;
                                    None
                                } else {
                                    self.pull_element()
                                }
                            },
                            Ok(None) => {
                                self.state = IterState::Finished;
                                Some(Err(LogError::Truncated))
                            },
                            Err(f) => {
                                self.state = IterState::Finished;
                                Some(Err(LogError::Read(f)))
                            },
                        }
                    },
                    Ok(false) => {
                        // The stream ended with no array ever opening:
                        // an empty sequence, not an error.
                        self.state = IterState::Finished;
                        None
                    },
                    Err(f) => {
                        self.state = IterState::Finished;
                        Some(Err(LogError::Read(f)))
                    },
                }
            },
            IterState::Started => {
                let advanced = self.seek_until_delim();
                proof {
                    if tail_has_separator(old(self).tail()) {
                        let t0 = old(self).tail();
                        let f = self.buffer_offset as int - old(self).buffer_offset as int - 1;
                        // the scan consumed exactly through the first
                        // separator, so the tail now starts past it
                        lemma_past_first_separator(t0, f);
                        assert(self.tail().len() == t0.len() - f - 1);
                        assert forall|k: int| 0 <= k < self.tail().len() implies self.tail()[k]
                            == t0[f + 1 + k] by {
                            assert(self.tail()[k] == self.buffer@[self.buffer_offset + k]);
                            assert(t0[f + 1 + k] == old(self).buffer@[old(self).buffer_offset + f
                                + 1 + k]);
                        }
                        assert(self.tail() =~= t0.skip(f + 1));
                        assert(self.tail() == past_first_separator(t0));
                    }
                }
                match advanced {
                    Ok(DelimOutcome::Separator) => self.pull_element(),
                    Ok(DelimOutcome::Closed) => {
                        self.state = IterState::Finished;
                        None
                    },
                    Ok(DelimOutcome::Exhausted) => {
                        // The array never closed: a truncation, never a
                        // silently short but successful sequence.
                        self.state = IterState::Finished;
                        Some(Err(LogError::Truncated))
                    },
                    Err(f) => {
                        self.state = IterState::Finished;
                        Some(Err(LogError::Read(f)))
                    },
                }
            },
            IterState::Finished => None,
        }
    }
}

impl<T: ByteSource> ByteSource for LogEntryIter<T> {
    /// The reader's own stream exposure, as a byte source in its own
    /// right: the unconsumed tail first, then the underlying source.
    fn read_chunk(&mut self, max: usize) -> (r: Result<Vec<u8>, ReadFailure>) {
        if self.buffer_offset > self.buffer.len() {
            // Unreachable for any reader this crate builds; the trait
            // cannot require well-formedness, so serve nothing rather
            // than read out of bounds.
            return Ok(Vec::new());
        }
        self.read_exposed(max)
    }
}

} // verus!
