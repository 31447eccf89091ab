//! Cutting a byte stream into batches of whole lines.
//!
//! A buffered stream hands out its bytes in pieces of arbitrary size. A
//! [`LineReader`] is fed those pieces one after the other and says how many
//! bytes of each belong to the batch: everything up to and including the
//! newline that completes the wanted number of lines, or everything there is
//! when the stream ends before that.
use vstd::prelude::*;
use vstd::slice::slice_subrange;

verus! {

/// The byte that ends a line.
pub const NEWLINE: u8 = 0x0A;

/// The number of lines in a batch, unless the caller asks for another.
pub const DEFAULT_LINES_PER_BATCH: usize = 10_485_760;

/// The number of bytes that a line is expected to have, for sizing buffers.
pub const EXPECTED_BYTES_PER_LINE: usize = 50;

/// The number of lines in a batch: what the caller asks for, or
/// [`DEFAULT_LINES_PER_BATCH`].
pub fn lines_per_batch(chunk_size: Option<usize>) -> (lines: usize)
    ensures
        lines == match chunk_size {
            Some(lines) => lines,
            None => DEFAULT_LINES_PER_BATCH,
        },
{
    match chunk_size {
        Some(lines) => lines,
        None => DEFAULT_LINES_PER_BATCH,
    }
}

/// The number of bytes that a batch of `lines` lines is expected to have:
/// [`EXPECTED_BYTES_PER_LINE`] for each line, or `None` where that number does
/// not fit into `usize`.
pub fn batch_capacity(lines: usize) -> (capacity: Option<usize>)
    ensures
        capacity == if lines * EXPECTED_BYTES_PER_LINE <= usize::MAX {
            Some((lines * EXPECTED_BYTES_PER_LINE) as usize)
        } else {
            None
        },
{
    lines.checked_mul(EXPECTED_BYTES_PER_LINE)
}

/// `memchr::memchr` returns the index of the first byte of `haystack` that
/// equals `needle`, or `None` when no byte does.
pub assume_specification[ memchr::memchr ](needle: u8, haystack: &[u8]) -> (found: Option<usize>)
    ensures
        match found {
            Some(i) => {
                &&& i < haystack@.len()
                &&& haystack@[i as int] == needle
                &&& forall|j: int| 0 <= j < i ==> haystack@[j] != needle
            },
            None => forall|j: int| 0 <= j < haystack@.len() ==> haystack@[j] != needle,
        },
;

/// The number of newline bytes in `s`.
pub open spec fn count_newlines(s: Seq<u8>) -> nat
    decreases s.len(),
{
    if s.len() == 0 {
        0
    } else {
        count_newlines(s.drop_last()) + if s.last() == NEWLINE {
            1nat
        } else {
            0nat
        }
    }
}

/// How many lines are still wanted after a newline has been seen. A count of
/// `0` stands for "no limit" and stays `0`.
pub open spec fn after_newline(wanted: nat) -> nat {
    if wanted == 0 {
        0
    } else {
        (wanted - 1) as nat
    }
}

/// The number of leading bytes of `s` that belong to a batch of `wanted` lines:
/// the bytes up to and including the newline that ends line number `wanted`, or
/// all of `s` when it holds fewer newlines than that. With `wanted == 0` there
/// is no limit and all of `s` is taken.
pub open spec fn chunk_len(s: Seq<u8>, wanted: nat) -> nat
    decreases s.len(),
{
    if s.len() == 0 {
        0
    } else if s[0] != NEWLINE {
        1 + chunk_len(s.drop_first(), wanted)
    } else if wanted == 1 {
        1
    } else {
        1 + chunk_len(s.drop_first(), after_newline(wanted))
    }
}

/// Whether `s` holds the newline that completes a batch of `wanted` lines.
pub open spec fn completes(s: Seq<u8>, wanted: nat) -> bool {
    wanted >= 1 && count_newlines(s) >= wanted
}

/// The lines still wanted once all of `s` has been taken without completing
/// the batch.
pub open spec fn still_wanted(s: Seq<u8>, wanted: nat) -> nat {
    if wanted == 0 {
        0
    } else {
        (wanted - count_newlines(s)) as nat
    }
}

/// Counting newlines from the front: the first byte, then the rest.
pub proof fn lemma_count_newlines_front(s: Seq<u8>)
    requires
        s.len() > 0,
    ensures
        count_newlines(s) == count_newlines(s.drop_first()) + if s[0] == NEWLINE {
            1nat
        } else {
            0nat
        },
    decreases s.len(),
{
    if s.len() == 1 {
        assert(s.drop_last() =~= s.drop_first());
    } else {
        lemma_count_newlines_front(s.drop_last());
        assert(s.drop_last().drop_first() =~= s.drop_first().drop_last());
    }
}

/// Newlines add up over concatenation.
pub proof fn lemma_count_newlines_concat(a: Seq<u8>, b: Seq<u8>)
    ensures
        count_newlines(a + b) == count_newlines(a) + count_newlines(b),
    decreases b.len(),
{
    if b.len() > 0 {
        lemma_count_newlines_concat(a, b.drop_last());
        assert((a + b).drop_last() =~= a + b.drop_last());
    }
}

/// A stretch without any newline holds none.
pub proof fn lemma_count_newlines_none(s: Seq<u8>)
    requires
        forall|j: int| 0 <= j < s.len() ==> s[j] != NEWLINE,
    ensures
        count_newlines(s) == 0,
    decreases s.len(),
{
    if s.len() > 0 {
        lemma_count_newlines_none(s.drop_last());
    }
}

/// What [`chunk_len`] cuts off: never more than there is; when the batch is
/// completed, a prefix that ends in a newline and holds exactly `wanted`
/// newlines; otherwise everything.
pub proof fn lemma_chunk_len_cut(s: Seq<u8>, wanted: nat)
    ensures
        chunk_len(s, wanted) <= s.len(),
        completes(s, wanted) ==> {
            &&& 1 <= chunk_len(s, wanted)
            &&& s[chunk_len(s, wanted) - 1] == NEWLINE
            &&& count_newlines(s.take(chunk_len(s, wanted) as int)) == wanted
        },
        !completes(s, wanted) ==> chunk_len(s, wanted) == s.len(),
    decreases s.len(),
{
    if s.len() > 0 {
        lemma_count_newlines_front(s);
        let rest = s.drop_first();
        let next = if s[0] == NEWLINE {
            after_newline(wanted)
        } else {
            wanted
        };
        if s[0] == NEWLINE && wanted == 1 {
            assert(count_newlines(s.take(1).drop_last()) == 0);
        } else {
            lemma_chunk_len_cut(rest, next);
            let k = chunk_len(rest, next) as int;
            if completes(s, wanted) {
                lemma_count_newlines_front(s.take(k + 1));
                assert(s.take(k + 1).drop_first() =~= rest.take(k));
            }
        }
    }
}

/// No shorter prefix completes the batch: every proper prefix of what
/// [`chunk_len`] cuts off holds fewer than `wanted` newlines.
pub proof fn lemma_chunk_len_least(s: Seq<u8>, wanted: nat, k: int)
    requires
        wanted >= 1,
        0 <= k < chunk_len(s, wanted),
    ensures
        k < s.len(),
        count_newlines(s.take(k)) < wanted,
    decreases s.len(),
{
    lemma_chunk_len_cut(s, wanted);
    if k > 0 {
        let rest = s.drop_first();
        let next = if s[0] == NEWLINE {
            after_newline(wanted)
        } else {
            wanted
        };
        lemma_count_newlines_front(s.take(k));
        assert(s.take(k).drop_first() =~= rest.take(k - 1));
        if next >= 1 {
            lemma_chunk_len_least(rest, next, k - 1);
        }
    }
}

/// A stream may be fed in pieces: cutting `a` and then, if `a` did not complete
/// the batch, cutting `b` for the lines still wanted, takes exactly the bytes
/// that cutting `a + b` at once takes.
pub proof fn lemma_chunk_len_concat(a: Seq<u8>, b: Seq<u8>, wanted: nat)
    ensures
        completes(a, wanted) ==> chunk_len(a + b, wanted) == chunk_len(a, wanted),
        !completes(a, wanted) ==> chunk_len(a + b, wanted) == a.len() + chunk_len(
            b,
            still_wanted(a, wanted),
        ),
    decreases a.len(),
{
    if a.len() > 0 {
        lemma_count_newlines_front(a);
        let next = if a[0] == NEWLINE {
            after_newline(wanted)
        } else {
            wanted
        };
        assert((a + b).drop_first() =~= a.drop_first() + b);
        if !(a[0] == NEWLINE && wanted == 1) {
            lemma_chunk_len_concat(a.drop_first(), b, next);
        }
    }
}

/// The state of one batch that is being read: how many lines are still wanted
/// (`0` for no limit), how many bytes have been taken so far, and whether the
/// batch is complete.
pub struct LineReaderView {
    pub wanted: nat,
    pub read: nat,
    pub done: bool,
}

impl LineReaderView {
    /// The state before anything has been fed.
    pub open spec fn start(num_lines: nat) -> LineReaderView {
        LineReaderView { wanted: num_lines, read: 0, done: false }
    }

    /// The number of bytes that the batch takes from the piece `available`:
    /// nothing once the batch is complete.
    pub open spec fn takes(self, available: Seq<u8>) -> nat {
        if self.done {
            0
        } else {
            chunk_len(available, self.wanted)
        }
    }

    /// The state after the piece `available` has been fed. An empty piece means
    /// that the stream has ended, which completes the batch as it stands. A
    /// batch that is complete stays as it is.
    pub open spec fn feed(self, available: Seq<u8>) -> LineReaderView {
        if self.done {
            self
        } else {
            LineReaderView {
                wanted: if completes(available, self.wanted) {
                    0
                } else {
                    still_wanted(available, self.wanted)
                },
                read: self.read + chunk_len(available, self.wanted),
                done: available.len() == 0 || completes(available, self.wanted),
            }
        }
    }
}

/// The size of the pieces does not matter: feeding `first` and then, the batch
/// being still incomplete, `second`, leaves the state that feeding both as one
/// piece leaves.
pub proof fn lemma_feed_in_pieces(state: LineReaderView, first: Seq<u8>, second: Seq<u8>)
    requires
        first.len() > 0,
        second.len() > 0,
        !state.feed(first).done,
    ensures
        state.feed(first).feed(second) == state.feed(first + second),
{
    lemma_chunk_len_cut(first, state.wanted);
    lemma_chunk_len_concat(first, second, state.wanted);
    lemma_count_newlines_concat(first, second);
}

/// At the end of the stream the batch is complete as it stands: an empty piece
/// takes nothing and changes nothing but that.
pub proof fn lemma_feed_at_end(state: LineReaderView)
    ensures
        state.feed(Seq::empty()) == (LineReaderView { done: true, ..state }),
{
}

/// Reads one batch of lines from a stream that is handed over piece by piece.
#[derive(Debug)]
pub struct LineReader {
    wanted: usize,
    read: usize,
    done: bool,
}

impl View for LineReader {
    type V = LineReaderView;

    closed spec fn view(&self) -> LineReaderView {
        LineReaderView { wanted: self.wanted as nat, read: self.read as nat, done: self.done }
    }
}

impl LineReader {
    /// Starts a batch of `num_lines` lines. With `num_lines == 0` the batch has
    /// no limit and runs to the end of the stream.
    pub fn new(num_lines: usize) -> (reader: LineReader)
        ensures
            reader@ == LineReaderView::start(num_lines as nat),
    {
        LineReader { wanted: num_lines, read: 0, done: false }
    }

    /// Whether the batch is complete: the wanted lines were found, or the
    /// stream has ended.
    pub fn is_done(&self) -> (done: bool)
        ensures
            done == self@.done,
    {
        self.done
    }

    /// The number of bytes taken into the batch so far.
    pub fn bytes_read(&self) -> (read: usize)
        ensures
            read == self@.read,
    {
        self.read
    }

    /// Whether `available` more bytes can be counted without leaving `usize`.
    pub fn has_room_for(&self, available: usize) -> (fits: bool)
        ensures
            fits == (self@.read + available <= usize::MAX),
    {
        available <= usize::MAX - self.read
    }

    /// Feeds the next piece of the stream, the bytes that the stream currently
    /// has `available`. The bytes that belong to the batch are appended to
    /// `buf`, and their number is returned: the caller consumes exactly that
    /// many bytes from the stream. An empty piece completes the batch, and a
    /// complete batch takes nothing more.
    ///
    /// The bytes of a batch are counted in a `usize`, so the piece must leave
    /// the count in that range: see [`LineReader::has_room_for`].
    pub fn feed(&mut self, available: &[u8], buf: &mut Vec<u8>) -> (used: usize)
        requires
            old(self)@.read + available@.len() <= usize::MAX,
        ensures
            used == old(self)@.takes(available@),
            final(buf)@ == old(buf)@ + available@.take(used as int),
            final(self)@ == old(self)@.feed(available@),
    {
        if self.done {
            return 0;
        }
        let len: usize = available.len();
        let mut used: usize = 0;
        let mut wanted: usize = self.wanted;
        let mut done: bool = len == 0;
        assert(available@.skip(0) =~= available@);
        while !done && used < len
            invariant
                len == available@.len(),
                used <= len,
                buf@ == old(buf)@ + available@.take(used as int),
                len == 0 ==> done && used == 0 && wanted == old(self)@.wanted,
                done && len > 0 ==> wanted == 0 && used == chunk_len(
                    available@,
                    old(self)@.wanted,
                ) && completes(available@, old(self)@.wanted),
                !done ==> scanned(available@, used as int, old(self)@.wanted, wanted as nat),
            decreases len - used,
        {
            let rest = slice_subrange(available, used, len);
            match memchr::memchr(NEWLINE, rest) {
                Some(i) => {
                    let line = slice_subrange(available, used, used + i + 1);
                    buf.extend_from_slice(line);
                    proof {
                        lemma_scanned_line(
                            available@,
                            used as int,
                            i as int,
                            old(self)@.wanted,
                            wanted as nat,
                        );
                        assert(available@.take(used + i + 1) =~= available@.take(used as int)
                            + line@);
                    }
                    used = used + i + 1;
                    if wanted == 1 {
                        wanted = 0;
                        done = true;
                    } else if wanted > 1 {
                        wanted = wanted - 1;
                    }
                },
                None => {
                    buf.extend_from_slice(rest);
                    proof {
                        lemma_scanned_rest(
                            available@,
                            used as int,
                            old(self)@.wanted,
                            wanted as nat,
                        );
                        assert(available@.take(len as int) =~= available@.take(used as int)
                            + rest@);
                    }
                    used = len;
                },
            }
        }
        self.wanted = wanted;
        self.read = self.read + used;
        self.done = done;
        used
    }
}

/// What is known while a piece is being scanned and the batch is not complete:
/// the first `used` bytes of `available` have been taken, `wanted` lines are
/// still missing, and the rest decides what the whole piece gives.
spec fn scanned(available: Seq<u8>, used: int, wanted_before: nat, wanted: nat) -> bool {
    &&& 0 <= used <= available.len()
    &&& !completes(available.take(used), wanted_before)
    &&& wanted == still_wanted(available.take(used), wanted_before)
    &&& chunk_len(available, wanted_before) == used + chunk_len(available.skip(used), wanted)
    &&& completes(available, wanted_before) <==> completes(available.skip(used), wanted)
}

/// The scan moves over a stretch without newlines and the newline behind it.
proof fn lemma_scanned_line(available: Seq<u8>, used: int, i: int, wanted_before: nat, wanted: nat)
    requires
        scanned(available, used, wanted_before, wanted),
        0 <= i,
        used + i < available.len(),
        available.skip(used)[i] == NEWLINE,
        forall|j: int| 0 <= j < i ==> available.skip(used)[j] != NEWLINE,
    ensures
        wanted == 1 ==> completes(available, wanted_before) && chunk_len(available, wanted_before)
            == used + i + 1,
        wanted != 1 ==> scanned(available, used + i + 1, wanted_before, after_newline(wanted)),
{
    let before = available.take(used);
    let rest = available.skip(used);
    let plain = rest.take(i);
    let tail = rest.skip(i);
    let next = used + i + 1;
    assert(rest =~= plain + tail);
    assert(available.take(next) =~= before + (plain + seq![NEWLINE]));
    assert(tail.drop_first() =~= available.skip(next));
    lemma_count_newlines_none(plain);
    lemma_count_newlines_front(tail);
    lemma_count_newlines_concat(plain, tail);
    assert(count_newlines(seq![NEWLINE].drop_last()) == 0);
    lemma_count_newlines_concat(plain, seq![NEWLINE]);
    lemma_count_newlines_concat(before, plain + seq![NEWLINE]);
    lemma_chunk_len_concat(plain, tail, wanted);
    lemma_chunk_len_cut(plain, wanted);
}

/// The scan moves over a rest without newlines.
proof fn lemma_scanned_rest(available: Seq<u8>, used: int, wanted_before: nat, wanted: nat)
    requires
        scanned(available, used, wanted_before, wanted),
        forall|j: int| 0 <= j < available.len() - used ==> available.skip(used)[j] != NEWLINE,
    ensures
        scanned(available, available.len() as int, wanted_before, wanted),
{
    let before = available.take(used);
    let rest = available.skip(used);
    assert(available =~= before + rest);
    assert(available.take(available.len() as int) =~= available);
    lemma_count_newlines_none(rest);
    lemma_count_newlines_concat(before, rest);
    lemma_chunk_len_cut(rest, wanted);
}

} // verus!
