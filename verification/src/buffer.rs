use vstd::prelude::*;
use vstd::slice::slice_subrange;

verus! {

/// The line terminator byte.
pub const NL: u8 = 0x0a;

/// The carriage-return byte, stripped when it trails a line.
pub const CR: u8 = 0x0d;

/// Index of the first line terminator of `s` at or after `from`.
pub open spec fn find_newline(s: Seq<u8>, from: int) -> Option<int>
    decreases s.len() - from when 0 <= from <= s.len()
{
    if from < 0 || from >= s.len() {
        None
    } else if s[from] == NL {
        Some(from)
    } else {
        find_newline(s, from + 1)
    }
}

/// The first terminator at or after `from` is the one the scan finds.
pub proof fn lemma_find_newline_at(s: Seq<u8>, from: int, k: int)
    requires
        0 <= from <= k < s.len(),
        s[k] == NL,
        forall|i: int| from <= i < k ==> s[i] != NL,
    ensures
        find_newline(s, from) == Some(k),
    decreases k - from,
{
    if from < k {
        lemma_find_newline_at(s, from + 1, k);
    }
}

/// Appending a terminator to terminator-free bytes puts the first
/// terminator exactly at their end.
pub proof fn lemma_find_newline_push(p: Seq<u8>)
    requires
        forall|i: int| 0 <= i < p.len() ==> p[i] != NL,
    ensures
        find_newline(p.push(NL), 0) == Some(p.len() as int),
{
    let s = p.push(NL);
    assert(s[p.len() as int] == NL);
    lemma_find_newline_at(s, 0, p.len() as int);
}

/// The text of a line running from `start` up to its terminator at
/// `nl`, with one trailing carriage return stripped.
pub open spec fn line_content(s: Seq<u8>, start: int, nl: int) -> Seq<u8> {
    let raw = s.subrange(start, nl);
    if raw.len() > 0 && raw[raw.len() - 1] == CR {
        raw.take(raw.len() - 1)
    } else {
        raw
    }
}

/// Fixed-capacity append buffer with a consumed cursor and line
/// extraction.  Appends past capacity are truncated by design: the
/// capacity matches the storage write granularity and callers handle a
/// short accept, not an error.
pub struct ByteBuffer {
    data: Vec<u8>,
    read_index: usize,
    capacity: usize,
}

impl ByteBuffer {
    /// Every byte ever accepted and not cleared, in order.
    pub closed spec fn contents(self) -> Seq<u8> {
        self.data@
    }

    /// The consumed cursor: everything before it was handed out by
    /// `next_line`.
    pub closed spec fn read_pos(self) -> int {
        self.read_index as int
    }

    pub closed spec fn cap(self) -> int {
        self.capacity as int
    }

    /// The unconsumed bytes.
    pub open spec fn unread(self) -> Seq<u8> {
        self.contents().skip(self.read_pos())
    }

    pub open spec fn wf(self) -> bool {
        0 <= self.read_pos() <= self.contents().len() <= self.cap()
    }

    pub fn new(capacity: usize) -> (r: ByteBuffer)
        ensures
            r.wf(),
            r.contents() == Seq::<u8>::empty(),
            r.read_pos() == 0,
            r.cap() == capacity,
    {
        ByteBuffer { data: Vec::new(), read_index: 0, capacity }
    }

    pub fn len(&self) -> (r: usize)
        ensures
            r == self.contents().len(),
    {
        self.data.len()
    }

    pub fn capacity(&self) -> (r: usize)
        ensures
            r == self.cap(),
    {
        self.capacity
    }

    /// Appends as many of `bytes` as fit, returning the count accepted;
    /// the overflow is silently truncated and the buffer never grows
    /// past its capacity.
    pub fn push(&mut self, bytes: &[u8]) -> (r: usize)
        requires
            old(self).wf(),
        ensures
            final(self).wf(),
            final(self).cap() == old(self).cap(),
            final(self).read_pos() == old(self).read_pos(),
            r as int == if bytes@.len() <= old(self).cap() - old(self).contents().len() {
                bytes@.len() as int
            } else {
                old(self).cap() - old(self).contents().len()
            },
            final(self).contents() == old(self).contents() + bytes@.take(r as int),
            final(self).contents().len() <= final(self).cap(),
    {
        let room = self.capacity - self.data.len();
        let accept = if bytes.len() <= room {
            bytes.len()
        } else {
            room
        };
        let mut i: usize = 0;
        while i < accept
            invariant
                i <= accept,
                accept <= bytes@.len(),
                self.data@.len() == old(self).contents().len() + i,
                old(self).contents().len() + accept <= self.capacity,
                self.capacity == old(self).cap(),
                self.read_index == old(self).read_pos(),
                self.data@ == old(self).contents() + bytes@.take(i as int),
            decreases accept - i,
        {
            self.data.push(bytes[i]);
            i = i + 1;
            proof {
                assert(self.data@ =~= old(self).contents() + bytes@.take(i as int));
            }
        }
        accept
    }

    /// Appends one byte when there is room, reporting whether it was
    /// accepted.
    pub fn push_byte(&mut self, b: u8) -> (r: bool)
        requires
            old(self).wf(),
        ensures
            final(self).wf(),
            final(self).cap() == old(self).cap(),
            final(self).read_pos() == old(self).read_pos(),
            r == (old(self).contents().len() < old(self).cap()),
            r ==> final(self).contents() == old(self).contents().push(b),
            !r ==> final(self).contents() == old(self).contents(),
    {
        if self.data.len() < self.capacity {
            self.data.push(b);
            true
        } else {
            false
        }
    }

    /// Scans from the consumed cursor for a line terminator.  When one
    /// is present, consumes through it and returns the line with a
    /// trailing carriage return stripped; otherwise leaves the buffer
    /// unchanged and returns `None`, the need-more-data signal, even on
    /// a full buffer.
    pub fn next_line(&mut self) -> (r: Option<Vec<u8>>)
        requires
            old(self).wf(),
        ensures
            final(self).wf(),
            final(self).cap() == old(self).cap(),
            final(self).contents() == old(self).contents(),
            match find_newline(old(self).contents(), old(self).read_pos()) {
                Option::None => {
                    &&& r is None
                    &&& *final(self) == *old(self)
                },
                Option::Some(nl) => {
                    &&& r matches Option::Some(line) && line@ == line_content(
                        old(self).contents(),
                        old(self).read_pos(),
                        nl,
                    )
                    &&& final(self).read_pos() == nl + 1
                },
            },
    {
        let len = self.data.len();
        let mut j = self.read_index;
        while j < len && self.data[j] != NL
            invariant
                old(self).read_pos() <= j <= len,
                len == self.contents().len(),
                self == old(self),
                find_newline(self.contents(), self.read_pos()) == find_newline(
                    self.contents(),
                    j as int,
                ),
            decreases len - j,
        {
            j = j + 1;
        }
        if j == len {
            return Option::None;
        }
        let start = self.read_index;
        let mut end = j;
        if end > start && self.data[end - 1] == CR {
            end = end - 1;
        }
        let mut line: Vec<u8> = Vec::new();
        let mut k = start;
        while k < end
            invariant
                start <= k <= end <= self.contents().len(),
                self == old(self),
                line@ == self.contents().subrange(start as int, k as int),
            decreases end - k,
        {
            line.push(self.data[k]);
            k = k + 1;
            proof {
                assert(line@ =~= self.contents().subrange(start as int, k as int));
            }
        }
        self.read_index = j + 1;
        proof {
            let c = old(self).contents();
            let s = start as int;
            let raw = c.subrange(s, j as int);
            if raw.len() > 0 && raw[raw.len() - 1] == CR {
                assert(line@ =~= raw.take(raw.len() - 1));
            } else {
                assert(line@ =~= raw);
            }
        }
        Option::Some(line)
    }

    /// The unconsumed bytes, exposed without copying.
    pub fn remaining_slice(&self) -> (r: &[u8])
        requires
            self.wf(),
        ensures
            r@ == self.unread(),
    {
        slice_subrange(self.data.as_slice(), self.read_index, self.data.len())
    }

    /// Resets both cursors, once a full block has been flushed.
    pub fn clear(&mut self)
        ensures
            final(self).wf(),
            final(self).cap() == old(self).cap(),
            final(self).contents() == Seq::<u8>::empty(),
            final(self).read_pos() == 0,
    {
        self.data.clear();
        self.read_index = 0;
    }

    /// A new same-capacity buffer holding the bytes from `at` onward,
    /// with its cursor reset; carries an overrun fragment into the next
    /// block after a flush boundary.
    pub fn split_right(&self, at: usize) -> (r: ByteBuffer)
        requires
            self.wf(),
            at <= self.contents().len(),
        ensures
            r.wf(),
            r.cap() == self.cap(),
            r.read_pos() == 0,
            r.contents() == self.contents().skip(at as int),
    {
        let len = self.data.len();
        let mut data: Vec<u8> = Vec::new();
        let mut k = at;
        while k < len
            invariant
                at <= k <= len,
                len == self.contents().len(),
                data@ == self.contents().subrange(at as int, k as int),
            decreases len - k,
        {
            data.push(self.data[k]);
            k = k + 1;
            proof {
                assert(data@ =~= self.contents().subrange(at as int, k as int));
            }
        }
        proof {
            assert(data@ =~= self.contents().skip(at as int));
        }
        ByteBuffer { data, read_index: 0, capacity: self.capacity }
    }
}

} // verus!
