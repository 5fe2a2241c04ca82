use vstd::prelude::*;
use crate::record::{
    NEWLINE, content_end, line_start, popped_len, popped_record, lemma_content_end_suffix,
    lemma_line_start_suffix,
};

verus! {

/// The most bytes that one step of the backward scan reads.
pub const WINDOW: u64 = 1024;

/// How many bytes the scan reads next when it has read back to `start`.
pub open spec fn read_count(start: nat) -> nat {
    if start < WINDOW {
        start
    } else {
        WINDOW as nat
    }
}

/// The bytes of an optional buffer.
pub open spec fn opt_bytes(o: Option<Vec<u8>>) -> Option<Seq<u8>> {
    match o {
        Some(v) => Some(v@),
        None => None,
    }
}

/// What the scan knows: the store's length, the offset it has read back to,
/// and the bytes from there to the end.
pub struct ScanView {
    pub len: nat,
    pub start: nat,
    pub tail: Seq<u8>,
}

/// The state of a pop's backward scan over a store of fixed length.
///
/// The scan asks for the store's bytes one window at a time, from the end
/// toward the start, until the last record and its start are in view.
pub struct BackwardScan {
    len: u64,
    start: u64,
    tail: Vec<u8>,
}

/// What the scan asks for next.
#[derive(Debug)]
pub enum ScanStep {
    /// Read `count` bytes at `offset` and hand them to `feed`.
    Read { offset: u64, count: u64 },
    /// Truncate the store to `new_len`; `record` is the popped record's bytes,
    /// `None` where the store held no record.
    Done { new_len: u64, record: Option<Vec<u8>> },
}

impl View for BackwardScan {
    type V = ScanView;

    closed spec fn view(&self) -> ScanView {
        ScanView { len: self.len as nat, start: self.start as nat, tail: self.tail@ }
    }
}

impl BackwardScan {
    /// The scan's state is consistent: the bytes held are those from `start`
    /// to the end.
    pub open spec fn wf(&self) -> bool {
        &&& self@.len <= u64::MAX
        &&& self@.start <= self@.len
        &&& self@.tail.len() == self@.len - self@.start
    }

    /// The store's bytes `c` are consistent with what the scan has read.
    pub open spec fn agrees(&self, c: Seq<u8>) -> bool {
        &&& c.len() == self@.len
        &&& c.subrange(self@.start as int, self@.len as int) == self@.tail
    }

    /// Starts a scan of a store that is `len` bytes long; nothing is read yet.
    pub fn new(len: u64) -> (r: Self)
        ensures
            r.wf(),
            r@ == (ScanView { len: len as nat, start: len as nat, tail: Seq::<u8>::empty() }),
            forall|c: Seq<u8>| c.len() == len ==> r.agrees(c),
    {
        let r = BackwardScan { len, start: len, tail: Vec::new() };
        assert forall|c: Seq<u8>| c.len() == len implies r.agrees(c) by {
            assert(c.subrange(len as int, len as int) =~= Seq::<u8>::empty());
        }
        r
    }

    /// Decides the next step: a read of the window before what was read so
    /// far, or the end of the scan with the popped record and the length the
    /// store is cut to.
    pub fn next_step(&self) -> (r: ScanStep)
        requires
            self.wf(),
        ensures
            match r {
                ScanStep::Read { offset, count } => {
                    &&& self@.start > 0
                    &&& content_end(self@.tail) == 0 || line_start(
                        self@.tail.subrange(0, content_end(self@.tail) as int),
                    ) == 0
                    &&& count == read_count(self@.start)
                    &&& offset + count == self@.start
                },
                ScanStep::Done { new_len, record } => forall|c: Seq<u8>|
                    #![trigger self.agrees(c)]
                    self.agrees(c) ==> new_len == popped_len(c) && opt_bytes(record)
                        == popped_record(c),
            },
    {
        let ghost t = self.tail@;
        let n = self.tail.len();
        let mut e: usize = n;
        assert(t.subrange(0, n as int) =~= t);
        while e > 0 && self.tail[e - 1] == NEWLINE
            invariant
                t == self.tail@,
                e <= n,
                n == t.len(),
                content_end(t.subrange(0, e as int)) == content_end(t),
            decreases e,
        {
            assert(t.subrange(0, e as int).drop_last() =~= t.subrange(0, e - 1));
            e -= 1;
        }
        assert(content_end(t) == e) by {
            if e > 0 {
                assert(t.subrange(0, e as int).last() == t[e - 1]);
            }
        }
        if e == 0 {
            if self.start == 0 {
                proof {
                    assert forall|c: Seq<u8>| #![trigger self.agrees(c)] self.agrees(c) implies popped_len(
                        c,
                    ) == 0 && popped_record(c) == None::<Seq<u8>> by {
                        assert(c =~= c.subrange(0, self.len as int));
                    }
                }
                return ScanStep::Done { new_len: 0, record: None };
            }
            return ScanStep::Read { offset: self.start - self.read_len(), count: self.read_len() };
        }
        let ghost u = t.subrange(0, e as int);
        let mut i: usize = e;
        assert(u.subrange(0, e as int) =~= u);
        while i > 0 && self.tail[i - 1] != NEWLINE
            invariant
                t == self.tail@,
                u == t.subrange(0, e as int),
                i <= e <= n,
                n == t.len(),
                line_start(t.subrange(0, i as int)) == line_start(u),
            decreases i,
        {
            assert(t.subrange(0, i as int).drop_last() =~= t.subrange(0, i - 1));
            i -= 1;
        }
        assert(line_start(u) == i) by {
            if i > 0 {
                assert(t.subrange(0, i as int).last() == t[i - 1]);
            }
        }
        if i == 0 && self.start > 0 {
            return ScanStep::Read { offset: self.start - self.read_len(), count: self.read_len() };
        }
        let mut rec: Vec<u8> = Vec::new();
        let mut k: usize = i;
        while k < e
            invariant
                t == self.tail@,
                i <= k <= e <= n,
                n == t.len(),
                rec@ == t.subrange(i as int, k as int),
            decreases e - k,
        {
            rec.push(self.tail[k]);
            k += 1;
            assert(rec@ =~= t.subrange(i as int, k as int));
        }
        proof {
            assert forall|c: Seq<u8>| #![trigger self.agrees(c)] self.agrees(c) implies popped_len(c)
                == self.start + i && popped_record(c) == Some(rec@) by {
                let p = c.subrange(0, self.start as int);
                assert(c =~= p + t);
                lemma_content_end_suffix(p, t);
                assert(c.subrange(0, self.start + e) =~= p + u);
                if i > 0 {
                    lemma_line_start_suffix(p, u);
                } else {
                    assert(p.len() == 0);
                    assert(p + u =~= u);
                }
                assert(c.subrange(self.start + i, self.start + e) =~= t.subrange(
                    i as int,
                    e as int,
                ));
            }
        }
        ScanStep::Done { new_len: self.start + i as u64, record: Some(rec) }
    }

    fn read_len(&self) -> (r: u64)
        ensures
            r == read_count(self@.start),
    {
        if self.start < WINDOW {
            self.start
        } else {
            WINDOW
        }
    }

    /// Takes the bytes read at the offset that `next_step` asked for; they
    /// go in front of what was read so far.
    pub fn feed(&mut self, chunk: Vec<u8>)
        requires
            old(self).wf(),
            old(self)@.start > 0,
            chunk@.len() == read_count(old(self)@.start),
        ensures
            final(self).wf(),
            final(self)@ == (ScanView {
                len: old(self)@.len,
                start: (old(self)@.start - chunk@.len()) as nat,
                tail: chunk@ + old(self)@.tail,
            }),
            forall|c: Seq<u8>|
                #![trigger final(self).agrees(c)]
                old(self).agrees(c) && chunk@ == c.subrange(
                    final(self)@.start as int,
                    old(self)@.start as int,
                ) ==> final(self).agrees(c),
    {
        let ghost old_tail = self.tail@;
        let count = chunk.len();
        let mut v = chunk;
        let mut k: usize = 0;
        while k < self.tail.len()
            invariant
                old_tail == self.tail@,
                k <= old_tail.len(),
                v@ == chunk@ + old_tail.subrange(0, k as int),
            decreases old_tail.len() - k,
        {
            v.push(self.tail[k]);
            k += 1;
            assert(v@ =~= chunk@ + old_tail.subrange(0, k as int));
        }
        assert(old_tail.subrange(0, k as int) =~= old_tail);
        self.start = self.start - count as u64;
        self.tail = v;
        proof {
            let ns = self.start as int;
            let os = ns + count;
            assert forall|c: Seq<u8>|
                #![trigger self.agrees(c)]
                old(self).agrees(c) && chunk@ == c.subrange(ns, os) implies self.agrees(c) by {
                assert(c.subrange(ns, self.len as int) =~= c.subrange(ns, os) + c.subrange(
                    os,
                    self.len as int,
                ));
            }
        }
    }
}

/// Runs a whole backward scan over store bytes held in memory, answering
/// each read from `content`: whatever the store's length, it ends with the
/// length the pop leaves and the record it takes.
pub fn scan_bytes(content: &Vec<u8>) -> (r: (u64, Option<Vec<u8>>))
    requires
        content@.len() <= u64::MAX,
    ensures
        r.0 == popped_len(content@),
        opt_bytes(r.1) == popped_record(content@),
{
    let n: usize = content.len();
    let mut scan = BackwardScan::new(n as u64);
    loop
        invariant
            n == content@.len(),
            scan.wf(),
            scan.agrees(content@),
        decreases scan@.start,
    {
        match scan.next_step() {
            ScanStep::Read { offset, count } => {
                assert(offset + count <= n);
                let from = offset as usize;
                let to = from + count as usize;
                let mut chunk: Vec<u8> = Vec::new();
                let mut k: usize = from;
                while k < to
                    invariant
                        from <= k <= to <= content@.len(),
                        chunk@ == content@.subrange(from as int, k as int),
                    decreases to - k,
                {
                    chunk.push(content[k]);
                    k += 1;
                    assert(chunk@ =~= content@.subrange(from as int, k as int));
                }
                scan.feed(chunk);
                assert(scan.agrees(content@));
            },
            ScanStep::Done { new_len, record } => {
                return (new_len, record);
            },
        }
    }
}

} // verus!
