use vstd::prelude::*;
use vstd::string::StringSliceAdditionalSpecFns;

verus! {

/// The byte that ends every record in the store.
pub const NEWLINE: u8 = 10;

/// The store's bytes for a sequence of records: each record's bytes followed
/// by one newline, back to back.
pub open spec fn encode(recs: Seq<Seq<u8>>) -> Seq<u8>
    decreases recs.len(),
{
    if recs.len() == 0 {
        seq![]
    } else {
        encode(recs.drop_last()) + recs.last().push(NEWLINE)
    }
}

/// A record that `pop` can give back: non-empty, with no newline in it.
pub open spec fn is_record(r: Seq<u8>) -> bool {
    r.len() > 0 && forall|i: int| 0 <= i < r.len() ==> r[i] != NEWLINE
}

/// The length of `c` once its trailing newlines are dropped.
pub open spec fn content_end(c: Seq<u8>) -> nat
    decreases c.len(),
{
    if c.len() == 0 {
        0
    } else if c.last() == NEWLINE {
        content_end(c.drop_last())
    } else {
        c.len()
    }
}

/// The offset just after the last newline of `c`, or 0 where `c` has none.
pub open spec fn line_start(c: Seq<u8>) -> nat
    decreases c.len(),
{
    if c.len() == 0 {
        0
    } else if c.last() == NEWLINE {
        c.len()
    } else {
        line_start(c.drop_last())
    }
}

/// The record that a pop takes from the store's bytes `c`: the last run of
/// bytes that are not newlines, or `None` where `c` holds only newlines.
pub open spec fn popped_record(c: Seq<u8>) -> Option<Seq<u8>> {
    let e = content_end(c);
    if e == 0 {
        None
    } else {
        Some(c.subrange(line_start(c.subrange(0, e as int)) as int, e as int))
    }
}

/// The length that a pop leaves the store's bytes `c` at: the offset where
/// the popped record starts, or 0 where there is no record.
pub open spec fn popped_len(c: Seq<u8>) -> nat {
    let e = content_end(c);
    if e == 0 {
        0
    } else {
        line_start(c.subrange(0, e as int))
    }
}

/// Where a suffix holds a byte other than a newline, the end of the content
/// is found in that suffix alone.
pub proof fn lemma_content_end_suffix(p: Seq<u8>, q: Seq<u8>)
    requires
        content_end(q) > 0,
    ensures
        content_end(p + q) == p.len() + content_end(q),
    decreases q.len(),
{
    assert((p + q).drop_last() =~= p + q.drop_last());
    if q.last() == NEWLINE {
        lemma_content_end_suffix(p, q.drop_last());
    }
}

/// Where a suffix holds a newline, the start of the last line is found in
/// that suffix alone.
pub proof fn lemma_line_start_suffix(p: Seq<u8>, q: Seq<u8>)
    requires
        line_start(q) > 0,
    ensures
        line_start(p + q) == p.len() + line_start(q),
    decreases q.len(),
{
    assert((p + q).drop_last() =~= p + q.drop_last());
    if q.last() != NEWLINE {
        lemma_line_start_suffix(p, q.drop_last());
    }
}

/// The store's bytes after a pop: cut at the length the pop leaves.
pub open spec fn after_pop(c: Seq<u8>) -> Seq<u8> {
    c.subrange(0, popped_len(c) as int)
}

/// The store's bytes after a push of a record with the bytes `r`.
pub open spec fn after_push(c: Seq<u8>, r: Seq<u8>) -> Seq<u8> {
    c + r.push(NEWLINE)
}

/// What `n` pops in a row, starting from the bytes `c`, give back.
pub open spec fn pops(c: Seq<u8>, n: nat) -> Seq<Option<Seq<u8>>>
    decreases n,
{
    if n == 0 {
        seq![]
    } else {
        seq![popped_record(c)] + pops(after_pop(c), (n - 1) as nat)
    }
}

proof fn lemma_line_start_no_newline(p: Seq<u8>, r: Seq<u8>)
    requires
        forall|i: int| 0 <= i < r.len() ==> r[i] != NEWLINE,
    ensures
        line_start(p + r) == line_start(p),
    decreases r.len(),
{
    if r.len() > 0 {
        assert((p + r).drop_last() =~= p + r.drop_last());
        lemma_line_start_no_newline(p, r.drop_last());
    } else {
        assert(p + r =~= p);
    }
}

proof fn lemma_encode_ends_with_newline(recs: Seq<Seq<u8>>)
    ensures
        encode(recs).len() == 0 || encode(recs).last() == NEWLINE,
{
}

/// A pop on the bytes of a non-empty sequence of records gives back the
/// last record and leaves exactly the bytes of the records before it; a pop
/// on an empty store gives back nothing and leaves it empty.
pub proof fn lemma_pop_last_record(recs: Seq<Seq<u8>>)
    requires
        forall|i: int| 0 <= i < recs.len() ==> is_record(#[trigger] recs[i]),
    ensures
        recs.len() == 0 ==> popped_record(encode(recs)) == None::<Seq<u8>>,
        recs.len() > 0 ==> popped_record(encode(recs)) == Some(recs.last()),
        recs.len() == 0 ==> after_pop(encode(recs)) == encode(recs),
        recs.len() > 0 ==> after_pop(encode(recs)) == encode(recs.drop_last()),
        recs.len() > 0 ==> popped_len(encode(recs)) == encode(recs.drop_last()).len(),
{
    let c = encode(recs);
    if recs.len() == 0 {
        assert(c.subrange(0, 0) =~= c);
    } else {
        let e = Seq::<u8>::empty();
        assert(e + c =~= c);
        assert(e + encode(recs.drop_last()) =~= encode(recs.drop_last()));
        lemma_pop_after_prefix(e, recs);
    }
}

/// Records pushed after any earlier content that is empty or ends with a
/// newline: a pop gives back the last of them and leaves the earlier
/// content followed by the records before it.
pub proof fn lemma_pop_after_prefix(p: Seq<u8>, recs: Seq<Seq<u8>>)
    requires
        p.len() == 0 || p.last() == NEWLINE,
        recs.len() > 0,
        forall|i: int| 0 <= i < recs.len() ==> is_record(#[trigger] recs[i]),
    ensures
        popped_record(p + encode(recs)) == Some(recs.last()),
        after_pop(p + encode(recs)) == p + encode(recs.drop_last()),
        popped_len(p + encode(recs)) == p.len() + encode(recs.drop_last()).len(),
{
    let c = p + encode(recs);
    let q = p + encode(recs.drop_last());
    let r = recs.last();
    assert(is_record(recs[recs.len() - 1]));
    assert(c =~= q + r.push(NEWLINE));
    assert(c.drop_last() =~= q + r);
    assert(c.last() == NEWLINE);
    assert(r.last() != NEWLINE);
    assert((q + r).last() == r.last());
    assert(content_end(q + r) == (q + r).len());
    assert(content_end(c) == q.len() + r.len());
    assert(c.subrange(0, (q.len() + r.len()) as int) =~= q + r);
    lemma_line_start_no_newline(q, r);
    lemma_encode_ends_with_newline(recs.drop_last());
    assert(line_start(q) == q.len()) by {
        if encode(recs.drop_last()).len() > 0 {
            assert(q.last() == encode(recs.drop_last()).last());
        } else {
            assert(q =~= p);
        }
    }
    assert(c.subrange(q.len() as int, (q.len() + r.len()) as int) =~= r);
    assert(c.subrange(0, q.len() as int) =~= q);
}

/// The store's bytes after `n` pops in a row, starting from the bytes `c`.
pub open spec fn after_pops(c: Seq<u8>, n: nat) -> Seq<u8>
    decreases n,
{
    if n == 0 {
        c
    } else {
        after_pops(after_pop(c), (n - 1) as nat)
    }
}

/// Records pushed after any earlier content that is empty or ends with a
/// newline: as many pops give them back in reverse order of their pushes,
/// and leave the earlier content as it was.
pub proof fn lemma_push_pop_inverse_after(p: Seq<u8>, recs: Seq<Seq<u8>>)
    requires
        p.len() == 0 || p.last() == NEWLINE,
        forall|i: int| 0 <= i < recs.len() ==> is_record(#[trigger] recs[i]),
    ensures
        pops(p + encode(recs), recs.len()).len() == recs.len(),
        forall|i: int|
            0 <= i < recs.len() ==> #[trigger] pops(p + encode(recs), recs.len())[i] == Some(
                recs[recs.len() - 1 - i],
            ),
        after_pops(p + encode(recs), recs.len()) == p,
    decreases recs.len(),
{
    if recs.len() == 0 {
        assert(p + encode(recs) =~= p);
    } else {
        let rest = recs.drop_last();
        lemma_pop_after_prefix(p, recs);
        assert forall|i: int| 0 <= i < rest.len() implies is_record(#[trigger] rest[i]) by {
            assert(rest[i] == recs[i]);
        }
        lemma_push_pop_inverse_after(p, rest);
        assert(pops(p + encode(recs), recs.len()) == seq![Some(recs.last())] + pops(
            p + encode(rest),
            rest.len(),
        ));
    }
}

/// A push appends its record's bytes right after the last record: the store
/// then holds the bytes of the records with the new one at the end.
pub proof fn lemma_push_appends(recs: Seq<Seq<u8>>, r: Seq<u8>)
    ensures
        after_push(encode(recs), r) == encode(recs.push(r)),
{
    assert(recs.push(r).drop_last() =~= recs);
}

/// Pushing records and then popping: the pops give back the records in
/// reverse order of their pushes, and every pop after those gives back
/// nothing.
pub proof fn lemma_push_pop_inverse(recs: Seq<Seq<u8>>, extra: nat)
    requires
        forall|i: int| 0 <= i < recs.len() ==> is_record(#[trigger] recs[i]),
    ensures
        pops(encode(recs), recs.len() + extra).len() == recs.len() + extra,
        forall|i: int|
            0 <= i < recs.len() ==> #[trigger] pops(encode(recs), recs.len() + extra)[i] == Some(
                recs[recs.len() - 1 - i],
            ),
        forall|i: int|
            recs.len() <= i < recs.len() + extra ==> #[trigger] pops(
                encode(recs),
                recs.len() + extra,
            )[i] == None::<Seq<u8>>,
    decreases recs.len(),
{
    if recs.len() == 0 {
        lemma_empty_pops(extra);
        assert(encode(recs) == Seq::<u8>::empty());
    } else {
        let rest = recs.drop_last();
        let n = recs.len() + extra;
        lemma_pop_last_record(recs);
        assert forall|i: int| 0 <= i < rest.len() implies is_record(#[trigger] rest[i]) by {
            assert(rest[i] == recs[i]);
        }
        lemma_push_pop_inverse(rest, extra);
        assert(pops(encode(recs), n as nat) == seq![Some(recs.last())] + pops(
            encode(rest),
            (n - 1) as nat,
        ));
        assert(rest.len() + extra == n - 1);
    }
}

/// On an empty store, any number of pops give back nothing and leave the
/// store empty, at length 0.
pub proof fn lemma_empty_pops(n: nat)
    ensures
        popped_record(Seq::<u8>::empty()) == None::<Seq<u8>>,
        popped_len(Seq::<u8>::empty()) == 0,
        after_pop(Seq::<u8>::empty()) == Seq::<u8>::empty(),
        pops(Seq::<u8>::empty(), n).len() == n,
        forall|i: int| 0 <= i < n ==> #[trigger] pops(Seq::<u8>::empty(), n)[i] == None::<Seq<u8>>,
    decreases n,
{
    let c = Seq::<u8>::empty();
    assert(c.subrange(0, 0) =~= c);
    if n > 0 {
        lemma_empty_pops((n - 1) as nat);
    }
}

/// A clear cuts the store's bytes to length 0, whatever they held; any
/// number of pops after it give back nothing and leave the store empty.
pub proof fn lemma_clear_then_pops(c: Seq<u8>, n: nat)
    ensures
        pops(c.subrange(0, 0), n).len() == n,
        forall|i: int| 0 <= i < n ==> #[trigger] pops(c.subrange(0, 0), n)[i] == None::<Seq<u8>>,
        after_pops(c.subrange(0, 0), n) == Seq::<u8>::empty(),
    decreases n,
{
    assert(c.subrange(0, 0) =~= Seq::<u8>::empty());
    lemma_empty_pops(n);
    if n > 0 {
        lemma_clear_then_pops(c, (n - 1) as nat);
    }
}

/// After a pop the store's length is exactly that of the records left, and
/// a push that follows lands right after the last of them.
pub proof fn lemma_pop_then_push(recs: Seq<Seq<u8>>, r: Seq<u8>)
    requires
        forall|i: int| 0 <= i < recs.len() ==> is_record(#[trigger] recs[i]),
        recs.len() > 0,
    ensures
        popped_len(encode(recs)) == encode(recs.drop_last()).len(),
        after_push(after_pop(encode(recs)), r) == encode(recs.drop_last().push(r)),
{
    lemma_pop_last_record(recs);
    lemma_push_appends(recs.drop_last(), r);
}

/// The bytes that a push of `s` appends to the store: its UTF-8 bytes, then a
/// newline.
pub fn record_line(s: &str) -> (r: Vec<u8>)
    ensures
        r@ == s.spec_bytes().push(NEWLINE),
{
    let b = s.as_bytes();
    let mut r: Vec<u8> = Vec::new();
    let mut i: usize = 0;
    while i < b.len()
        invariant
            b@ == s.spec_bytes(),
            i <= b@.len(),
            r@ == b@.subrange(0, i as int),
        decreases b@.len() - i,
    {
        r.push(b[i]);
        i += 1;
        assert(r@ =~= b@.subrange(0, i as int));
    }
    assert(r@ =~= b@);
    r.push(NEWLINE);
    r
}

} // verus!
