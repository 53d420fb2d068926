//! Line demultiplexer: turns arbitrarily split chunks of the backend's byte
//! stream into complete newline-terminated records.
use vstd::prelude::*;

verus! {

/// The byte that ends one record.
pub const NEWLINE: u8 = 10;

/// Records completed while scanning `s`, given that `cur` holds the bytes of
/// the record that was open before `s` began. Empty records are skipped.
pub open spec fn scan_records(cur: Seq<u8>, s: Seq<u8>) -> Seq<Seq<u8>>
    decreases s.len(),
{
    if s.len() == 0 {
        Seq::empty()
    } else if s[0] == NEWLINE {
        let head: Seq<Seq<u8>> = if cur.len() > 0 { seq![cur] } else { Seq::empty() };
        head + scan_records(Seq::empty(), s.drop_first())
    } else {
        scan_records(cur.push(s[0]), s.drop_first())
    }
}

/// The record left open after scanning `s` from the open record `cur`.
pub open spec fn scan_partial(cur: Seq<u8>, s: Seq<u8>) -> Seq<u8>
    decreases s.len(),
{
    if s.len() == 0 {
        cur
    } else if s[0] == NEWLINE {
        scan_partial(Seq::empty(), s.drop_first())
    } else {
        scan_partial(cur.push(s[0]), s.drop_first())
    }
}

/// The non-empty newline-terminated records of `s`, in order; the bytes after
/// the last newline are not a record.
pub open spec fn records(s: Seq<u8>) -> Seq<Seq<u8>> {
    scan_records(Seq::empty(), s)
}

/// The bytes of `s` after its last newline (all of `s` if it has none).
pub open spec fn partial(s: Seq<u8>) -> Seq<u8> {
    scan_partial(Seq::empty(), s)
}

pub open spec fn has_no_newline(s: Seq<u8>) -> bool {
    forall|i: int| 0 <= i < s.len() ==> s[i] != NEWLINE
}

/// All records that a buffer starting out as `pending` hands out when the
/// chunks arrive one after another.
pub open spec fn fed_records(pending: Seq<u8>, chunks: Seq<Seq<u8>>) -> Seq<Seq<u8>>
    decreases chunks.len(),
{
    if chunks.len() == 0 {
        Seq::empty()
    } else {
        let buf = pending + chunks[0];
        records(buf) + fed_records(partial(buf), chunks.drop_first())
    }
}

/// The bytes of all chunks, in order.
pub open spec fn joined(chunks: Seq<Seq<u8>>) -> Seq<u8>
    decreases chunks.len(),
{
    if chunks.len() == 0 {
        Seq::empty()
    } else {
        chunks[0] + joined(chunks.drop_first())
    }
}

proof fn lemma_scan_split(cur: Seq<u8>, a: Seq<u8>, b: Seq<u8>)
    ensures
        scan_records(cur, a + b) == scan_records(cur, a) + scan_records(scan_partial(cur, a), b),
        scan_partial(cur, a + b) == scan_partial(scan_partial(cur, a), b),
    decreases a.len(),
{
    if a.len() == 0 {
        assert(a + b =~= b);
        assert(scan_records(cur, a) + scan_records(cur, b) =~= scan_records(cur, b));
    } else {
        assert((a + b).drop_first() =~= a.drop_first() + b);
        assert((a + b)[0] == a[0]);
        if a[0] == NEWLINE {
            lemma_scan_split(Seq::empty(), a.drop_first(), b);
            let head: Seq<Seq<u8>> = if cur.len() > 0 { seq![cur] } else { Seq::empty() };
            assert(head + (scan_records(Seq::empty(), a.drop_first()) + scan_records(
                scan_partial(Seq::empty(), a.drop_first()),
                b,
            )) =~= (head + scan_records(Seq::empty(), a.drop_first())) + scan_records(
                scan_partial(Seq::empty(), a.drop_first()),
                b,
            ));
        } else {
            lemma_scan_split(cur.push(a[0]), a.drop_first(), b);
        }
    }
}

proof fn lemma_scan_no_newline(cur: Seq<u8>, s: Seq<u8>)
    requires
        has_no_newline(s),
    ensures
        scan_records(cur, s) == Seq::<Seq<u8>>::empty(),
        scan_partial(cur, s) == cur + s,
    decreases s.len(),
{
    if s.len() == 0 {
        assert(cur + s =~= cur);
    } else {
        assert(s[0] != NEWLINE);
        lemma_scan_no_newline(cur.push(s[0]), s.drop_first());
        assert(cur.push(s[0]) + s.drop_first() =~= cur + s);
    }
}

proof fn lemma_partial_no_newline(cur: Seq<u8>, s: Seq<u8>)
    requires
        has_no_newline(cur),
    ensures
        has_no_newline(scan_partial(cur, s)),
    decreases s.len(),
{
    if s.len() > 0 {
        if s[0] == NEWLINE {
            lemma_partial_no_newline(Seq::empty(), s.drop_first());
        } else {
            lemma_partial_no_newline(cur.push(s[0]), s.drop_first());
        }
    }
}

/// Every record handed out is non-empty and holds no newline.
pub proof fn lemma_records_well_formed(s: Seq<u8>)
    ensures
        forall|i: int|
            0 <= i < records(s).len() ==> records(s)[i].len() > 0 && has_no_newline(
                #[trigger] records(s)[i],
            ),
        has_no_newline(partial(s)),
{
    lemma_scan_records_well_formed(Seq::empty(), s);
    lemma_partial_no_newline(Seq::empty(), s);
}

proof fn lemma_scan_records_well_formed(cur: Seq<u8>, s: Seq<u8>)
    requires
        has_no_newline(cur),
    ensures
        forall|i: int|
            0 <= i < scan_records(cur, s).len() ==> scan_records(cur, s)[i].len() > 0
                && has_no_newline(#[trigger] scan_records(cur, s)[i]),
    decreases s.len(),
{
    if s.len() > 0 {
        let r = scan_records(cur, s);
        if s[0] == NEWLINE {
            let t = scan_records(Seq::empty(), s.drop_first());
            lemma_scan_records_well_formed(Seq::empty(), s.drop_first());
            if cur.len() > 0 {
                assert(r == seq![cur] + t);
                assert forall|i: int| 0 <= i < r.len() implies r[i].len() > 0 && has_no_newline(
                    #[trigger] r[i],
                ) by {
                    if i > 0 {
                        assert(r[i] == t[i - 1]);
                    } else {
                        assert(r[i] == cur);
                    }
                }
            } else {
                assert(r =~= t);
            }
        } else {
            assert(has_no_newline(cur.push(s[0]))) by {
                assert forall|i: int| 0 <= i < cur.push(s[0]).len() implies #[trigger] cur.push(
                    s[0],
                )[i] != NEWLINE by {
                    if i < cur.len() {
                        assert(cur.push(s[0])[i] == cur[i]);
                    }
                }
            }
            lemma_scan_records_well_formed(cur.push(s[0]), s.drop_first());
            assert(r == scan_records(cur.push(s[0]), s.drop_first()));
        }
    }
}

/// Splitting the stream differently never changes the records: feeding the
/// chunks one by one into an empty buffer hands out exactly the records of
/// the joined bytes, in order, wherever the chunk boundaries fall.
pub proof fn lemma_partition_independent(chunks: Seq<Seq<u8>>)
    ensures
        fed_records(Seq::empty(), chunks) == records(joined(chunks)),
{
    lemma_fed_records(Seq::empty(), chunks);
    assert(Seq::<u8>::empty() + joined(chunks) =~= joined(chunks));
}

proof fn lemma_fed_records(pending: Seq<u8>, chunks: Seq<Seq<u8>>)
    requires
        has_no_newline(pending),
    ensures
        fed_records(pending, chunks) == scan_records(pending, joined(chunks)),
    decreases chunks.len(),
{
    if chunks.len() == 0 {
    } else {
        let buf = pending + chunks[0];
        let rest = joined(chunks.drop_first());
        lemma_scan_split(Seq::empty(), pending, chunks[0]);
        lemma_scan_no_newline(Seq::empty(), pending);
        assert(Seq::<u8>::empty() + pending =~= pending);
        assert(Seq::<Seq<u8>>::empty() + scan_records(pending, chunks[0]) =~= scan_records(
            pending,
            chunks[0],
        ));
        lemma_partial_no_newline(Seq::empty(), buf);
        lemma_fed_records(partial(buf), chunks.drop_first());
        lemma_scan_split(pending, chunks[0], rest);
    }
}

/// Two newlines in a row add no record: an empty line is skipped.
pub proof fn lemma_empty_line_skipped(a: Seq<u8>, b: Seq<u8>)
    ensures
        records(a + seq![NEWLINE, NEWLINE] + b) == records(a + seq![NEWLINE] + b),
{
    let nl: Seq<u8> = seq![NEWLINE];
    let p = partial(a);
    let e = Seq::<u8>::empty();
    assert(a + seq![NEWLINE, NEWLINE] + b =~= a + (nl + (nl + b)));
    assert(a + seq![NEWLINE] + b =~= a + (nl + b));
    lemma_scan_split(e, a, nl + (nl + b));
    lemma_scan_split(e, a, nl + b);
    assert((nl + (nl + b))[0] == NEWLINE);
    assert((nl + (nl + b)).drop_first() =~= nl + b);
    assert((nl + b)[0] == NEWLINE);
    assert((nl + b).drop_first() =~= b);
    let head: Seq<Seq<u8>> = if p.len() > 0 { seq![p] } else { Seq::empty() };
    assert(scan_records(p, nl + (nl + b)) == head + scan_records(e, nl + b));
    assert(scan_records(e, nl + b) == Seq::<Seq<u8>>::empty() + scan_records(e, b));
    assert(Seq::<Seq<u8>>::empty() + scan_records(e, b) =~= scan_records(e, b));
    assert(scan_records(p, nl + b) == head + scan_records(e, b));
}

/// The bytes received but not yet resolved into a complete record.
pub struct LineBuffer {
    pub pending: Vec<u8>,
}

impl LineBuffer {
    /// Holds at most one open record: no newline is buffered.
    pub open spec fn wf(&self) -> bool {
        has_no_newline(self.pending@)
    }

    pub fn new() -> (r: LineBuffer)
        ensures
            r.wf(),
            r.pending@ == Seq::<u8>::empty(),
    {
        LineBuffer { pending: Vec::new() }
    }

    /// Appends `chunk` and hands out the records it completes; the bytes after
    /// the last newline stay buffered for the next chunk.
    pub fn feed(&mut self, chunk: &[u8]) -> (out: Vec<Vec<u8>>)
        requires
            old(self).wf(),
        ensures
            final(self).wf(),
            out@.map_values(|r: Vec<u8>| r@) == records(old(self).pending@ + chunk@),
            final(self).pending@ == partial(old(self).pending@ + chunk@),
    {
        let mut buf: Vec<u8> = Vec::new();
        std::mem::swap(&mut buf, &mut self.pending);
        let ghost pend0 = buf@;
        let mut k: usize = 0;
        while k < chunk.len()
            invariant
                k <= chunk@.len(),
                buf@ == pend0 + chunk@.subrange(0, k as int),
            decreases chunk@.len() - k,
        {
            buf.push(chunk[k]);
            assert(pend0 + chunk@.subrange(0, k + 1) =~= (pend0 + chunk@.subrange(0, k as int)).push(
                chunk@[k as int],
            ));
            k = k + 1;
        }
        assert(chunk@.subrange(0, chunk@.len() as int) =~= chunk@);
        let ghost all = buf@;
        let n = buf.len();
        let mut out: Vec<Vec<u8>> = Vec::new();
        let mut start: usize = 0;
        let mut i: usize = 0;
        assert(all.subrange(0, 0) =~= Seq::<u8>::empty());
        assert(all.subrange(0, n as int) =~= all);
        while i < n
            invariant
                n == buf@.len(),
                buf@ == all,
                start <= i <= n,
                out@.map_values(|r: Vec<u8>| r@) + scan_records(
                    all.subrange(start as int, i as int),
                    all.subrange(i as int, n as int),
                ) == records(all),
                scan_partial(all.subrange(start as int, i as int), all.subrange(i as int, n as int))
                    == partial(all),
            decreases n - i,
        {
            let ghost cur = all.subrange(start as int, i as int);
            let ghost rest = all.subrange(i as int, n as int);
            assert(rest[0] == all[i as int]);
            assert(rest.drop_first() =~= all.subrange(i + 1, n as int));
            if buf[i] == NEWLINE {
                if i > start {
                    let mut line: Vec<u8> = Vec::new();
                    let mut j: usize = start;
                    while j < i
                        invariant
                            start <= j <= i < n,
                            buf@ == all,
                            n == buf@.len(),
                            line@ == all.subrange(start as int, j as int),
                        decreases i - j,
                    {
                        line.push(buf[j]);
                        assert(all.subrange(start as int, j + 1) =~= all.subrange(
                            start as int,
                            j as int,
                        ).push(all[j as int]));
                        j = j + 1;
                    }
                    let ghost before = out@.map_values(|r: Vec<u8>| r@);
                    out.push(line);
                    assert(out@.map_values(|r: Vec<u8>| r@) =~= before.push(cur));
                    assert(before + (seq![cur] + scan_records(Seq::empty(), rest.drop_first()))
                        =~= before.push(cur) + scan_records(Seq::empty(), rest.drop_first()));
                } else {
                    assert(cur.len() == 0);
                    assert(Seq::<Seq<u8>>::empty() + scan_records(Seq::empty(), rest.drop_first())
                        =~= scan_records(Seq::empty(), rest.drop_first()));
                }
                start = i + 1;
                assert(all.subrange(start as int, i + 1) =~= Seq::<u8>::empty());
            } else {
                assert(cur.push(rest[0]) =~= all.subrange(start as int, i + 1));
            }
            i = i + 1;
        }
        assert(all.subrange(n as int, n as int) =~= Seq::<u8>::empty());
        assert(out@.map_values(|r: Vec<u8>| r@) + Seq::<Seq<u8>>::empty() =~= out@.map_values(
            |r: Vec<u8>| r@,
        ));
        let mut rest: Vec<u8> = Vec::new();
        let mut j: usize = start;
        while j < n
            invariant
                start <= j <= n,
                buf@ == all,
                n == buf@.len(),
                rest@ == all.subrange(start as int, j as int),
            decreases n - j,
        {
            rest.push(buf[j]);
            assert(all.subrange(start as int, j + 1) =~= all.subrange(start as int, j as int).push(
                all[j as int],
            ));
            j = j + 1;
        }
        self.pending = rest;
        proof {
            lemma_partial_no_newline(Seq::empty(), all);
        }
        out
    }
}

} // verus!
