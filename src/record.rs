//! The trace file format: one line per observed call, each the raw path bytes
//! followed by a newline byte, with no escaping and no header.

use vstd::prelude::*;
use vstd::seq_lib::{to_multiset_contains, to_multiset_len};

verus! {

/// The byte that ends each record.
pub const NEWLINE: u8 = 10;

/// The record written for one observed path.
pub open spec fn record_of(path: Seq<u8>) -> Seq<u8> {
    path.push(NEWLINE)
}

/// A path that can be recorded without ambiguity: it holds no newline byte.
pub open spec fn has_no_newline(path: Seq<u8>) -> bool {
    forall|i: int| 0 <= i < path.len() ==> path[i] != NEWLINE
}

/// The trace left by recording `paths` one after the other, in that order.
pub open spec fn log_of(paths: Seq<Seq<u8>>) -> Seq<u8>
    decreases paths.len(),
{
    if paths.len() == 0 {
        Seq::empty()
    } else {
        log_of(paths.drop_last()) + record_of(paths.last())
    }
}

/// `lines` is a decoding of the trace `bytes`: a sequence of newline-free
/// paths whose records, in order, make up exactly `bytes`.
pub open spec fn decodes_to(bytes: Seq<u8>, lines: Seq<Seq<u8>>) -> bool {
    &&& log_of(lines) == bytes
    &&& forall|k: int| 0 <= k < lines.len() ==> has_no_newline(#[trigger] lines[k])
}

/// A trace that ends on a record boundary: empty, or with a newline last.
pub open spec fn is_complete(bytes: Seq<u8>) -> bool {
    bytes.len() == 0 || bytes.last() == NEWLINE
}

/// The number of newline bytes in `bytes`, which is the number of lines of
/// a trace.
pub open spec fn newline_count(bytes: Seq<u8>) -> nat
    decreases bytes.len(),
{
    if bytes.len() == 0 {
        0
    } else {
        newline_count(bytes.drop_last()) + if bytes.last() == NEWLINE {
            1nat
        } else {
            0nat
        }
    }
}

/// The paths held by a vector of byte vectors.
pub open spec fn lines_view(lines: Seq<Vec<u8>>) -> Seq<Seq<u8>> {
    lines.map_values(|l: Vec<u8>| l@)
}

/// Appends the record of `path` to `out`: the path bytes exactly as given,
/// then one newline byte.
pub fn log(out: &mut Vec<u8>, path: &[u8])
    requires
        old(out)@.len() + path@.len() < usize::MAX,
    ensures
        final(out)@ == old(out)@ + record_of(path@),
{
    let mut i: usize = 0;
    while i < path.len()
        invariant
            i <= path@.len(),
            out@ == old(out)@ + path@.subrange(0, i as int),
            old(out)@.len() + path@.len() < usize::MAX,
        decreases path@.len() - i,
    {
        out.push(path[i]);
        proof {
            assert(path@.subrange(0, i + 1) =~= path@.subrange(0, i as int).push(path@[i as int]));
        }
        i = i + 1;
    }
    out.push(NEWLINE);
    proof {
        assert(path@.subrange(0, path@.len() as int) =~= path@);
        assert(out@ =~= old(out)@ + record_of(path@));
    }
}

/// The trace of a non-empty sequence of records ends with a newline byte.
proof fn lemma_log_ends_with_newline(paths: Seq<Seq<u8>>)
    requires
        paths.len() > 0,
    ensures
        log_of(paths).len() > paths.last().len(),
        log_of(paths).last() == NEWLINE,
{
}

proof fn lemma_newline_count_concat(a: Seq<u8>, b: Seq<u8>)
    ensures
        newline_count(a + b) == newline_count(a) + newline_count(b),
    decreases b.len(),
{
    if b.len() == 0 {
        assert(a + b =~= a);
    } else {
        lemma_newline_count_concat(a, b.drop_last());
        assert((a + b).drop_last() =~= a + b.drop_last());
    }
}

proof fn lemma_newline_free_count(path: Seq<u8>)
    requires
        has_no_newline(path),
    ensures
        newline_count(path) == 0,
    decreases path.len(),
{
    if path.len() > 0 {
        lemma_newline_free_count(path.drop_last());
    }
}

/// Recording a newline-free path after a trace adds exactly one line, equal
/// to that path, after the lines already there.
pub proof fn lemma_record_adds_line(bytes: Seq<u8>, lines: Seq<Seq<u8>>, path: Seq<u8>)
    requires
        decodes_to(bytes, lines),
        has_no_newline(path),
    ensures
        decodes_to(bytes + record_of(path), lines.push(path)),
        newline_count(bytes + record_of(path)) == newline_count(bytes) + 1,
{
    assert(lines.push(path).drop_last() =~= lines);
    assert forall|k: int| 0 <= k < lines.push(path).len() implies has_no_newline(
        #[trigger] lines.push(path)[k],
    ) by {
        if k < lines.len() {
            assert(lines.push(path)[k] == lines[k]);
        }
    }
    lemma_newline_count_concat(bytes, record_of(path));
    lemma_newline_free_count(path);
    assert(record_of(path).drop_last() =~= path);
}

/// A trace has at most one decoding: reading it back yields the recorded
/// paths byte for byte, whatever byte values they hold.
pub proof fn lemma_decoding_unique(bytes: Seq<u8>, a: Seq<Seq<u8>>, b: Seq<Seq<u8>>)
    requires
        decodes_to(bytes, a),
        decodes_to(bytes, b),
    ensures
        a == b,
    decreases a.len(),
{
    if a.len() == 0 {
        if b.len() > 0 {
            lemma_log_ends_with_newline(b);
        }
        assert(a =~= b);
    } else {
        lemma_log_ends_with_newline(a);
        if b.len() == 0 {
            assert(false);
        }
        let x = log_of(a.drop_last());
        let y = log_of(b.drop_last());
        let p = a.last();
        let q = b.last();
        assert(has_no_newline(a[a.len() - 1]));
        assert(has_no_newline(b[b.len() - 1]));
        assert(bytes == x + p.push(NEWLINE));
        assert(bytes == y + q.push(NEWLINE));
        if p.len() < q.len() {
            lemma_log_ends_with_newline(a.drop_last());
            let j = x.len() - 1;
            assert(bytes[j] == x[j]);
            assert(bytes[j] == q[j - y.len()]);
            assert(false);
        }
        if q.len() < p.len() {
            lemma_log_ends_with_newline(b.drop_last());
            let j = y.len() - 1;
            assert(bytes[j] == y[j]);
            assert(bytes[j] == p[j - x.len()]);
            assert(false);
        }
        assert(x =~= bytes.subrange(0, x.len() as int));
        assert(y =~= bytes.subrange(0, y.len() as int));
        assert(p =~= bytes.subrange(x.len() as int, bytes.len() - 1));
        assert(q =~= bytes.subrange(y.len() as int, bytes.len() - 1));
        assert forall|k: int| 0 <= k < a.drop_last().len() implies has_no_newline(
            #[trigger] a.drop_last()[k],
        ) by {
            assert(a.drop_last()[k] == a[k]);
        }
        assert forall|k: int| 0 <= k < b.drop_last().len() implies has_no_newline(
            #[trigger] b.drop_last()[k],
        ) by {
            assert(b.drop_last()[k] == b[k]);
        }
        lemma_decoding_unique(x, a.drop_last(), b.drop_last());
        assert(a =~= a.drop_last().push(p));
        assert(b =~= b.drop_last().push(q));
    }
}

/// Recording newline-free paths one after the other leaves a trace with
/// exactly one line per recorded path, none merged and none cut short, in the
/// order in which the records were written; reading it back gives exactly
/// those paths.
pub proof fn lemma_round_trip(paths: Seq<Seq<u8>>, lines: Seq<Seq<u8>>)
    requires
        forall|k: int| 0 <= k < paths.len() ==> has_no_newline(#[trigger] paths[k]),
        decodes_to(log_of(paths), lines),
    ensures
        is_complete(log_of(paths)),
        newline_count(log_of(paths)) == paths.len(),
        lines == paths,
    decreases paths.len(),
{
    if paths.len() > 0 {
        lemma_log_ends_with_newline(paths);
        let init = paths.drop_last();
        assert forall|k: int| 0 <= k < init.len() implies has_no_newline(#[trigger] init[k]) by {
            assert(init[k] == paths[k]);
        }
        lemma_round_trip(init, init);
        assert(has_no_newline(paths[paths.len() - 1]));
        lemma_record_adds_line(log_of(init), init, paths.last());
        assert(init.push(paths.last()) =~= paths);
    }
    lemma_decoding_unique(log_of(paths), paths, lines);
}

proof fn lemma_flatten_len(calls: Seq<Seq<Seq<u8>>>, n: nat)
    requires
        forall|t: int| 0 <= t < calls.len() ==> #[trigger] calls[t].len() == n,
    ensures
        calls.flatten().len() == calls.len() * n,
    decreases calls.len(),
{
    if calls.len() > 0 {
        assert forall|t: int| 0 <= t < calls.drop_first().len() implies #[trigger] calls.drop_first()[t].len()
            == n by {
            assert(calls.drop_first()[t] == calls[t + 1]);
        }
        lemma_flatten_len(calls.drop_first(), n);
        assert(calls.first().len() == n);
        let m = calls.len();
        assert(m * n == n + (m - 1) * n) by (nonlinear_arith);
    }
}

/// `n` callers each record `n` newline-free paths, and a lock lets each
/// record into the trace whole, in whatever order the callers take it. The
/// trace then holds exactly `n * n` lines, none merged and none cut short,
/// and the lines read back are the recorded paths, each as often as it was
/// recorded, though not necessarily in the order of the calls.
pub proof fn lemma_concurrent_records(
    calls: Seq<Seq<Seq<u8>>>,
    written: Seq<Seq<u8>>,
    lines: Seq<Seq<u8>>,
)
    requires
        forall|t: int| 0 <= t < calls.len() ==> #[trigger] calls[t].len() == calls.len(),
        forall|k: int|
            0 <= k < calls.flatten().len() ==> has_no_newline(#[trigger] calls.flatten()[k]),
        written.to_multiset() == calls.flatten().to_multiset(),
        decodes_to(log_of(written), lines),
    ensures
        newline_count(log_of(written)) == calls.len() * calls.len(),
        lines.len() == calls.len() * calls.len(),
        lines.to_multiset() == calls.flatten().to_multiset(),
{
    let all = calls.flatten();
    assert forall|k: int| 0 <= k < written.len() implies has_no_newline(#[trigger] written[k]) by {
        assert(written.contains(written[k]));
        to_multiset_contains(written, written[k]);
        to_multiset_contains(all, written[k]);
        let j = choose|j: int| 0 <= j < all.len() && all[j] == written[k];
        assert(has_no_newline(all[j]));
    }
    lemma_round_trip(written, lines);
    to_multiset_len(written);
    to_multiset_len(all);
    lemma_flatten_len(calls, calls.len());
}

/// Splits a trace into its lines, without their newline bytes. Bytes after
/// the last newline (a record cut short) come back as one last line.
pub fn read_lines(bytes: &[u8]) -> (r: Vec<Vec<u8>>)
    ensures
        forall|k: int| 0 <= k < r@.len() ==> has_no_newline(#[trigger] r@[k]@),
        is_complete(bytes@) ==> log_of(lines_view(r@)) == bytes@,
        !is_complete(bytes@) ==> r@.len() > 0 && log_of(lines_view(r@).drop_last()) + r@.last()@
            == bytes@,
{
    let mut lines: Vec<Vec<u8>> = Vec::new();
    let mut current: Vec<u8> = Vec::new();
    let mut i: usize = 0;
    while i < bytes.len()
        invariant
            i <= bytes@.len(),
            log_of(lines_view(lines@)) + current@ == bytes@.subrange(0, i as int),
            forall|k: int| 0 <= k < lines@.len() ==> has_no_newline(#[trigger] lines@[k]@),
            has_no_newline(current@),
            i > 0 && bytes@[i - 1] == NEWLINE ==> current@.len() == 0,
            i > 0 && bytes@[i - 1] != NEWLINE ==> current@.len() > 0,
        decreases bytes@.len() - i,
    {
        let b = bytes[i];
        proof {
            assert(bytes@.subrange(0, i + 1) =~= bytes@.subrange(0, i as int).push(b));
        }
        if b == NEWLINE {
            let ghost before = lines@;
            let ghost line = current@;
            lines.push(current);
            current = Vec::new();
            proof {
                assert(lines_view(lines@) =~= lines_view(before).push(line));
                assert(lines_view(lines@).drop_last() =~= lines_view(before));
                assert(log_of(lines_view(lines@)) + current@ =~= bytes@.subrange(0, i + 1));
            }
        } else {
            current.push(b);
            proof {
                assert(has_no_newline(current@));
            }
        }
        i = i + 1;
    }
    proof {
        assert(bytes@.subrange(0, bytes@.len() as int) =~= bytes@);
    }
    if current.len() > 0 {
        let ghost before = lines@;
        let ghost line = current@;
        lines.push(current);
        proof {
            assert(lines_view(lines@) =~= lines_view(before).push(line));
            assert(lines_view(lines@).drop_last() =~= lines_view(before));
        }
    } else {
        proof {
            assert(log_of(lines_view(lines@)) + current@ =~= log_of(lines_view(lines@)));
        }
    }
    lines
}

} // verus!
