//! Reassembly of a file from successive range reads.
//!
//! A player fetches a file as a series of range requests.  Whatever
//! chunking it chooses, as long as the resolved windows tile the file —
//! consecutive, no gap and no overlap, from byte zero to the last byte —
//! the bodies served for them concatenate to exactly the remote file's
//! bytes.

use vstd::prelude::*;

use crate::worker::ReadOutcome;
use crate::worker::serve_outcome;

verus! {

/// The body served for the inclusive window `w` of `file`.
pub open spec fn served_body(file: Seq<u8>, w: (u64, u64)) -> Seq<u8>
    recommends
        w.0 <= w.1 < file.len(),
{
    file.subrange(w.0 as int, w.1 + 1)
}

/// The bodies served for the windows `ws`, concatenated in request order.
pub open spec fn concat_bodies(file: Seq<u8>, ws: Seq<(u64, u64)>) -> Seq<u8>
    decreases ws.len(),
{
    if ws.len() == 0 {
        Seq::<u8>::empty()
    } else {
        served_body(file, ws[0]) + concat_bodies(file, ws.skip(1))
    }
}

/// Do the windows `ws` tile `[lo, total)`: start at `lo`, each next window
/// beginning right after the previous one ends, the last ending at
/// `total - 1`?
pub open spec fn tiles_from(ws: Seq<(u64, u64)>, lo: int, total: int) -> bool {
    &&& (forall|i: int| 0 <= i < ws.len() ==> (#[trigger] ws[i]).0 <= ws[i].1 < total)
    &&& (ws.len() == 0 ==> lo == total)
    &&& (ws.len() > 0 ==> ws[0].0 == lo && ws[ws.len() - 1].1 == total - 1)
    &&& (forall|i: int| 0 <= i < ws.len() - 1 ==> (#[trigger] ws[i + 1]).0 == ws[i].1 + 1)
}

/// Do the windows `ws` tile the whole of a `total`-byte file?
pub open spec fn tiles(ws: Seq<(u64, u64)>, total: int) -> bool {
    tiles_from(ws, 0, total)
}

/// Windows that tile `[lo, total)` serve, concatenated, exactly the bytes
/// `lo` through `total - 1`.
proof fn lemma_concat_from(file: Seq<u8>, ws: Seq<(u64, u64)>, lo: int)
    requires
        tiles_from(ws, lo, file.len() as int),
        0 <= lo <= file.len(),
    ensures
        concat_bodies(file, ws) == file.subrange(lo, file.len() as int),
    decreases ws.len(),
{
    if ws.len() == 0 {
        assert(file.subrange(lo, file.len() as int) =~= Seq::<u8>::empty());
    } else {
        let w = ws[0];
        let rest = ws.skip(1);
        assert(forall|i: int| 0 <= i < rest.len() ==> rest[i] == ws[i + 1]);
        if rest.len() == 0 {
            assert(w.1 == file.len() - 1);
            assert(concat_bodies(file, rest) == Seq::<u8>::empty());
            assert(concat_bodies(file, ws) =~= served_body(file, w));
            assert(served_body(file, w) =~= file.subrange(lo, file.len() as int));
        } else {
            assert(tiles_from(rest, w.1 + 1, file.len() as int)) by {
                assert(rest[0] == ws[1]);
                assert(ws[(0int) + 1].0 == ws[0int].1 + 1);
                assert(rest[rest.len() - 1] == ws[ws.len() - 1]);
                assert forall|i: int| 0 <= i < rest.len() - 1 implies (#[trigger] rest[i + 1]).0
                    == rest[i].1 + 1 by {
                    assert(rest[i + 1] == ws[i + 2]);
                    assert(rest[i] == ws[i + 1]);
                    assert(ws[(i + 1) + 1].0 == ws[i + 1].1 + 1);
                }
            }
            lemma_concat_from(file, rest, w.1 + 1);
            assert(concat_bodies(file, ws) == served_body(file, w) + concat_bodies(file, rest));
            assert(served_body(file, w) + file.subrange(w.1 + 1, file.len() as int)
                =~= file.subrange(lo, file.len() as int));
        }
    }
}

/// Successive reads reassemble the file: for any chunking whose resolved
/// windows tile the file — consecutive, without gap or overlap — the
/// served bodies concatenate to exactly the file's bytes.
pub proof fn lemma_sequential_reads_reassemble(file: Seq<u8>, ws: Seq<(u64, u64)>)
    requires
        tiles(ws, file.len() as int),
    ensures
        concat_bodies(file, ws) == file,
{
    lemma_concat_from(file, ws, 0);
    assert(file.subrange(0, file.len() as int) =~= file);
}

/// What a Serving worker hands back for a request is exactly the served
/// body of the window it resolved: reassembly therefore speaks of the
/// very bytes the worker delivers.
pub proof fn lemma_serve_outcome_is_served_body(file: Seq<u8>, range: Option<Seq<char>>)
    requires
        0 < file.len() <= u64::MAX,
    ensures
        serve_outcome(file, range) matches ReadOutcome::Served { start, end, body } && body
            == served_body(file, (start, end)),
{
}

} // verus!
