//! Directory-listing support: filtering the entries of a remote folder to
//! the recognized video files and sorting them case-insensitively.

use vstd::prelude::*;

use vstd::multiset::Multiset;

use crate::media::lowercase_of;
use crate::media::spec_is_video_path;

verus! {

/// The entries that name video files, in their original order.
pub open spec fn videos_of(entries: Seq<String>) -> Seq<String>
    decreases entries.len(),
{
    if entries.len() == 0 {
        Seq::<String>::empty()
    } else {
        let rest = videos_of(entries.drop_last());
        if spec_is_video_path(entries.last()@) {
            rest.push(entries.last())
        } else {
            rest
        }
    }
}

/// Lexicographic order on character sequences, compared position by
/// position by code point.
pub open spec fn lex_le(a: Seq<char>, b: Seq<char>) -> bool
    decreases a.len(),
{
    if a.len() == 0 {
        true
    } else if b.len() == 0 {
        false
    } else if (a[0] as u32) < (b[0] as u32) {
        true
    } else if (a[0] as u32) > (b[0] as u32) {
        false
    } else {
        lex_le(a.skip(1), b.skip(1))
    }
}

/// The sort key of a path: its Unicode-lowered characters.
pub open spec fn ci_key(s: String) -> Seq<char> {
    lowercase_of(s@)
}

/// Is `v` sorted ascending by case-insensitive path order?
pub open spec fn ci_sorted(v: Seq<String>) -> bool {
    forall|i: int, j: int|
        0 <= i < j < v.len() ==> lex_le(ci_key(#[trigger] v[i]), ci_key(#[trigger] v[j]))
}

/// Every key is at most itself.
proof fn lemma_lex_refl(a: Seq<char>)
    ensures
        lex_le(a, a),
    decreases a.len(),
{
    if a.len() > 0 {
        lemma_lex_refl(a.skip(1));
    }
}

/// The order is total: of any two keys, one is at most the other.
proof fn lemma_lex_total(a: Seq<char>, b: Seq<char>)
    ensures
        lex_le(a, b) || lex_le(b, a),
    decreases a.len(),
{
    if a.len() > 0 && b.len() > 0 && a[0] as u32 == b[0] as u32 {
        lemma_lex_total(a.skip(1), b.skip(1));
    }
}

/// The order is transitive.
proof fn lemma_lex_trans(a: Seq<char>, b: Seq<char>, c: Seq<char>)
    requires
        lex_le(a, b),
        lex_le(b, c),
    ensures
        lex_le(a, c),
    decreases a.len(),
{
    if a.len() > 0 && b.len() > 0 && c.len() > 0 && a[0] as u32 == b[0] as u32 && b[0] as u32
        == c[0] as u32 {
        lemma_lex_trans(a.skip(1), b.skip(1), c.skip(1));
    }
}

/// While two keys agree on their first `k` positions, their order is that
/// of their tails.
proof fn lemma_lex_skip(a: Seq<char>, b: Seq<char>, k: int)
    requires
        0 <= k <= a.len(),
        k <= b.len(),
        forall|j: int| 0 <= j < k ==> a[j] == b[j],
    ensures
        lex_le(a, b) == lex_le(a.skip(k), b.skip(k)),
    decreases k,
{
    if k > 0 {
        assert(a[0] == b[0]);
        assert(a.skip(1).skip(k - 1) =~= a.skip(k));
        assert(b.skip(1).skip(k - 1) =~= b.skip(k));
        assert(forall|j: int| 0 <= j < k - 1 ==> a.skip(1)[j] == b.skip(1)[j]);
        lemma_lex_skip(a.skip(1), b.skip(1), k - 1);
    } else {
        assert(a.skip(0) =~= a);
        assert(b.skip(0) =~= b);
    }
}

/// Compare two paths case-insensitively: `lex_le` on their lowered keys.
fn ci_le(a: &String, b: &String) -> (r: bool)
    ensures
        r == lex_le(ci_key(*a), ci_key(*b)),
{
    let la = crate::media::to_lowercase_str(a.as_str());
    let lb = crate::media::to_lowercase_str(b.as_str());
    lex_le_str(&la, &lb)
}

/// Compare two owned strings lexicographically by code point.
fn lex_le_str(a: &String, b: &String) -> (r: bool)
    ensures
        r == lex_le(a@, b@),
{
    let sa = a.as_str();
    let sb = b.as_str();
    let na = sa.unicode_len();
    let nb = sb.unicode_len();
    let m = if na < nb {
        na
    } else {
        nb
    };
    let mut k: usize = 0;
    while k < m
        invariant
            na == a@.len(),
            nb == b@.len(),
            m == if na < nb {
                na
            } else {
                nb
            },
            0 <= k <= m,
            sa@ == a@,
            sb@ == b@,
            forall|j: int| 0 <= j < k ==> a@[j] == b@[j],
        decreases m - k,
    {
        let ca = sa.get_char(k);
        let cb = sb.get_char(k);
        if (ca as u32) < (cb as u32) {
            proof {
                lemma_lex_skip(a@, b@, k as int);
            }
            return true;
        }
        if (ca as u32) > (cb as u32) {
            proof {
                lemma_lex_skip(a@, b@, k as int);
            }
            return false;
        }
        proof {
            vstd::utf8::char_u32_cast(ca, ca as u32);
            vstd::utf8::char_u32_cast(cb, cb as u32);
            assert(ca == cb);
        }
        k = k + 1;
    }
    proof {
        lemma_lex_skip(a@, b@, m as int);
    }
    na <= nb
}

/// Filter a remote folder's entries to the video files and sort them
/// case-insensitively ascending: the result holds exactly the entries
/// that name videos, ordered by their lowered paths.
pub fn filter_and_sort_videos(entries: Vec<String>) -> (r: Vec<String>)
    ensures
        ci_sorted(r@),
        r@.to_multiset() == videos_of(entries@).to_multiset(),
{
    broadcast use vstd::seq_lib::group_to_multiset_ensures;

    let n = entries.len();
    let mut work: Vec<String> = Vec::new();
    let mut i: usize = 0;
    while i < n
        invariant
            n == entries@.len(),
            0 <= i <= n,
            work@ == videos_of(entries@.take(i as int)),
        decreases n - i,
    {
        let e = clone_string(&entries[i]);
        proof {
            assert(entries@.take(i + 1).drop_last() =~= entries@.take(i as int));
            assert(entries@.take(i + 1).last() == entries@[i as int]);
        }
        if crate::media::is_video_path(e.as_str()) {
            proof {
                assert(e@ == entries@[i as int]@);
                assert(e == entries@[i as int]);
            }
            work.push(e);
        }
        i = i + 1;
    }
    proof {
        assert(entries@.take(n as int) =~= entries@);
    }
    let ghost all = videos_of(entries@);
    let mut out: Vec<String> = Vec::new();
    while work.len() > 0
        invariant
            ci_sorted(out@),
            forall|x: int, y: int|
                0 <= x < out@.len() && 0 <= y < work@.len() ==> lex_le(
                    ci_key(#[trigger] out@[x]),
                    ci_key(#[trigger] work@[y]),
                ),
            out@.to_multiset().add(work@.to_multiset()) == all.to_multiset(),
        decreases work.len(),
    {
        let wn = work.len();
        let mut m: usize = 0;
        let mut j: usize = 1;
        proof {
            lemma_lex_refl(ci_key(work@[0]));
        }
        while j < wn
            invariant
                wn == work@.len(),
                0 <= m < wn,
                1 <= j <= wn,
                forall|k: int| 0 <= k < j ==> lex_le(ci_key(work@[m as int]), ci_key(#[trigger] work@[k])),
            decreases wn - j,
        {
            if ci_le(&work[j], &work[m]) {
                proof {
                    assert forall|k: int| 0 <= k < j + 1 implies lex_le(
                        ci_key(work@[j as int]),
                        ci_key(#[trigger] work@[k]),
                    ) by {
                        if k < j {
                            lemma_lex_trans(
                                ci_key(work@[j as int]),
                                ci_key(work@[m as int]),
                                ci_key(work@[k]),
                            );
                        } else {
                            lemma_lex_refl(ci_key(work@[j as int]));
                        }
                    }
                }
                m = j;
            } else {
                proof {
                    lemma_lex_total(ci_key(work@[j as int]), ci_key(work@[m as int]));
                    assert(lex_le(ci_key(work@[m as int]), ci_key(work@[j as int])));
                }
            }
            j = j + 1;
        }
        let ghost work0 = work@;
        let ghost out0 = out@;
        let e = work.remove(m);
        out.push(e);
        proof {
            assert(out@ =~= out0.push(e));
            assert(work@ =~= work0.remove(m as int));
            assert forall|x: int, y: int|
                0 <= x < out@.len() && 0 <= y < work@.len() implies lex_le(
                ci_key(#[trigger] out@[x]),
                ci_key(#[trigger] work@[y]),
            ) by {
                let w = work@[y];
                assert(work0.contains(w)) by {
                    if y < m {
                        assert(work0[y] == work@[y]);
                    } else {
                        assert(work0[y + 1] == work@[y]);
                    }
                }
                let wi = choose|wi: int| 0 <= wi < work0.len() && work0[wi] == w;
                if x < out0.len() {
                    assert(lex_le(ci_key(out0[x]), ci_key(w)));
                } else {
                    assert(out@[x] == e);
                    assert(lex_le(ci_key(work0[m as int]), ci_key(work0[wi])));
                }
            }
            assert(ci_sorted(out@)) by {
                assert forall|x: int, y: int| 0 <= x < y < out@.len() implies lex_le(
                    ci_key(#[trigger] out@[x]),
                    ci_key(#[trigger] out@[y]),
                ) by {
                    if y < out0.len() {
                        assert(lex_le(ci_key(out0[x]), ci_key(out0[y])));
                    } else {
                        assert(out@[y] == e);
                        assert(work0.contains(e)) by {
                            assert(work0[m as int] == e);
                        }
                        assert(lex_le(ci_key(out0[x]), ci_key(work0[m as int])));
                    }
                }
            }
            assert(out@.to_multiset().add(work@.to_multiset()) =~= all.to_multiset()) by {
                assert(out@ == out0.push(e));
                out0.to_multiset_ensures();
                work0.to_multiset_ensures();
                assert(out0.push(e).to_multiset() =~= out0.to_multiset().insert(e));
                assert(out@.to_multiset() =~= out0.to_multiset().insert(e));
                assert(work@ == work0.remove(m as int));
                assert(work0[m as int] == e);
                assert(work0.remove(m as int).to_multiset() =~= work0.to_multiset().remove(e));
                assert(work@.to_multiset() =~= work0.to_multiset().remove(e));
                assert(work0.to_multiset().count(e) > 0) by {
                    assert(work0.contains(e)) by {
                        assert(work0[m as int] == e);
                    }
                }
            }
        }
    }
    proof {
        assert(work@.to_multiset() =~= Multiset::<String>::empty()) by {
            assert(work@ =~= Seq::<String>::empty());
        }
        assert(out@.to_multiset() =~= all.to_multiset());
    }
    out
}

/// Copy one owned string.
fn clone_string(s: &String) -> (c: String)
    ensures
        c == *s,
{
    s.clone()
}

} // verus!
