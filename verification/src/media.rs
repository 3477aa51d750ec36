//! File-name extension handling: recognizing video files and mapping a
//! remote path to the content type its response advertises.

use vstd::prelude::*;

verus! {

/// What Unicode-lowercasing the characters `s` yields: the result of
/// `str::to_lowercase`, which depends on the characters alone.
pub uninterp spec fn lowercase_of(s: Seq<char>) -> Seq<char>;

/// Relies on `str::to_lowercase`: the result is a function of the input
/// characters alone (the Unicode lowercase mapping, independent of any
/// locale or environment), and an empty input stays empty.
#[verifier::external_body]
pub(crate) fn to_lowercase_str(s: &str) -> (r: String)
    ensures
        r@ == lowercase_of(s@),
        s@.len() == 0 ==> r@.len() == 0,
{
    s.to_lowercase()
}

/// Are the characters of `a` those of the literal `lit`?
pub(crate) fn str_eq_lit(a: &String, lit: &str) -> (r: bool)
    ensures
        r == (a@ == lit@),
{
    <String as PartialEq>::eq(a, &lit.to_owned())
}

/// Index where the file name begins: one past the last `/`, or zero when
/// the path holds none.
pub open spec fn name_start(s: Seq<char>) -> int
    decreases s.len(),
{
    if s.len() == 0 {
        0
    } else if s.last() == '/' {
        s.len() as int
    } else {
        name_start(s.drop_last())
    }
}

/// Index just past the last `.` of the file name, or zero when it holds
/// none.
pub open spec fn dot_end(name: Seq<char>) -> int
    decreases name.len(),
{
    if name.len() == 0 {
        0
    } else if name.last() == '.' {
        name.len() as int
    } else {
        dot_end(name.drop_last())
    }
}

/// The extension of `path`: what follows the last `.` of the file name,
/// provided that dot exists and is not the name's first character.  A name
/// such as `.hidden` therefore has no extension, while `movie.` has the
/// empty one.
pub open spec fn ext_of(path: Seq<char>) -> Option<Seq<char>> {
    let name = path.skip(name_start(path));
    let d = dot_end(name);
    if d <= 1 {
        None
    } else {
        Some(name.skip(d))
    }
}

/// Is `e` (already lowered) one of the recognized video extensions?
pub open spec fn is_video_ext(e: Seq<char>) -> bool {
    ||| e == seq!['m', 'p', '4']
    ||| e == seq!['m', 'k', 'v']
    ||| e == seq!['m', 'o', 'v']
    ||| e == seq!['w', 'e', 'b', 'm']
    ||| e == seq!['a', 'v', 'i']
    ||| e == seq!['m', '4', 'v']
}

/// Does `path` name a video file: does it carry a recognized video
/// extension, compared after Unicode lowercasing?
pub open spec fn spec_is_video_path(path: Seq<char>) -> bool {
    match ext_of(path) {
        Some(e) => is_video_ext(lowercase_of(e)),
        None => false,
    }
}

/// The content type advertised for `path`, from the static extension
/// table; anything unrecognized is served as an opaque byte stream.
pub open spec fn spec_content_type(path: Seq<char>) -> Seq<char> {
    let e = match ext_of(path) {
        Some(e) => lowercase_of(e),
        None => Seq::<char>::empty(),
    };
    if e == seq!['m', 'p', '4'] || e == seq!['m', '4', 'v'] {
        "video/mp4"@
    } else if e == seq!['m', 'o', 'v'] {
        "video/quicktime"@
    } else if e == seq!['w', 'e', 'b', 'm'] {
        "video/webm"@
    } else if e == seq!['m', 'k', 'v'] {
        "video/x-matroska"@
    } else if e == seq!['a', 'v', 'i'] {
        "video/x-msvideo"@
    } else {
        "application/octet-stream"@
    }
}

/// `name_start` names the unique index that follows the last `/`.
proof fn lemma_name_start(s: Seq<char>)
    ensures
        0 <= name_start(s) <= s.len(),
        name_start(s) > 0 ==> s[name_start(s) - 1] == '/',
        forall|k: int| name_start(s) <= k < s.len() ==> s[k] != '/',
    decreases s.len(),
{
    if s.len() > 0 && s.last() != '/' {
        lemma_name_start(s.drop_last());
        assert forall|k: int| name_start(s) <= k < s.len() implies s[k] != '/' by {
            if k < s.len() - 1 {
                assert(s.drop_last()[k] == s[k]);
            }
        }
        if name_start(s) > 0 {
            assert(s.drop_last()[name_start(s) - 1] == s[name_start(s) - 1]);
        }
    }
}

/// `dot_end` names the unique index that follows the last `.`.
proof fn lemma_dot_end(s: Seq<char>)
    ensures
        0 <= dot_end(s) <= s.len(),
        dot_end(s) > 0 ==> s[dot_end(s) - 1] == '.',
        forall|k: int| dot_end(s) <= k < s.len() ==> s[k] != '.',
    decreases s.len(),
{
    if s.len() > 0 && s.last() != '.' {
        lemma_dot_end(s.drop_last());
        assert forall|k: int| dot_end(s) <= k < s.len() implies s[k] != '.' by {
            if k < s.len() - 1 {
                assert(s.drop_last()[k] == s[k]);
            }
        }
        if dot_end(s) > 0 {
            assert(s.drop_last()[dot_end(s) - 1] == s[dot_end(s) - 1]);
        }
    }
}

/// Scan for the index following the last occurrence of `c` in `s`, or zero.
fn rfind_after(s: &str, c: char) -> (r: usize)
    ensures
        r <= s@.len(),
        r > 0 ==> s@[r - 1] == c,
        forall|k: int| r <= k < s@.len() ==> s@[k] != c,
{
    let n = s.unicode_len();
    let mut i: usize = n;
    while i > 0 && s.get_char(i - 1) != c
        invariant
            n == s@.len(),
            0 <= i <= n,
            forall|k: int| i <= k < n ==> s@[k] != c,
        decreases i,
    {
        i = i - 1;
    }
    i
}

/// Bounds of the extension within `path`: the index where it starts, or
/// nothing when the path has no extension.  The extension then runs to the
/// end of the path.
fn ext_start(path: &str) -> (r: Option<usize>)
    ensures
        match r {
            Some(i) => i <= path@.len() && ext_of(path@) == Some(path@.skip(i as int)),
            None => ext_of(path@) is None,
        },
{
    let n = path.unicode_len();
    let ns = rfind_after(path, '/');
    let ghost name = path@.skip(name_start(path@));
    proof {
        lemma_name_start(path@);
        let m = name_start(path@);
        if (ns as int) < m {
            assert(path@[m - 1] == '/');
        }
        if m < ns as int {
            assert(path@[ns - 1] == '/');
        }
        assert(ns as int == m);
    }
    let rest = path.substring_char(ns, n);
    proof {
        assert(rest@ =~= name);
    }
    let de = rfind_after(rest, '.');
    proof {
        lemma_dot_end(name);
        let d = dot_end(name);
        if (de as int) < d {
            assert(name[d - 1] == '.');
        }
        if d < de as int {
            assert(name[de - 1] == '.');
        }
        assert(de as int == d);
    }
    if de <= 1 {
        None
    } else {
        proof {
            assert(path@.skip(ns + de) =~= name.skip(de as int));
        }
        Some(ns + de)
    }
}

/// The views of the extension literals are the character sequences the
/// specs spell out.
proof fn lemma_video_ext_literals()
    ensures
        "mp4"@ == seq!['m', 'p', '4'],
        "mkv"@ == seq!['m', 'k', 'v'],
        "mov"@ == seq!['m', 'o', 'v'],
        "webm"@ == seq!['w', 'e', 'b', 'm'],
        "avi"@ == seq!['a', 'v', 'i'],
        "m4v"@ == seq!['m', '4', 'v'],
{
    reveal_strlit("mp4");
    reveal_strlit("mkv");
    reveal_strlit("mov");
    reveal_strlit("webm");
    reveal_strlit("avi");
    reveal_strlit("m4v");
    assert("mp4"@ =~= seq!['m', 'p', '4']);
    assert("mkv"@ =~= seq!['m', 'k', 'v']);
    assert("mov"@ =~= seq!['m', 'o', 'v']);
    assert("webm"@ =~= seq!['w', 'e', 'b', 'm']);
    assert("avi"@ =~= seq!['a', 'v', 'i']);
    assert("m4v"@ =~= seq!['m', '4', 'v']);
}

/// Does `path` name a video file?  True exactly when the path carries one
/// of the recognized video extensions, compared after Unicode lowercasing.
pub fn is_video_path(path: &str) -> (r: bool)
    ensures
        r == spec_is_video_path(path@),
{
    proof {
        lemma_video_ext_literals();
    }
    match ext_start(path) {
        None => false,
        Some(i) => {
            let n = path.unicode_len();
            let ext = path.substring_char(i, n);
            proof {
                assert(ext@ =~= path@.skip(i as int));
            }
            let low = to_lowercase_str(ext);
            str_eq_lit(&low, "mp4") || str_eq_lit(&low, "mkv") || str_eq_lit(&low, "mov")
                || str_eq_lit(&low, "webm") || str_eq_lit(&low, "avi") || str_eq_lit(&low, "m4v")
        },
    }
}

/// The content type served for `path`, from the static extension table:
/// recognized video extensions map to their video type, and anything else
/// to an opaque byte stream.
pub fn map_content_type(path: &str) -> (r: &'static str)
    ensures
        r@ == spec_content_type(path@),
{
    proof {
        lemma_video_ext_literals();
    }
    match ext_start(path) {
        None => {
            proof {
                // An absent extension compares unequal to every entry of the
                // table already by length.
                assert(seq!['m', 'p', '4'].len() == 3);
                assert(seq!['m', '4', 'v'].len() == 3);
                assert(seq!['m', 'o', 'v'].len() == 3);
                assert(seq!['w', 'e', 'b', 'm'].len() == 4);
                assert(seq!['m', 'k', 'v'].len() == 3);
                assert(seq!['a', 'v', 'i'].len() == 3);
            }
            "application/octet-stream"
        },
        Some(i) => {
            let n = path.unicode_len();
            let ext = path.substring_char(i, n);
            proof {
                assert(ext@ =~= path@.skip(i as int));
            }
            let low = to_lowercase_str(ext);
            if str_eq_lit(&low, "mp4") || str_eq_lit(&low, "m4v") {
                "video/mp4"
            } else if str_eq_lit(&low, "mov") {
                "video/quicktime"
            } else if str_eq_lit(&low, "webm") {
                "video/webm"
            } else if str_eq_lit(&low, "mkv") {
                "video/x-matroska"
            } else if str_eq_lit(&low, "avi") {
                "video/x-msvideo"
            } else {
                "application/octet-stream"
            }
        },
    }
}

} // verus!
