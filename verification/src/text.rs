//! Plain text helpers: ASCII key normalization, suffix tests, file stems,
//! and the padding used by the table renderer.

use vstd::prelude::*;
use vstd::string::*;

verus! {

/// `c` with an ASCII uppercase letter folded to lowercase; any other
/// character is left as it is.
pub open spec fn lower_char(c: char) -> char {
    if 'A' as int <= c as int <= 'Z' as int {
        (c as int + 32) as char
    } else {
        c
    }
}

/// `s` with every ASCII uppercase letter folded to lowercase: the
/// normal form of a color-slot key. Keys are compared case-insensitively
/// over the ASCII letters only: a letter outside ASCII is kept as it is,
/// so keys that differ only there stay distinct.
pub open spec fn norm_key(s: Seq<char>) -> Seq<char> {
    s.map_values(|c: char| lower_char(c))
}

/// Whether `s` ends with the suffix `suf`.
pub open spec fn ends_with(s: Seq<char>, suf: Seq<char>) -> bool {
    s.len() >= suf.len() && s.subrange(s.len() - suf.len(), s.len() as int) == suf
}

/// `n` spaces.
pub open spec fn spaces(n: nat) -> Seq<char> {
    Seq::new(n, |i: int| ' ')
}

/// `s` left-justified in a field `w` wide; text longer than the field is
/// kept whole.
pub open spec fn left_just(s: Seq<char>, w: nat) -> Seq<char> {
    if s.len() >= w {
        s
    } else {
        s + spaces((w - s.len()) as nat)
    }
}

/// `s` centered in a field `w` wide, any odd leftover space going to the
/// right; text longer than the field is kept whole.
pub open spec fn center(s: Seq<char>, w: nat) -> Seq<char> {
    if s.len() >= w {
        s
    } else {
        let pad = (w - s.len()) as nat;
        spaces(pad / 2) + s + spaces((pad - pad / 2) as nat)
    }
}

/// The normal form of `s`: every ASCII uppercase letter lowercased.
pub fn lower_string(s: &str) -> (r: String)
    ensures
        r@ == norm_key(s@),
{
    let n = s.unicode_len();
    let mut out = String::new();
    let mut i: usize = 0;
    while i < n
        invariant
            i <= n,
            n == s@.len(),
            out@ == norm_key(s@.subrange(0, i as int)),
        decreases n - i,
    {
        let c = s.get_char(i);
        let u = c as u32;
        if 65 <= u && u <= 90 {
            let lows = "abcdefghijklmnopqrstuvwxyz";
            proof {
                reveal_strlit("abcdefghijklmnopqrstuvwxyz");
            }
            let j = (u - 65) as usize;
            let piece = lows.substring_char(j, j + 1);
            assert(piece@ =~= seq![lower_char(c)]);
            out.append(piece);
        } else {
            let piece = s.substring_char(i, i + 1);
            assert(piece@ =~= seq![lower_char(c)]);
            out.append(piece);
        }
        proof {
            assert(s@.subrange(0, i + 1) =~= s@.subrange(0, i as int).push(c));
            assert(norm_key(s@.subrange(0, i + 1)) =~= norm_key(s@.subrange(0, i as int)).push(
                lower_char(c),
            ));
        }
        i = i + 1;
    }
    proof {
        assert(s@.subrange(0, n as int) =~= s@);
    }
    out
}

/// Whether `s` ends with `suf`.
pub fn str_ends_with(s: &str, suf: &str) -> (r: bool)
    ensures
        r == ends_with(s@, suf@),
{
    let n = s.unicode_len();
    let m = suf.unicode_len();
    if n < m {
        return false;
    }
    let tail = s.substring_char(n - m, n);
    let mut i: usize = 0;
    while i < m
        invariant
            i <= m,
            m == suf@.len(),
            n == s@.len(),
            n >= m,
            tail@ == s@.subrange(n - m, n as int),
            forall|k: int| 0 <= k < i ==> tail@[k] == suf@[k],
        decreases m - i,
    {
        if tail.get_char(i) != suf.get_char(i) {
            assert(tail@ != suf@);
            return false;
        }
        i = i + 1;
    }
    proof {
        assert(tail@ =~= suf@);
    }
    true
}

/// Appends `n` spaces to `out`.
pub fn append_spaces(out: &mut String, n: usize)
    ensures
        final(out)@ == old(out)@ + spaces(n as nat),
{
    let mut i: usize = 0;
    while i < n
        invariant
            i <= n,
            out@ == old(out)@ + spaces(i as nat),
        decreases n - i,
    {
        out.append(" ");
        proof {
            reveal_strlit(" ");
            assert(spaces((i + 1) as nat) =~= spaces(i as nat).push(' '));
        }
        i = i + 1;
    }
}

/// Appends `s` left-justified in a field `w` wide.
pub fn append_left_just(out: &mut String, s: &str, w: usize)
    ensures
        final(out)@ == old(out)@ + left_just(s@, w as nat),
{
    let n = s.unicode_len();
    out.append(s);
    if n < w {
        append_spaces(out, w - n);
        assert(out@ =~= old(out)@ + left_just(s@, w as nat));
    }
}

/// Appends `s` centered in a field `w` wide.
pub fn append_center(out: &mut String, s: &str, w: usize)
    ensures
        final(out)@ == old(out)@ + center(s@, w as nat),
{
    let n = s.unicode_len();
    if n >= w {
        out.append(s);
    } else {
        let pad = w - n;
        let l = pad / 2;
        append_spaces(out, l);
        out.append(s);
        append_spaces(out, pad - l);
        assert(out@ =~= old(out)@ + center(s@, w as nat));
    }
}

/// The base name of `path`, sans extension: what follows the last `/`,
/// cut before the last `.` when a dot stands past the first character of
/// that base name. It is the fallback display name of a palette whose
/// file gives none.
pub open spec fn file_stem(path: Seq<char>) -> Seq<char> {
    let base = base_name(path);
    let d = last_dot(base);
    if d <= 0 {
        base
    } else {
        base.subrange(0, d)
    }
}

/// What follows the last `/` of `path` (all of `path` when it has none).
pub open spec fn base_name(path: Seq<char>) -> Seq<char> {
    path.subrange(after_last_slash(path), path.len() as int)
}

/// The index just past the last `/` of `path`, or 0.
pub open spec fn after_last_slash(path: Seq<char>) -> int
    decreases path.len(),
{
    if path.len() == 0 {
        0
    } else if path[path.len() - 1] == '/' {
        path.len() as int
    } else {
        after_last_slash(path.drop_last())
    }
}

/// The index of the last `.` of `s`, or -1.
pub open spec fn last_dot(s: Seq<char>) -> int
    decreases s.len(),
{
    if s.len() == 0 {
        -1
    } else if s[s.len() - 1] == '.' {
        s.len() - 1
    } else {
        last_dot(s.drop_last())
    }
}

proof fn lemma_after_last_slash_bounds(path: Seq<char>)
    ensures
        0 <= after_last_slash(path) <= path.len(),
    decreases path.len(),
{
    if path.len() > 0 && path[path.len() - 1] != '/' {
        lemma_after_last_slash_bounds(path.drop_last());
    }
}

proof fn lemma_last_dot_bounds(s: Seq<char>)
    ensures
        -1 <= last_dot(s) < s.len(),
    decreases s.len(),
{
    if s.len() > 0 && s[s.len() - 1] != '.' {
        lemma_last_dot_bounds(s.drop_last());
    }
}

/// The base name of `path`, sans extension.
pub fn file_stem_of(path: &str) -> (r: String)
    ensures
        r@ == file_stem(path@),
{
    let n = path.unicode_len();
    // find the index just past the last '/'
    let mut start: usize = n;
    let mut cut = false;
    proof {
        assert(path@.subrange(0, n as int) =~= path@);
    }
    while start > 0 && !cut
        invariant
            start <= n,
            n == path@.len(),
            !cut ==> after_last_slash(path@) == after_last_slash(
                path@.subrange(0, start as int),
            ),
            cut ==> after_last_slash(path@) == start as int,
        decreases start + (if cut { 0int } else { 1int }),
    {
        let c = path.get_char(start - 1);
        proof {
            assert(path@.subrange(0, start as int).drop_last() =~= path@.subrange(0, start - 1));
        }
        if c == '/' {
            proof {
                assert(path@.subrange(0, start as int)[start - 1] == '/');
            }
            cut = true;
        } else {
            start = start - 1;
        }
    }
    proof {
        if !cut {
            assert(path@.subrange(0, 0) =~= Seq::<char>::empty());
        }
        assert(after_last_slash(path@) == start as int);
        lemma_after_last_slash_bounds(path@);
    }
    let base = path.substring_char(start, n);
    proof {
        assert(base@ =~= base_name(path@));
    }
    // find the last '.' of the base name
    let m = base.unicode_len();
    let mut dot: usize = m;
    let mut found = false;
    proof {
        assert(base@.subrange(0, m as int) =~= base@);
    }
    while dot > 0 && !found
        invariant
            dot <= m,
            m == base@.len(),
            !found ==> last_dot(base@) == last_dot(base@.subrange(0, dot as int)),
            found ==> dot < m && last_dot(base@) == dot as int,
        decreases dot,
    {
        let c = base.get_char(dot - 1);
        proof {
            assert(base@.subrange(0, dot as int).drop_last() =~= base@.subrange(0, dot - 1));
        }
        if c == '.' {
            proof {
                assert(base@.subrange(0, dot as int)[dot - 1] == '.');
            }
            found = true;
        }
        dot = dot - 1;
    }
    proof {
        if !found {
            assert(base@.subrange(0, 0) =~= Seq::<char>::empty());
            assert(last_dot(base@) == -1);
        }
    }
    if found && dot > 0 {
        let stem = base.substring_char(0, dot);
        proof {
            assert(stem@ =~= file_stem(path@));
        }
        stem.to_owned()
    } else {
        proof {
            assert(base@ =~= file_stem(path@));
        }
        base.to_owned()
    }
}

/// Normalization is idempotent: lowering a key twice equals lowering it
/// once.
pub proof fn lemma_norm_idempotent(s: Seq<char>)
    ensures
        norm_key(norm_key(s)) == norm_key(s),
{
    assert(norm_key(norm_key(s)) =~= norm_key(s));
}

} // verus!
