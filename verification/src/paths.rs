//! Path-string helpers for the reconciliation engine: the final filename
//! component of a path, and the fixed allow-list of supported audio file
//! extensions (matched case-insensitively).

use vstd::prelude::*;

verus! {

/// Index of the first character after the last `'/'`, or `0` when the path
/// holds no `'/'`.
pub open spec fn basename_start(p: Seq<char>) -> int
    decreases p.len(),
{
    if p.len() == 0 {
        0
    } else if p.last() == '/' {
        p.len() as int
    } else {
        basename_start(p.drop_last())
    }
}

/// The final filename component: everything after the last `'/'`.
pub open spec fn basename(p: Seq<char>) -> Seq<char> {
    p.subrange(basename_start(p), p.len() as int)
}

pub proof fn lemma_basename_start_le(p: Seq<char>)
    ensures
        0 <= basename_start(p) <= p.len(),
    decreases p.len(),
{
    if p.len() > 0 && p.last() != '/' {
        lemma_basename_start_le(p.drop_last());
    }
}

/// ASCII lowercasing of one character.
pub open spec fn lower_char(c: char) -> char {
    if 'A' <= c && c <= 'Z' {
        ((c as u8) + 32) as char
    } else {
        c
    }
}

/// ASCII lowercasing of a character sequence.
pub open spec fn lower_seq(s: Seq<char>) -> Seq<char> {
    s.map_values(|c: char| lower_char(c))
}

/// Index of the first character after the last `'.'`, or `0` when there is
/// no `'.'`.
pub open spec fn ext_start(b: Seq<char>) -> int
    decreases b.len(),
{
    if b.len() == 0 {
        0
    } else if b.last() == '.' {
        b.len() as int
    } else {
        ext_start(b.drop_last())
    }
}

pub proof fn lemma_ext_start_le(b: Seq<char>)
    ensures
        0 <= ext_start(b) <= b.len(),
    decreases b.len(),
{
    if b.len() > 0 && b.last() != '.' {
        lemma_ext_start_le(b.drop_last());
    }
}

/// Whether the filename component has an extension: a `'.'` that is neither
/// the first character nor the end of the name.
pub open spec fn has_extension(b: Seq<char>) -> bool {
    ext_start(b) > 1
}

/// The extension of a filename component, meaningful when `has_extension`.
pub open spec fn extension_of(b: Seq<char>) -> Seq<char> {
    b.subrange(ext_start(b), b.len() as int)
}

/// The fixed allow-list: mp3, aac, wav, flac, matched case-insensitively.
pub open spec fn is_supported_ext(e: Seq<char>) -> bool {
    ||| lower_seq(e) == "mp3"@
    ||| lower_seq(e) == "aac"@
    ||| lower_seq(e) == "wav"@
    ||| lower_seq(e) == "flac"@
}

/// Whether a path names a file with a supported audio extension.
pub open spec fn is_supported_path(p: Seq<char>) -> bool {
    &&& has_extension(basename(p))
    &&& is_supported_ext(extension_of(basename(p)))
}

fn lower_char_x(c: char) -> (r: char)
    ensures
        r == lower_char(c),
{
    if 'A' <= c && c <= 'Z' {
        ((c as u8) + 32) as char
    } else {
        c
    }
}

/// Case-insensitive comparison of `a` against an already-lowercase `b`.
fn eq_lowered(a: &str, b: &str) -> (r: bool)
    ensures
        r == (lower_seq(a@) == b@),
{
    let na = a.unicode_len();
    let nb = b.unicode_len();
    if na != nb {
        assert(lower_seq(a@).len() == a@.len());
        return false;
    }
    let mut i: usize = 0;
    while i < na
        invariant
            na == a@.len(),
            nb == b@.len(),
            na == nb,
            i <= na,
            forall|j: int| 0 <= j < i ==> lower_seq(a@)[j] == b@[j],
        decreases na - i,
    {
        let ca = lower_char_x(a.get_char(i));
        let cb = b.get_char(i);
        if ca != cb {
            assert(lower_seq(a@)[i as int] != b@[i as int]);
            return false;
        }
        i += 1;
    }
    proof {
        assert(lower_seq(a@) =~= b@);
    }
    true
}

/// Index of the first character after the last occurrence of `sep`, or `0`.
/// The loop realizes `basename_start` / `ext_start` for `'/'` and `'.'`.
fn after_last(p: &str, sep: char) -> (r: usize)
    ensures
        sep == '/' ==> r == basename_start(p@),
        sep == '.' ==> r == ext_start(p@),
        r <= p@.len(),
{
    let n = p.unicode_len();
    let mut start: usize = 0;
    let mut i: usize = 0;
    while i < n
        invariant
            n == p@.len(),
            i <= n,
            start <= i,
            sep == '/' ==> start == basename_start(p@.take(i as int)),
            sep == '.' ==> start == ext_start(p@.take(i as int)),
        decreases n - i,
    {
        let c = p.get_char(i);
        proof {
            assert(p@.take(i + 1).drop_last() =~= p@.take(i as int));
            assert(p@.take(i + 1).last() == p@[i as int]);
        }
        if c == sep {
            start = i + 1;
        }
        i += 1;
    }
    proof {
        assert(p@.take(n as int) =~= p@);
    }
    start
}

/// The final filename component of `p`: everything after the last `'/'`.
pub fn file_name(p: &str) -> (r: String)
    ensures
        r@ == basename(p@),
{
    let n = p.unicode_len();
    let start = after_last(p, '/');
    let b = p.substring_char(start, n);
    b.to_owned()
}

/// Whether `path` names a file whose extension is on the allow-list
/// {mp3, aac, wav, flac}, matched case-insensitively.
pub fn is_supported_file(path: &str) -> (r: bool)
    ensures
        r == is_supported_path(path@),
{
    let b = file_name(path);
    let bs = b.as_str();
    let nb = bs.unicode_len();
    let es = after_last(bs, '.');
    if es <= 1 {
        return false;
    }
    let ext = bs.substring_char(es, nb);
    assert(ext@ == extension_of(basename(path@)));
    eq_lowered(ext, "mp3") || eq_lowered(ext, "aac") || eq_lowered(ext, "wav") || eq_lowered(
        ext,
        "flac",
    )
}

/// Keeps exactly the entries of a directory listing whose extension is on
/// the allow-list; order is preserved. This is the pure half of the
/// filesystem scanner: the caller lists the directory, this filters it.
pub fn filter_supported_files(entries: Vec<String>) -> (r: Vec<String>)
    ensures
        r.deep_view() == entries.deep_view().filter(|p: Seq<char>| is_supported_path(p)),
{
    let mut out: Vec<String> = Vec::new();
    let mut i: usize = 0;
    while i < entries.len()
        invariant
            i <= entries.len(),
            out.deep_view() == entries.deep_view().take(i as int).filter(
                |p: Seq<char>| is_supported_path(p),
            ),
        decreases entries.len() - i,
    {
        let ghost pre = entries.deep_view().take(i as int);
        let keep = is_supported_file(entries[i].as_str());
        proof {
            assert(entries.deep_view().take(i + 1).drop_last() =~= pre);
            assert(entries.deep_view().take(i + 1).last() == entries.deep_view()[i as int]);
            reveal_with_fuel(Seq::filter, 2);
        }
        if keep {
            out.push(entries[i].clone());
            proof {
                assert(out.deep_view() =~= pre.filter(|p: Seq<char>| is_supported_path(p)).push(
                    entries.deep_view()[i as int],
                ));
            }
        } else {
            proof {
                assert(out.deep_view() =~= pre.filter(|p: Seq<char>| is_supported_path(p)));
            }
        }
        i += 1;
    }
    proof {
        assert(entries.deep_view().take(entries.len() as int) =~= entries.deep_view());
    }
    out
}

} // verus!
