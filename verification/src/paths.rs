//! Unix path operations on path strings: joining, the final component and its
//! extension, with the meaning that `std::path::Path` gives them.

use vstd::prelude::*;
use crate::text::{chars_of};

verus! {

/// `base` joined with `rel` as `Path::join` does on Unix: an absolute `rel`
/// replaces `base`; otherwise a separator is put between them unless `base` is
/// empty or already ends with one.
pub open spec fn path_join(base: Seq<char>, rel: Seq<char>) -> Seq<char> {
    if rel.len() > 0 && rel[0] == '/' {
        rel
    } else if base.len() == 0 || base.last() == '/' {
        base + rel
    } else {
        base + seq!['/'] + rel
    }
}

/// The raw bytes of `base` joined with the raw bytes of `rel`, as `Path::join`
/// does on Unix, where a path is a byte string and `/` (byte 47) separates
/// components: an absolute `rel` replaces `base`; otherwise a separator is put
/// between them unless `base` is empty or already ends with one.
pub open spec fn path_join_bytes(base: Seq<u8>, rel: Seq<u8>) -> Seq<u8> {
    if rel.len() > 0 && rel[0] == 47u8 {
        rel
    } else if base.len() == 0 || base.last() == 47u8 {
        base + rel
    } else {
        base + seq![47u8] + rel
    }
}

/// The part of `s` after its last `c` (all of `s` when it holds no `c`).
pub open spec fn after_last(s: Seq<char>, c: char) -> Seq<char>
    decreases s.len(),
{
    if s.len() == 0 || s.last() == c {
        Seq::empty()
    } else {
        after_last(s.drop_last(), c).push(s.last())
    }
}

/// The final component of `p` as `Path::file_name` gives it: trailing separators
/// and `.` components are skipped; a final `..`, a lone root or `.`, or an empty
/// path have none.
pub open spec fn file_name(p: Seq<char>) -> Option<Seq<char>>
    decreases p.len(),
{
    if p.len() == 0 {
        None
    } else if p.last() == '/' {
        file_name(p.drop_last())
    } else {
        let seg = after_last(p, '/');
        if seg == seq!['.'] {
            if seg.len() < p.len() {
                file_name(p.subrange(0, p.len() - 2))
            } else {
                None
            }
        } else if seg == seq!['.', '.'] {
            None
        } else {
            Some(seg)
        }
    }
}

/// The extension of a file name as `Path::extension` gives it: the part after
/// the last `.`, where that dot is not the first character and the name is not `..`.
pub open spec fn name_extension(name: Seq<char>) -> Option<Seq<char>> {
    let after = after_last(name, '.');
    if name == seq!['.', '.'] || after.len() + 1 >= name.len() {
        None
    } else {
        Some(after)
    }
}

/// The extension of the final component of `p`.
pub open spec fn extension(p: Seq<char>) -> Option<Seq<char>> {
    match file_name(p) {
        Some(name) => name_extension(name),
        None => None,
    }
}

/// `after_last` is the run after the last `c`.
pub proof fn lemma_after_last(s: Seq<char>, c: char, k: int)
    requires
        0 <= k <= s.len(),
        forall|j: int| k <= j < s.len() ==> s[j] != c,
        k == 0 || s[k - 1] == c,
    ensures
        after_last(s, c) == s.subrange(k, s.len() as int),
    decreases s.len(),
{
    if s.len() == k {
        assert(s.subrange(k, k) =~= Seq::<char>::empty());
    } else {
        lemma_after_last(s.drop_last(), c, k);
        assert(s.subrange(k, s.len() - 1).push(s.last()) =~= s.subrange(k, s.len() as int));
    }
}

/// The index where the run of characters other than `c` that ends at `end` starts.
fn run_start(cs: &Vec<char>, end: usize, c: char) -> (k: usize)
    requires
        end <= cs.len(),
    ensures
        k <= end,
        forall|j: int| k <= j < end ==> cs@[j] != c,
        k == 0 || cs@[k - 1] == c,
{
    let mut k = end;
    while k > 0 && cs[k - 1] != c
        invariant
            k <= end <= cs.len(),
            forall|j: int| k <= j < end ==> cs@[j] != c,
        decreases k,
    {
        k = k - 1;
    }
    k
}

/// `base` joined with `rel`.
pub fn join_path(base: &str, rel: &str) -> (r: String)
    ensures
        r@ == path_join(base@, rel@),
{
    let b = chars_of(base);
    let c = chars_of(rel);
    if c.len() > 0 && c[0] == '/' {
        String::from_str(rel)
    } else if b.len() == 0 || b[b.len() - 1] == '/' {
        String::from_str(base).concat(rel)
    } else {
        proof {
            reveal_strlit("/");
            assert("/"@ =~= seq!['/']);
        }
        String::from_str(base).concat("/").concat(rel)
    }
}

/// Appends the bytes of `src` to `dst`.
fn append_bytes(dst: &mut Vec<u8>, src: &[u8])
    ensures
        final(dst)@ == old(dst)@ + src@,
{
    let mut i: usize = 0;
    while i < src.len()
        invariant
            i <= src@.len(),
            dst@ == old(dst)@ + src@.subrange(0, i as int),
        decreases src@.len() - i,
    {
        dst.push(src[i]);
        i = i + 1;
        assert(dst@ =~= old(dst)@ + src@.subrange(0, i as int));
    }
    assert(src@.subrange(0, src@.len() as int) =~= src@);
}

/// The raw path `base` joined with the raw path `rel`.
pub fn join_path_bytes(base: &[u8], rel: &[u8]) -> (r: Vec<u8>)
    ensures
        r@ == path_join_bytes(base@, rel@),
{
    let mut r: Vec<u8> = Vec::new();
    if rel.len() > 0 && rel[0] == 47u8 {
        append_bytes(&mut r, rel);
    } else if base.len() == 0 || base[base.len() - 1] == 47u8 {
        append_bytes(&mut r, base);
        append_bytes(&mut r, rel);
    } else {
        append_bytes(&mut r, base);
        r.push(47u8);
        append_bytes(&mut r, rel);
    }
    assert(r@ =~= path_join_bytes(base@, rel@));
    r
}

/// The final component of `path`.
pub fn path_file_name(path: &str) -> (r: Option<String>)
    ensures
        r is Some <==> file_name(path@) is Some,
        r matches Some(name) ==> file_name(path@) == Some(name@),
{
    let cs = chars_of(path);
    let mut end = cs.len();
    assert(path@.subrange(0, end as int) =~= path@);
    loop
        invariant
            cs@ == path@,
            end <= cs.len(),
            file_name(path@) == file_name(path@.subrange(0, end as int)),
        decreases end,
    {
        let ghost p = path@.subrange(0, end as int);
        if end == 0 {
            return None;
        }
        if cs[end - 1] == '/' {
            assert(p.drop_last() =~= path@.subrange(0, end - 1));
            end = end - 1;
        } else {
            let k = run_start(&cs, end, '/');
            proof {
                lemma_after_last(p, '/', k as int);
                assert(p.subrange(k as int, end as int) =~= path@.subrange(k as int, end as int));
            }
            let len = end - k;
            if len == 1 && cs[k] == '.' {
                assert(path@.subrange(k as int, end as int) =~= seq!['.']);
                if k == 0 {
                    return None;
                }
                assert(p.subrange(0, p.len() - 2) =~= path@.subrange(0, k - 1));
                end = k - 1;
            } else if len == 2 && cs[k] == '.' && cs[k + 1] == '.' {
                assert(path@.subrange(k as int, end as int) =~= seq!['.', '.']);
                return None;
            } else {
                proof {
                    let seg = path@.subrange(k as int, end as int);
                    if len == 1 {
                        assert(seg[0] == cs@[k as int]);
                        assert(seg != seq!['.']);
                    }
                    if len == 2 {
                        assert(seg[0] == cs@[k as int] && seg[1] == cs@[k + 1]);
                        assert(seg != seq!['.', '.']);
                    }
                }
                return Some(String::from_str(path.substring_char(k, end)));
            }
        }
    }
}

/// The extension of the final component of `path`.
pub fn path_extension(path: &str) -> (r: Option<String>)
    ensures
        r is Some <==> extension(path@) is Some,
        r matches Some(ext) ==> extension(path@) == Some(ext@),
{
    match path_file_name(path) {
        None => None,
        Some(name) => {
            let cs = chars_of(name.as_str());
            let n = cs.len();
            let k = run_start(&cs, n, '.');
            proof {
                lemma_after_last(name@, '.', k as int);
            }
            if n == 2 && cs[0] == '.' && cs[1] == '.' {
                assert(name@ =~= seq!['.', '.']);
                None
            } else if k <= 1 {
                None
            } else {
                assert(name@ != seq!['.', '.']);
                Some(String::from_str(name.as_str().substring_char(k, n)))
            }
        }
    }
}

} // verus!
