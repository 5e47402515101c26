//! File-name operations: extension extraction, collision-free destination
//! naming, and the deduplicating move plan.
//!
//! The resolver works against the names already present in the destination
//! directory, handed in as plain values.  Its result is pinned exactly: the
//! name itself when free, otherwise the first free numbered variant, and --
//! should ten thousand numbered variants all be taken -- a variant carrying
//! a wall-clock timestamp, the one outcome that cannot be pinned.

use crate::text::{
    append_chars, append_dec, chars_eq_str, dec_chars, lower_seq, str_eq, str_to_chars,
    string_from_chars, to_lower_chars,
};
use crate::tree::FsNode;
use vstd::prelude::*;

verus! {

/// The highest numbered variant the resolver tries before degrading.
pub const MAX_ATTEMPTS: u64 = 10000;

/// The outcome of one (planned) deduplicating move.
#[derive(Debug)]
pub struct MoveResult {
    /// The name of the moved file.
    pub source: String,
    /// The destination file name after collision resolution.
    pub destination: String,
    /// Whether collision resolution changed the name.
    pub was_renamed: bool,
}

/// The index of the last occurrence of `c` in `s`, or -1 when absent.
pub open spec fn last_pos(s: Seq<char>, c: char) -> int
    decreases s.len(),
{
    if s.len() == 0 {
        -1
    } else if s.last() == c {
        s.len() - 1
    } else {
        last_pos(s.drop_last(), c)
    }
}

/// The part of a path after its last separator: the file name itself.
pub open spec fn file_part(p: Seq<char>) -> Seq<char> {
    p.skip(last_pos(p, '/') + 1)
}

/// The stem of a file name: everything before the last dot, or the whole
/// name when there is no dot or the only dot starts the name.
pub open spec fn stem_of(f: Seq<char>) -> Seq<char> {
    if last_pos(f, '.') >= 1 {
        f.take(last_pos(f, '.'))
    } else {
        f
    }
}

/// The extension of a file name: everything after the last dot, or nothing
/// when there is no dot or the only dot starts the name.
pub open spec fn ext_of(f: Seq<char>) -> Option<Seq<char>> {
    if last_pos(f, '.') >= 1 {
        Some(f.skip(last_pos(f, '.') + 1))
    } else {
        None
    }
}

/// The lowercased extension of a path, taken from its file name.
pub open spec fn extension_of_path(p: Seq<char>) -> Option<Seq<char>> {
    match ext_of(file_part(p)) {
        Some(e) => Some(lower_seq(e)),
        None => None,
    }
}

/// The `n`-th numbered variant of a file name: `stem_n.ext` or `stem_n`.
pub open spec fn numbered_name(f: Seq<char>, n: nat) -> Seq<char> {
    match ext_of(f) {
        Some(e) => stem_of(f) + seq!['_'] + dec_chars(n) + seq!['.'] + e,
        None => stem_of(f) + seq!['_'] + dec_chars(n),
    }
}

/// The degraded variant used when every numbered variant is taken: the
/// counter suffix followed by a timestamp suffix.
pub open spec fn fallback_name(f: Seq<char>, n: nat, ts: nat) -> Seq<char> {
    match ext_of(f) {
        Some(e) => stem_of(f) + seq!['_'] + dec_chars(n) + seq!['_'] + dec_chars(ts) + seq!['.']
            + e,
        None => stem_of(f) + seq!['_'] + dec_chars(n) + seq!['_'] + dec_chars(ts),
    }
}

/// True when some numbered variant within the attempt bound is free.
pub open spec fn can_number(names: Seq<Seq<char>>, f: Seq<char>) -> bool {
    exists|n: nat| 1 <= n <= MAX_ATTEMPTS && !names.contains(#[trigger] numbered_name(f, n))
}

/// What the resolver may return for file name `f` against the taken `names`:
/// `f` itself when free; otherwise the first free numbered variant; otherwise
/// a timestamp-qualified fallback for some clock reading.
pub open spec fn is_resolution(names: Seq<Seq<char>>, f: Seq<char>, r: Seq<char>) -> bool {
    if !names.contains(f) {
        r == f
    } else if can_number(names, f) {
        exists|n: nat|
            {
                &&& 1 <= n <= MAX_ATTEMPTS
                &&& r == #[trigger] numbered_name(f, n)
                &&& !names.contains(numbered_name(f, n))
                &&& forall|m: nat| 1 <= m < n ==> names.contains(#[trigger] numbered_name(f, m))
            }
    } else {
        exists|ts: u64| r == #[trigger] fallback_name(f, (MAX_ATTEMPTS + 1) as nat, ts as nat)
    }
}

/// True for a directory node of a snapshot.
pub fn is_directory(node: &FsNode) -> (r: bool)
    ensures
        r == (node is Dir),
{
    match node {
        FsNode::Dir(_) => true,
        _ => false,
    }
}

/// True for a regular-file node of a snapshot.
pub fn is_file(node: &FsNode) -> (r: bool)
    ensures
        r == (node is File),
{
    match node {
        FsNode::File => true,
        _ => false,
    }
}

/// True for a symbolic-link node of a snapshot.
pub fn is_symlink(node: &FsNode) -> (r: bool)
    ensures
        r == (node is Symlink),
{
    match node {
        FsNode::Symlink => true,
        _ => false,
    }
}

/// Finds the last occurrence of `c` in `v`.
fn find_last(v: &Vec<char>, c: char) -> (r: Option<usize>)
    ensures
        match r {
            Some(i) => i < v@.len() && last_pos(v@, c) == i,
            None => last_pos(v@, c) == -1,
        },
{
    let mut i: usize = v.len();
    proof {
        assert(v@.take(v@.len() as int) =~= v@);
    }
    while i > 0
        invariant
            i <= v@.len(),
            last_pos(v@, c) == last_pos(v@.take(i as int), c),
        decreases i,
    {
        i = i - 1;
        proof {
            assert(v@.take(i + 1).drop_last() =~= v@.take(i as int));
            assert(v@.take(i + 1).last() == v@[i as int]);
        }
        if v[i] == c {
            return Some(i);
        }
    }
    proof {
        assert(v@.take(0) =~= Seq::<char>::empty());
    }
    None
}

/// Copies `v[a..b]` into a fresh vector.
fn copy_range(v: &Vec<char>, a: usize, b: usize) -> (r: Vec<char>)
    requires
        a <= b <= v@.len(),
    ensures
        r@ == v@.subrange(a as int, b as int),
{
    let mut r: Vec<char> = Vec::new();
    let mut i: usize = a;
    while i < b
        invariant
            a <= i <= b <= v@.len(),
            r@.len() == i - a,
            forall|k: int| 0 <= k < i - a ==> r@[k] == v@[a + k],
        decreases b - i,
    {
        r.push(v[i]);
        i = i + 1;
    }
    proof {
        assert(r@ =~= v@.subrange(a as int, b as int));
    }
    r
}

/// Extracts a path's extension, lowercased: `None` when the file name holds
/// no dot, or only a leading one.
pub fn get_extension(path: &str) -> (r: Option<String>)
    ensures
        r.deep_view() == extension_of_path(path@),
{
    let p = str_to_chars(path);
    let n = p.len();
    let start = match find_last(&p, '/') {
        Some(i) => i + 1,
        None => 0,
    };
    let f = copy_range(&p, start, n);
    proof {
        assert(f@ =~= file_part(p@));
    }
    let m = f.len();
    match find_last(&f, '.') {
        Some(d) if d >= 1 => {
            let e = copy_range(&f, d + 1, m);
            let low = to_lower_chars(&e);
            proof {
                assert(e@ =~= f@.skip(last_pos(f@, '.') + 1));
            }
            Some(string_from_chars(&low))
        },
        _ => None,
    }
}

/// True when some element of `names` holds the characters of `f`.
fn contains_name(names: &Vec<String>, f: &Vec<char>) -> (r: bool)
    ensures
        r == names.deep_view().contains(f@),
{
    let mut i: usize = 0;
    while i < names.len()
        invariant
            i <= names@.len(),
            forall|j: int| 0 <= j < i ==> names@[j]@ != f@,
        decreases names@.len() - i,
    {
        if chars_eq_str(f, names[i].as_str()) {
            proof {
                assert(names.deep_view()[i as int] == names@[i as int]@);
            }
            return true;
        }
        i = i + 1;
    }
    proof {
        assert forall|j: int| 0 <= j < names.deep_view().len() implies names.deep_view()[j]
            != f@ by {
            assert(names.deep_view()[j] == names@[j]@);
        }
    }
    false
}

/// Builds `stem_n.ext` (or `stem_n` without an extension).
fn build_numbered(stem: &Vec<char>, ext: &Option<Vec<char>>, n: u64) -> (r: Vec<char>)
    ensures
        r@ == match ext {
            Some(e) => stem@ + seq!['_'] + dec_chars(n as nat) + seq!['.'] + e@,
            None => stem@ + seq!['_'] + dec_chars(n as nat),
        },
{
    let mut r: Vec<char> = Vec::new();
    append_chars(&mut r, stem);
    r.push('_');
    proof {
        assert(stem@.push('_') =~= stem@ + seq!['_']);
    }
    append_dec(&mut r, n);
    match ext {
        Some(e) => {
            r.push('.');
            append_chars(&mut r, e);
            proof {
                assert((stem@ + seq!['_'] + dec_chars(n as nat)).push('.') + e@ =~= stem@
                    + seq!['_'] + dec_chars(n as nat) + seq!['.'] + e@);
            }
        },
        None => {},
    }
    r
}

/// Reads the wall clock as milliseconds since the Unix epoch.
///
/// Relies on `std::time::SystemTime::now`; the reading depends on the
/// clock, so nothing is promised of the value.
#[verifier::external_body]
fn now_millis() -> u64 {
    match std::time::SystemTime::now().duration_since(std::time::UNIX_EPOCH) {
        Ok(d) => d.as_millis() as u64,
        Err(_) => 0,
    }
}

/// Resolves `filename` to a name not yet taken in the destination
/// directory, whose current entry names are `existing`.
///
/// The name comes back unchanged when free; otherwise the first free
/// numbered variant `stem_n.ext` is chosen, for the smallest `n >= 1`; when
/// every variant up to the attempt bound is taken, the result degrades to a
/// timestamp-qualified name rather than failing.
pub fn generate_unique_path(existing: &Vec<String>, filename: &str) -> (r: String)
    ensures
        is_resolution(existing.deep_view(), filename@, r@),
        !existing.deep_view().contains(filename@) ==> r@ == filename@,
{
    let f = str_to_chars(filename);
    if !contains_name(existing, &f) {
        let r = String::from_str(filename);
        return r;
    }
    let flen = f.len();
    let (stem, ext) = match find_last(&f, '.') {
        Some(d) if d >= 1 => {
            let s = copy_range(&f, 0, d);
            let e = copy_range(&f, d + 1, flen);
            proof {
                assert(s@ =~= stem_of(f@));
                assert(e@ =~= ext_of(f@)->Some_0);
            }
            (s, Some(e))
        },
        _ => (f, None::<Vec<char>>),
    };
    let ghost fv = filename@;
    let ghost names = existing.deep_view();
    let mut counter: u64 = 1;
    while counter <= MAX_ATTEMPTS
        invariant
            1 <= counter <= MAX_ATTEMPTS + 1,
            fv == filename@,
            stem@ == stem_of(fv),
            ext.deep_view() == ext_of(fv),
            names == existing.deep_view(),
            names.contains(fv),
            forall|m: nat| 1 <= m < counter ==> names.contains(#[trigger] numbered_name(fv, m)),
        decreases MAX_ATTEMPTS + 1 - counter,
    {
        let cand = build_numbered(&stem, &ext, counter);
        proof {
            assert(cand@ == numbered_name(fv, counter as nat));
        }
        if !contains_name(existing, &cand) {
            proof {
                let nn = counter as nat;
                assert(cand@ == numbered_name(fv, nn));
                assert(!names.contains(numbered_name(fv, nn)));
                assert(can_number(names, fv));
            }
            let r = string_from_chars(&cand);
            return r;
        }
        counter = counter + 1;
    }
    proof {
        assert(!can_number(names, fv));
    }
    let ts = now_millis();
    let mut fb = build_numbered(&stem, &None, counter);
    fb.push('_');
    append_dec(&mut fb, ts);
    match &ext {
        Some(e) => {
            fb.push('.');
            append_chars(&mut fb, e);
        },
        None => {},
    }
    proof {
        assert(fb@ =~= fallback_name(fv, (MAX_ATTEMPTS + 1) as nat, ts as nat));
    }
    let r = string_from_chars(&fb);
    r
}

/// Plans one deduplicating move: resolves the destination name against the
/// names already in the destination directory and records whether collision
/// avoidance renamed the file.
pub fn move_file_with_dedup(existing: &Vec<String>, source_name: &str) -> (r: MoveResult)
    ensures
        r.source@ == source_name@,
        is_resolution(existing.deep_view(), source_name@, r.destination@),
        r.was_renamed == (r.destination@ != source_name@),
{
    let destination = generate_unique_path(existing, source_name);
    let was_renamed = !str_eq(destination.as_str(), source_name);
    MoveResult { source: String::from_str(source_name), destination, was_renamed }
}

} // verus!

