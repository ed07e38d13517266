//! Lenient scanner for internal wiki links.
//!
//! A link is written `[[target]]` or `[[target|description]]`. The scanner
//! searches forward for the next `[[` marker, reads the maximal run of bytes
//! containing neither `|` nor `]` (the target, possibly empty), and requires
//! the run to be closed by a `|` or by `]]`; it then resumes just after the
//! consumed delimiter. Scanning stops at the first position where no further
//! well-formed link can be found.

use vstd::prelude::*;
use vstd::string::StrSliceExecFns;
use vstd::utf8::{decode_utf8, encode_utf8, encode_utf8_decode_utf8, valid_utf8};

verus! {

/// `|` and `]` end a link target.
pub open spec fn is_delim(b: u8) -> bool {
    b == 124 || b == 93
}

/// A `[[` marker starts at byte `i` of `s`.
pub open spec fn is_marker_at(s: Seq<u8>, i: int) -> bool {
    0 <= i && i + 2 <= s.len() && s[i] == 91 && s[i + 1] == 91
}

/// Index of the first delimiter at or after `i`, or `s.len()` if none.
pub open spec fn target_end(s: Seq<u8>, i: int) -> int
    decreases s.len() - i,
{
    if i < 0 || i >= s.len() {
        i
    } else if is_delim(s[i]) {
        i
    } else {
        target_end(s, i + 1)
    }
}

/// Position of the first `[[` marker at or after `i`, if any.
pub open spec fn find_marker_from(s: Seq<u8>, i: int) -> Option<int>
    decreases s.len() - i,
{
    if i + 2 > s.len() {
        None
    } else if is_marker_at(s, i) {
        Some(i)
    } else {
        find_marker_from(s, i + 1)
    }
}

/// Result of parsing one link whose `[[` marker sits exactly at `i`:
/// the target bytes and the scan position just past the consumed delimiter.
/// `None` when no marker is at `i` or the target run is not closed by `|`
/// or `]]`.
pub open spec fn link_at(s: Seq<u8>, i: int) -> Option<(Seq<u8>, int)> {
    if !is_marker_at(s, i) {
        None
    } else {
        let t0 = i + 2;
        let t1 = target_end(s, t0);
        if t1 < s.len() && s[t1] == 124 {
            Some((s.subrange(t0, t1), t1 + 1))
        } else if t1 + 1 < s.len() && s[t1] == 93 && s[t1 + 1] == 93 {
            Some((s.subrange(t0, t1), t1 + 2))
        } else {
            None
        }
    }
}

/// One scanning step from `i`: find the next marker and parse one link there.
pub open spec fn next_link_at(s: Seq<u8>, i: int) -> Option<(Seq<u8>, int)> {
    match find_marker_from(s, i) {
        None => None,
        Some(m) => link_at(s, m),
    }
}

/// `target_end` is the end of the maximal run of link-target bytes: no
/// delimiter lies inside the run, and the run stops at a delimiter or at the
/// end of the input.
pub proof fn lemma_target_end_is_first_delim(s: Seq<u8>, i: int)
    requires
        0 <= i <= s.len(),
    ensures
        i <= target_end(s, i) <= s.len(),
        forall|j: int| i <= j < target_end(s, i) ==> !is_delim(s[j]),
        target_end(s, i) < s.len() ==> is_delim(s[target_end(s, i)]),
    decreases s.len() - i,
{
    if i < s.len() && !is_delim(s[i]) {
        lemma_target_end_is_first_delim(s, i + 1);
    }
}

/// `find_marker_from` finds the first `[[` marker: no marker lies before the
/// position it returns, and `None` means no marker lies anywhere at or after
/// `i`.
pub proof fn lemma_find_marker_from_is_first(s: Seq<u8>, i: int)
    ensures
        find_marker_from(s, i) matches Some(m) ==> i <= m && is_marker_at(s, m) && (forall|j: int|
            i <= j < m ==> !is_marker_at(s, j)),
        find_marker_from(s, i) is None ==> forall|j: int| j >= i ==> !is_marker_at(s, j),
    decreases s.len() - i,
{
    if i + 2 <= s.len() && !is_marker_at(s, i) {
        lemma_find_marker_from_is_first(s, i + 1);
    }
}

/// A successful scanning step strictly advances the cursor and stays in range.
proof fn lemma_next_link_at_advances(s: Seq<u8>, i: int)
    ensures
        next_link_at(s, i) matches Some(r) ==> i < r.1 <= s.len(),
{
    if let Some(m) = find_marker_from(s, i) {
        lemma_find_marker_from_is_first(s, i);
        lemma_target_end_is_first_delim(s, m + 2);
    }
}

/// All link targets found scanning forward from `i`, in order of appearance.
pub open spec fn links_of(s: Seq<u8>, i: int) -> Seq<Seq<u8>>
    decreases s.len() - i,
    via links_of_decreases
{
    match next_link_at(s, i) {
        None => Seq::empty(),
        Some(r) => seq![r.0] + links_of(s, r.1),
    }
}

#[via_fn]
proof fn links_of_decreases(s: Seq<u8>, i: int) {
    lemma_next_link_at_advances(s, i);
}

/// True when `chr` can be part of a link target.
pub fn not_a_delim(chr: u8) -> (r: bool)
    ensures
        r == !is_delim(chr),
{
    if chr == 124 || chr == 93 {
        false
    } else {
        true
    }
}

/// Copies `text[from..to]` into a fresh vector.
fn copy_range(text: &Vec<u8>, from: usize, to: usize) -> (r: Vec<u8>)
    requires
        from <= to <= text@.len(),
    ensures
        r@ == text@.subrange(from as int, to as int),
{
    let mut r: Vec<u8> = Vec::new();
    let mut i = from;
    while i < to
        invariant
            from <= i <= to <= text@.len(),
            r@ == text@.subrange(from as int, i as int),
        decreases to - i,
    {
        r.push(text[i]);
        i = i + 1;
        proof {
            assert(r@ =~= text@.subrange(from as int, i as int));
        }
    }
    r
}

/// Position of the first `[[` marker at or after `from`, if any.
pub fn find_marker(text: &Vec<u8>, from: usize) -> (r: Option<usize>)
    ensures
        match r {
            Some(m) => find_marker_from(text@, from as int) == Some(m as int),
            None => find_marker_from(text@, from as int) is None,
        },
{
    let n = text.len();
    let mut i = from;
    let mut found = false;
    loop
        invariant_except_break
            !found,
        invariant
            from <= i,
            n == text@.len(),
            find_marker_from(text@, from as int) == find_marker_from(text@, i as int),
        ensures
            match find_marker_from(text@, from as int) {
                Some(m) => found && m == i,
                None => !found,
            },
        decreases n - i,
    {
        if i >= n || i + 1 >= n {
            break;
        }
        if text[i] == 91 && text[i + 1] == 91 {
            found = true;
            break;
        }
        i = i + 1;
    }
    if found {
        Some(i)
    } else {
        None
    }
}

/// Turns an optional (target, cursor) pair into its mathematical view.
pub open spec fn match_view(r: Option<(Vec<u8>, usize)>) -> Option<(Seq<u8>, int)> {
    match r {
        Some(p) => Some((p.0@, p.1 as int)),
        None => None,
    }
}

/// Parses one link whose `[[` marker must sit exactly at `pos`: the target
/// bytes and the position just past the consumed `|` or `]]`.
pub fn match_link(text: &Vec<u8>, pos: usize) -> (r: Option<(Vec<u8>, usize)>)
    ensures
        match_view(r) == link_at(text@, pos as int),
        r matches Some(p) ==> pos < p.1 <= text@.len(),
{
    let n = text.len();
    if !(pos < n && pos + 1 < n && text[pos] == 91 && text[pos + 1] == 91) {
        return None;
    }
    let mut j = pos + 2;
    while j < n && !(text[j] == 124 || text[j] == 93)
        invariant
            pos + 2 <= j <= n,
            n == text@.len(),
            target_end(text@, pos + 2) == target_end(text@, j as int),
        decreases n - j,
    {
        j = j + 1;
    }
    assert(target_end(text@, pos + 2) == j);
    if j < n && text[j] == 124 {
        Some((copy_range(text, pos + 2, j), j + 1))
    } else if j < n && j + 1 < n && text[j] == 93 && text[j + 1] == 93 {
        Some((copy_range(text, pos + 2, j), j + 2))
    } else {
        None
    }
}

/// One scanning step: finds the next `[[` marker at or after `from` and
/// parses one link there.
pub fn next_link(text: &Vec<u8>, from: usize) -> (r: Option<(Vec<u8>, usize)>)
    ensures
        match_view(r) == next_link_at(text@, from as int),
        r matches Some(p) ==> from < p.1 <= text@.len(),
{
    match find_marker(text, from) {
        None => None,
        Some(m) => {
            proof {
                lemma_find_marker_from_is_first(text@, from as int);
            }
            match_link(text, m)
        },
    }
}

/// All link targets of `text`, as raw bytes, in order of appearance.
pub fn extract_links(text: &Vec<u8>) -> (r: Vec<Vec<u8>>)
    ensures
        r.deep_view() == links_of(text@, 0),
{
    let mut out: Vec<Vec<u8>> = Vec::new();
    let mut pos: usize = 0;
    loop
        invariant
            pos <= text@.len(),
            links_of(text@, 0) == out.deep_view() + links_of(text@, pos as int),
        ensures
            links_of(text@, 0) == out.deep_view(),
        decreases text@.len() - pos,
    {
        match next_link(text, pos) {
            None => {
                proof {
                    assert(links_of(text@, 0) =~= out.deep_view());
                }
                break;
            },
            Some(p) => {
                let ghost old_out = out.deep_view();
                let ghost target = p.0@;
                let next = p.1;
                out.push(p.0);
                proof {
                    assert(out.deep_view() =~~= old_out.push(target));
                    assert(links_of(text@, pos as int) == seq![target] + links_of(
                        text@,
                        next as int,
                    ));
                    assert(links_of(text@, 0) =~~= out.deep_view() + links_of(
                        text@,
                        next as int,
                    ));
                }
                pos = next;
            },
        }
    }
    out
}

/// The targets among `ts` whose bytes decode as text, decoded, in order;
/// the others are dropped.
pub open spec fn decoded_targets(ts: Seq<Seq<u8>>) -> Seq<Seq<char>>
    decreases ts.len(),
{
    if ts.len() == 0 {
        Seq::empty()
    } else {
        let rest = decoded_targets(ts.drop_first());
        if valid_utf8(ts.first()) {
            seq![decode_utf8(ts.first())] + rest
        } else {
            rest
        }
    }
}

/// All link targets of the markup fragment `t`, as character strings, in
/// order of appearance.
pub open spec fn fragment_links(t: Seq<char>) -> Seq<Seq<char>> {
    decoded_targets(links_of(encode_utf8(t), 0))
}

/// Relies on String::from_utf8: it succeeds exactly on byte sequences that
/// are valid UTF-8, and the returned string consists of those very bytes.
#[verifier::external_body]
fn string_from_utf8(bytes: Vec<u8>) -> (r: Option<String>)
    ensures
        r is Some <==> valid_utf8(bytes@),
        r matches Some(s) ==> encode_utf8(s@) == bytes@,
{
    match String::from_utf8(bytes) {
        Ok(s) => Some(s),
        Err(_) => None,
    }
}

/// All link targets of the fragment `text`, in order of appearance. A target
/// whose bytes do not decode as text is dropped, not fatal.
pub fn extract_link_targets(text: &str) -> (r: Vec<String>)
    ensures
        r.deep_view() == fragment_links(text@),
{
    let bytes = text.as_bytes_vec();
    let mut rest = extract_links(&bytes);
    let ghost all = rest.deep_view();
    let mut out: Vec<String> = Vec::new();
    proof {
        assert(decoded_targets(all) =~= out.deep_view() + decoded_targets(rest.deep_view()));
    }
    while rest.len() > 0
        invariant
            decoded_targets(all) == out.deep_view() + decoded_targets(rest.deep_view()),
        decreases rest@.len(),
    {
        let ghost old_rest = rest.deep_view();
        let ghost old_out = out.deep_view();
        let t = rest.remove(0);
        proof {
            assert(rest.deep_view() =~~= old_rest.drop_first());
            assert(t.deep_view() =~= t@);
            assert(old_rest.first() == t@);
        }
        match string_from_utf8(t) {
            Some(s) => {
                proof {
                    encode_utf8_decode_utf8(s@);
                }
                out.push(s);
                proof {
                    assert(out.deep_view() =~~= old_out.push(decode_utf8(old_rest.first())));
                    assert(decoded_targets(all) =~~= out.deep_view() + decoded_targets(
                        rest.deep_view(),
                    ));
                }
            },
            None => {
                proof {
                    assert(decoded_targets(all) =~~= out.deep_view() + decoded_targets(
                        rest.deep_view(),
                    ));
                }
            },
        }
    }
    proof {
        assert(decoded_targets(rest.deep_view()) =~= Seq::<Seq<char>>::empty());
        assert(out.deep_view() =~~= decoded_targets(all));
    }
    out
}

/// Scanning text that holds no `[[` marker finds nothing: link extraction is
/// idempotent on any already-extracted target that itself contains no `[[`.
pub proof fn lemma_no_marker_no_links(s: Seq<u8>, i: int)
    requires
        forall|j: int| !is_marker_at(s, j),
    ensures
        links_of(s, i) == Seq::<Seq<u8>>::empty(),
{
    lemma_find_marker_from_is_first(s, i);
}

/// The same, for a fragment of text: a fragment whose bytes hold no `[[`
/// marker yields no link targets.
pub proof fn lemma_no_marker_no_targets(t: Seq<char>)
    requires
        forall|j: int| !is_marker_at(encode_utf8(t), j),
    ensures
        fragment_links(t) == Seq::<Seq<char>>::empty(),
{
    lemma_no_marker_no_links(encode_utf8(t), 0);
}

} // verus!
