//! Marker substitution over character sequences.
//!
//! The output sentence is the input with each mask-marker occurrence replaced,
//! left to right, by the predicted token text. Everything here is plain
//! string logic: finding the first occurrence of a pattern, splicing a
//! replacement in, and folding one replacement per predicted word.

use vstd::prelude::*;

verus! {

/// `pat` occurs in `s` at position `i`.
pub open spec fn is_match_at(s: Seq<char>, pat: Seq<char>, i: int) -> bool {
    &&& 0 <= i
    &&& i + pat.len() <= s.len()
    &&& s.subrange(i, i + pat.len() as int) == pat
}

/// `pat` occurs somewhere in `s`.
pub open spec fn has_match(s: Seq<char>, pat: Seq<char>) -> bool {
    exists|i: int| is_match_at(s, pat, i)
}

/// Position of the first occurrence of `pat` in `s` at or after `i`.
pub open spec fn first_match_from(s: Seq<char>, pat: Seq<char>, i: int) -> Option<int>
    decreases s.len() + 1 - i,
{
    if i < 0 || i + pat.len() > s.len() {
        None
    } else if is_match_at(s, pat, i) {
        Some(i)
    } else {
        first_match_from(s, pat, i + 1)
    }
}

/// Position of the first occurrence of `pat` in `s`.
pub open spec fn first_match(s: Seq<char>, pat: Seq<char>) -> Option<int> {
    first_match_from(s, pat, 0)
}

/// `s` with the first occurrence of `pat` replaced by `w`; `s` unchanged when
/// `pat` does not occur.
pub open spec fn replace_first_spec(s: Seq<char>, pat: Seq<char>, w: Seq<char>) -> Seq<char> {
    match first_match(s, pat) {
        Some(i) => s.subrange(0, i) + w + s.subrange(i + pat.len() as int, s.len() as int),
        None => s,
    }
}

/// One replacement per word, applied left to right: each word consumes the
/// first remaining occurrence of `pat`, so the `j`-th word lands on the
/// `j`-th occurrence.
pub open spec fn replace_seq(s: Seq<char>, pat: Seq<char>, ws: Seq<Seq<char>>) -> Seq<char>
    decreases ws.len(),
{
    if ws.len() == 0 {
        s
    } else {
        replace_seq(replace_first_spec(s, pat, ws[0]), pat, ws.drop_first())
    }
}

/// How many of the replacement steps of `replace_seq` found an occurrence.
pub open spec fn hit_count(s: Seq<char>, pat: Seq<char>, ws: Seq<Seq<char>>) -> nat
    decreases ws.len(),
{
    if ws.len() == 0 {
        0
    } else {
        (if has_match(s, pat) {
            1nat
        } else {
            0nat
        }) + hit_count(replace_first_spec(s, pat, ws[0]), pat, ws.drop_first())
    }
}

/// `first_match_from` finds an occurrence, finds the leftmost one, and
/// reports `None` only when none exists at or after `i`.
pub proof fn lemma_first_match_from(s: Seq<char>, pat: Seq<char>, i: int)
    requires
        0 <= i,
    ensures
        match first_match_from(s, pat, i) {
            Some(j) => i <= j && is_match_at(s, pat, j) && (forall|k: int|
                i <= k < j ==> !is_match_at(s, pat, k)),
            None => forall|k: int| i <= k ==> !is_match_at(s, pat, k),
        },
    decreases s.len() + 1 - i,
{
    if i + pat.len() > s.len() {
        assert forall|k: int| i <= k implies !is_match_at(s, pat, k) by {
            assert(k + pat.len() > s.len());
        }
    } else if is_match_at(s, pat, i) {
    } else {
        lemma_first_match_from(s, pat, i + 1);
    }
}

/// The first occurrence is whichever occurrence has none before it.
pub proof fn lemma_first_match_characterization(s: Seq<char>, pat: Seq<char>, i: int)
    requires
        is_match_at(s, pat, i),
        forall|k: int| 0 <= k < i ==> !is_match_at(s, pat, k),
    ensures
        first_match(s, pat) == Some(i),
{
    lemma_first_match_from(s, pat, 0);
    match first_match(s, pat) {
        Some(j) => {
            if j < i {
                assert(is_match_at(s, pat, j));
            } else if i < j {
                assert(!is_match_at(s, pat, i));
            }
        },
        None => {
            assert(!is_match_at(s, pat, i));
        },
    }
}

/// Identity law: a text in which the marker does not occur comes back
/// unchanged, whatever words stand ready for substitution; in particular a
/// text with no marker, or an empty text and a non-empty marker, is a
/// fixed point.
pub proof fn lemma_no_marker_identity(s: Seq<char>, pat: Seq<char>, ws: Seq<Seq<char>>)
    requires
        !has_match(s, pat),
    ensures
        replace_seq(s, pat, ws) == s,
    decreases ws.len(),
{
    if ws.len() > 0 {
        lemma_first_match_from(s, pat, 0);
        if first_match(s, pat) is Some {
            assert(is_match_at(s, pat, first_match(s, pat).unwrap()));
        }
        assert(replace_first_spec(s, pat, ws[0]) == s);
        lemma_no_marker_identity(s, pat, ws.drop_first());
    }
}

/// Exhaustion law: once the text holds no occurrence, no further word
/// substitutes anything — so a text with `k` marker occurrences admits at
/// most `k` substitutions, however many words stand ready.
pub proof fn lemma_no_marker_no_hits(s: Seq<char>, pat: Seq<char>, ws: Seq<Seq<char>>)
    requires
        !has_match(s, pat),
    ensures
        hit_count(s, pat, ws) == 0,
    decreases ws.len(),
{
    if ws.len() > 0 {
        lemma_first_match_from(s, pat, 0);
        if first_match(s, pat) is Some {
            assert(is_match_at(s, pat, first_match(s, pat).unwrap()));
        }
        assert(replace_first_spec(s, pat, ws[0]) == s);
        lemma_no_marker_no_hits(s, pat, ws.drop_first());
    }
}

/// Left-to-right law: substituting all the words is substituting the first
/// `j` of them and then the rest into what remains — the `j`-th word always
/// lands on the `j`-th remaining occurrence, and no word depends on a later
/// one.
pub proof fn lemma_replace_seq_split(s: Seq<char>, pat: Seq<char>, ws: Seq<Seq<char>>, j: int)
    requires
        0 <= j <= ws.len(),
    ensures
        replace_seq(s, pat, ws) == replace_seq(replace_seq(s, pat, ws.take(j)), pat, ws.skip(j)),
    decreases j,
{
    if j == 0 {
        assert(ws.take(0) =~~= Seq::<Seq<char>>::empty());
        assert(ws.skip(0) =~~= ws);
    } else {
        let s1 = replace_first_spec(s, pat, ws[0]);
        let rest = ws.drop_first();
        assert(ws.take(j).len() > 0);
        assert(ws.take(j)[0] == ws[0]);
        assert(ws.take(j).drop_first() =~~= rest.take(j - 1));
        assert(ws.skip(j) =~~= rest.skip(j - 1));
        lemma_replace_seq_split(s1, pat, rest, j - 1);
    }
}

/// Single-substitution law, the shape of the change: when the marker occurs
/// exactly once, at `i`, substituting one word yields the input with only
/// the span at `i` replaced — everything before and after is untouched.
pub proof fn lemma_single_substitution(s: Seq<char>, pat: Seq<char>, w: Seq<char>, i: int)
    requires
        is_match_at(s, pat, i),
        forall|k: int| is_match_at(s, pat, k) ==> k == i,
    ensures
        replace_seq(s, pat, seq![w]) == s.subrange(0, i) + w + s.subrange(
            i + pat.len() as int,
            s.len() as int,
        ),
{
    assert forall|k: int| 0 <= k < i implies !is_match_at(s, pat, k) by {
        if is_match_at(s, pat, k) {
            assert(k == i);
        }
    }
    lemma_first_match_characterization(s, pat, i);
    let once = seq![w];
    assert(once.drop_first() =~~= Seq::<Seq<char>>::empty());
    assert(replace_seq(replace_first_spec(s, pat, w), pat, Seq::<Seq<char>>::empty())
        == replace_first_spec(s, pat, w));
}

/// A position at which a marker occurrence in the substituted text would
/// cross a seam of the splice: start before the inserted word and end
/// inside or after it, or start inside it and end after it.
pub open spec fn seam_crossing(i: int, plen: int, wlen: int, j: int) -> bool {
    (j < i && j + plen > i) || (j < i + wlen && j + plen > i + wlen)
}

/// Single-substitution law, the disappearance of the marker: when the
/// marker occurs exactly once, the substituted word holds no occurrence,
/// and none arises across the seams of the splice, the result holds no
/// occurrence at all. (Without the seam condition the law fails: replacing
/// the one `"ab"` in `"xabby"` by `"a"` leaves `"xaby"`, where `"ab"`
/// occurs again across the right seam.)
pub proof fn lemma_single_marker_consumed(s: Seq<char>, pat: Seq<char>, w: Seq<char>, i: int)
    requires
        pat.len() > 0,
        is_match_at(s, pat, i),
        forall|k: int| is_match_at(s, pat, k) ==> k == i,
        !has_match(w, pat),
        forall|j: int|
            seam_crossing(i, pat.len() as int, w.len() as int, j) ==> !is_match_at(
                s.subrange(0, i) + w + s.subrange(i + pat.len() as int, s.len() as int),
                pat,
                j,
            ),
    ensures
        !has_match(s.subrange(0, i) + w + s.subrange(i + pat.len() as int, s.len() as int), pat),
{
    let r = s.subrange(0, i) + w + s.subrange(i + pat.len() as int, s.len() as int);
    let plen = pat.len() as int;
    let wlen = w.len() as int;
    if has_match(r, pat) {
        let j = choose|j: int| is_match_at(r, pat, j);
        assert(is_match_at(r, pat, j));
        if j + plen <= i {
            assert(s.subrange(j, j + plen) =~= r.subrange(j, j + plen));
            assert(is_match_at(s, pat, j));
        } else if i + wlen <= j {
            let j2 = j - wlen + plen;
            assert(s.subrange(j2, j2 + plen) =~= r.subrange(j, j + plen));
            assert(is_match_at(s, pat, j2));
        } else if i <= j && j + plen <= i + wlen {
            assert(w.subrange(j - i, j - i + plen) =~= r.subrange(j, j + plen));
            assert(is_match_at(w, pat, j - i));
        } else {
            assert(seam_crossing(i, plen, wlen, j));
        }
        assert(false);
    }
}

/// Whether `pat` occurs at position `i` of `text`, by direct comparison.
fn match_at(text: &Vec<char>, pat: &Vec<char>, i: usize) -> (b: bool)
    requires
        i + pat@.len() <= text@.len(),
    ensures
        b == is_match_at(text@, pat@, i as int),
{
    let n = text.len();
    let mut j: usize = 0;
    while j < pat.len()
        invariant
            j <= pat@.len(),
            i + pat@.len() <= text@.len(),
            n == text@.len(),
            forall|l: int| 0 <= l < j ==> text@[i + l] == pat@[l],
        decreases pat@.len() - j,
    {
        assert(i + j < n);
        if text[i + j] != pat[j] {
            proof {
                let jj = j as int;
                assert(text@.subrange(i as int, i + pat@.len() as int)[jj] != pat@[jj]);
            }
            return false;
        }
        j = j + 1;
    }
    proof {
        assert(text@.subrange(i as int, i + pat@.len() as int) =~= pat@);
    }
    true
}

/// Position of the first occurrence of `pat` in `text`, scanning left to
/// right.
pub fn find_first(text: &Vec<char>, pat: &Vec<char>) -> (r: Option<usize>)
    ensures
        match r {
            Some(i) => first_match(text@, pat@) == Some(i as int),
            None => first_match(text@, pat@) is None,
        },
{
    if pat.len() > text.len() {
        proof {
            lemma_first_match_from(text@, pat@, 0);
            if first_match(text@, pat@) is Some {
                assert(is_match_at(text@, pat@, first_match(text@, pat@).unwrap()));
            }
        }
        return None;
    }
    let last_start = text.len() - pat.len();
    let mut i: usize = 0;
    loop
        invariant
            pat@.len() <= text@.len(),
            last_start == text@.len() - pat@.len(),
            i <= last_start,
            forall|k: int| 0 <= k < i ==> !is_match_at(text@, pat@, k),
        ensures
            forall|k: int| 0 <= k <= last_start ==> !is_match_at(text@, pat@, k),
        decreases last_start - i,
    {
        if match_at(text, pat, i) {
            proof {
                lemma_first_match_characterization(text@, pat@, i as int);
            }
            return Some(i);
        }
        if i == last_start {
            break ;
        }
        i = i + 1;
    }
    proof {
        lemma_first_match_from(text@, pat@, 0);
        if first_match(text@, pat@) is Some {
            let j = first_match(text@, pat@).unwrap();
            assert(is_match_at(text@, pat@, j));
            assert(j <= last_start);
        }
    }
    None
}

/// Appends `src[from..to]` to `out`.
pub(crate) fn push_range(out: &mut Vec<char>, src: &Vec<char>, from: usize, to: usize)
    requires
        from <= to <= src@.len(),
    ensures
        final(out)@ == old(out)@ + src@.subrange(from as int, to as int),
{
    let mut k: usize = from;
    proof {
        assert(out@ =~= old(out)@ + src@.subrange(from as int, from as int));
    }
    while k < to
        invariant
            from <= k <= to <= src@.len(),
            out@ == old(out)@ + src@.subrange(from as int, k as int),
        decreases to - k,
    {
        out.push(src[k]);
        k = k + 1;
        proof {
            assert(src@.subrange(from as int, k as int) =~= src@.subrange(
                from as int,
                k - 1,
            ).push(src@[k - 1]));
            assert(out@ =~= old(out)@ + src@.subrange(from as int, k as int));
        }
    }
}

/// `text` with its first occurrence of `pat` replaced by `w`, together with
/// whether an occurrence was found.
pub fn replace_first(text: &Vec<char>, pat: &Vec<char>, w: &Vec<char>) -> (r: (Vec<char>, bool))
    ensures
        r.0@ == replace_first_spec(text@, pat@, w@),
        r.1 == has_match(text@, pat@),
{
    proof {
        lemma_first_match_from(text@, pat@, 0);
    }
    match find_first(text, pat) {
        Some(i) => {
            proof {
                assert(is_match_at(text@, pat@, i as int));
            }
            let tlen = text.len();
            assert(i + pat@.len() <= tlen);
            let mut out: Vec<char> = Vec::new();
            push_range(&mut out, text, 0, i);
            push_range(&mut out, w, 0, w.len());
            push_range(&mut out, text, i + pat.len(), tlen);
            proof {
                assert(w@.subrange(0, w@.len() as int) =~= w@);
                assert(out@ =~= text@.subrange(0, i as int) + w@ + text@.subrange(
                    i + pat@.len() as int,
                    text@.len() as int,
                ));
            }
            (out, true)
        },
        None => {
            let mut out: Vec<char> = Vec::new();
            push_range(&mut out, text, 0, text.len());
            proof {
                assert(text@.subrange(0, text@.len() as int) =~= text@);
                assert(out@ =~= text@);
                if has_match(text@, pat@) {
                    let j = choose|j: int| is_match_at(text@, pat@, j);
                    assert(!is_match_at(text@, pat@, j));
                }
            }
            (out, false)
        },
    }
}

/// Applies one replacement per word, left to right, and counts how many
/// words found an occurrence to consume.
pub fn substitute_words(text: &Vec<char>, pat: &Vec<char>, words: &Vec<Vec<char>>) -> (r: (
    Vec<char>,
    usize,
))
    ensures
        r.0@ == replace_seq(text@, pat@, words.deep_view()),
        r.1 == hit_count(text@, pat@, words.deep_view()),
        r.1 <= words@.len(),
{
    let ghost ws: Seq<Seq<char>> = words.deep_view();
    let mut cur: Vec<char> = Vec::new();
    push_range(&mut cur, text, 0, text.len());
    proof {
        assert(text@.subrange(0, text@.len() as int) =~= text@);
        assert(cur@ =~= text@);
        assert(ws.skip(0) =~= ws);
    }
    let mut hits: usize = 0;
    let mut j: usize = 0;
    while j < words.len()
        invariant
            j <= words@.len(),
            hits <= j,
            ws == words.deep_view(),
            ws.len() == words@.len(),
            replace_seq(cur@, pat@, ws.skip(j as int)) == replace_seq(text@, pat@, ws),
            hits + hit_count(cur@, pat@, ws.skip(j as int)) == hit_count(text@, pat@, ws),
        decreases words@.len() - j,
    {
        proof {
            assert(ws.skip(j as int).len() > 0);
            assert(ws[j as int] == words@[j as int].deep_view());
            assert(ws.skip(j as int)[0] == words@[j as int]@);
            assert(ws.skip(j as int).drop_first() =~= ws.skip(j + 1));
        }
        let (next, hit) = replace_first(&cur, pat, &words[j]);
        cur = next;
        if hit {
            hits = hits + 1;
        }
        j = j + 1;
    }
    proof {
        assert(ws.skip(words@.len() as int) =~= Seq::<Seq<char>>::empty());
    }
    (cur, hits)
}

} // verus!
