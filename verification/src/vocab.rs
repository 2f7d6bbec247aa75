//! The vocabulary: one token per line, id equal to the zero-based line index.
//!
//! A vocabulary text is split into lines, with a final line ending optional,
//! and each line is trimmed of surrounding whitespace. A trimmed line that is
//! empty carries no token; each non-empty line's id is its line index, so a
//! usable vocabulary keeps its empty lines at the end, where they leave no
//! gap in the id range. The token list must match the pretrained model's
//! embedding table entry for entry; ids are stable and assigned in file
//! order.

use crate::chars::{chars_of, string_from_chars};
use crate::text::push_range;
use vstd::prelude::*;

verus! {

/// Whitespace as the trailing-whitespace trim understands it (the Unicode
/// `White_Space` set).
pub open spec fn is_ws_char(c: char) -> bool {
    let u = c as u32;
    (0x09 <= u && u <= 0x0D) || u == 0x20 || u == 0x85 || u == 0xA0 || u == 0x1680 || (0x2000 <= u
        && u <= 0x200A) || u == 0x2028 || u == 0x2029 || u == 0x202F || u == 0x205F || u == 0x3000
}

/// Executable test for `is_ws_char`.
pub fn ws_char(c: char) -> (b: bool)
    ensures
        b == is_ws_char(c),
{
    let u = c as u32;
    (0x09 <= u && u <= 0x0D) || u == 0x20 || u == 0x85 || u == 0xA0 || u == 0x1680 || (0x2000 <= u
        && u <= 0x200A) || u == 0x2028 || u == 0x2029 || u == 0x202F || u == 0x205F || u == 0x3000
}

/// `s` without its trailing whitespace.
pub open spec fn trim_end_ws(s: Seq<char>) -> Seq<char>
    decreases s.len(),
{
    if s.len() > 0 && is_ws_char(s.last()) {
        trim_end_ws(s.drop_last())
    } else {
        s
    }
}

/// `s` without its leading whitespace.
pub open spec fn trim_start_ws(s: Seq<char>) -> Seq<char>
    decreases s.len(),
{
    if s.len() > 0 && is_ws_char(s[0]) {
        trim_start_ws(s.drop_first())
    } else {
        s
    }
}

/// `s` without leading or trailing whitespace.
pub open spec fn trim_ws(s: Seq<char>) -> Seq<char> {
    trim_end_ws(trim_start_ws(s))
}

/// The lines of `s`: line breaks at each newline character, with a final
/// line ending optional, so trailing text without a newline still forms a
/// line and a trailing newline adds none.
pub open spec fn split_lines(s: Seq<char>) -> Seq<Seq<char>>
    decreases s.len(),
{
    if s.len() == 0 {
        Seq::empty()
    } else if s[0] == '\n' {
        seq![Seq::<char>::empty()] + split_lines(s.drop_first())
    } else {
        let rest = split_lines(s.drop_first());
        if rest.len() == 0 {
            seq![seq![s[0]]]
        } else {
            seq![seq![s[0]] + rest[0]] + rest.drop_first()
        }
    }
}

/// The lines still open during a left-to-right scan: the unfinished line
/// `cur` glued onto the lines of the remaining text.
pub open spec fn glue(cur: Seq<char>, rest: Seq<Seq<char>>) -> Seq<Seq<char>> {
    if rest.len() == 0 {
        if cur.len() == 0 {
            Seq::empty()
        } else {
            seq![cur]
        }
    } else {
        seq![cur + rest[0]] + rest.drop_first()
    }
}

/// The trimmed lines of a vocabulary text. A trimmed line that is empty
/// denotes no token: only the non-empty lines carry ids, each id equal to
/// its zero-based line index — so a usable vocabulary has all its empty
/// lines at the end, where they leave no gap in the id range.
pub open spec fn vocab_lines(s: Seq<char>) -> Seq<Seq<char>> {
    split_lines(s).map_values(|l: Seq<char>| trim_ws(l))
}

/// How many lines carry an id: the length of the leading run of non-empty
/// trimmed lines.
pub open spec fn active_count(lines: Seq<Seq<char>>) -> int
    decreases lines.len(),
{
    if lines.len() == 0 || lines[0].len() == 0 {
        0
    } else {
        1 + active_count(lines.drop_first())
    }
}

/// Every line after the leading non-empty run is empty, so the assigned
/// ids are exactly `0 .. active_count` with no gap.
pub open spec fn gap_free(lines: Seq<Seq<char>>) -> bool {
    forall|i: int| active_count(lines) <= i < lines.len() ==> lines[i].len() == 0
}

/// `active_count` counts a leading non-empty run: it is the unique `k`
/// with all lines before `k` non-empty and line `k`, if any, empty.
pub proof fn lemma_active_count(lines: Seq<Seq<char>>, k: int)
    requires
        0 <= k <= lines.len(),
        forall|j: int| 0 <= j < k ==> lines[j].len() > 0,
        k < lines.len() ==> lines[k].len() == 0,
    ensures
        active_count(lines) == k,
    decreases k,
{
    if k > 0 {
        lemma_active_count(lines.drop_first(), k - 1);
    }
}

/// No two tokens are the same, so ids and tokens determine each other.
pub open spec fn distinct_tokens(v: Seq<Seq<char>>) -> bool {
    forall|i: int, j: int| 0 <= i < j < v.len() ==> v[i] != v[j]
}

/// The id of the first token of `v` equal to `t`, at or after `i`.
pub open spec fn first_token_id_from(v: Seq<Seq<char>>, t: Seq<char>, i: int) -> Option<int>
    decreases v.len() + 1 - i,
{
    if i < 0 || i >= v.len() {
        None
    } else if v[i] == t {
        Some(i)
    } else {
        first_token_id_from(v, t, i + 1)
    }
}

/// The id of the first token of `v` equal to `t`.
pub open spec fn spec_id_of(v: Seq<Seq<char>>, t: Seq<char>) -> Option<int> {
    first_token_id_from(v, t, 0)
}

/// `first_token_id_from` finds a matching token, finds the first one, and
/// reports `None` only when no token at or after `i` matches.
pub proof fn lemma_first_token_id_from(v: Seq<Seq<char>>, t: Seq<char>, i: int)
    requires
        0 <= i,
    ensures
        match first_token_id_from(v, t, i) {
            Some(j) => i <= j < v.len() && v[j] == t && (forall|k: int| i <= k < j ==> v[k] != t),
            None => forall|k: int| i <= k < v.len() ==> v[k] != t,
        },
    decreases v.len() + 1 - i,
{
    if i >= v.len() {
    } else if v[i] == t {
    } else {
        lemma_first_token_id_from(v, t, i + 1);
    }
}

/// Splits `text` into its lines.
fn split_lines_exec(text: &Vec<char>) -> (r: Vec<Vec<char>>)
    ensures
        r.deep_view() == split_lines(text@),
{
    let mut out: Vec<Vec<char>> = Vec::new();
    let mut cur: Vec<char> = Vec::new();
    let mut p: usize = 0;
    proof {
        assert(text@.skip(0) =~= text@);
    }
    while p < text.len()
        invariant
            p <= text@.len(),
            split_lines(text@) == out.deep_view() + glue(cur@, split_lines(text@.skip(p as int))),
        decreases text@.len() - p,
    {
        let ghost out0 = out.deep_view();
        let ghost cur0 = cur@;
        let ghost rest = split_lines(text@.skip(p as int));
        let c = text[p];
        proof {
            assert(text@.skip(p as int).len() > 0);
            assert(text@.skip(p as int)[0] == text@[p as int]);
            assert(text@.skip(p as int).drop_first() =~= text@.skip(p + 1));
        }
        let ghost rest1 = split_lines(text@.skip(p + 1));
        if c == '\n' {
            out.push(cur);
            cur = Vec::new();
            proof {
                assert(out.deep_view() =~~= out0.push(cur0));
                // the scanned text's lines: an empty line, then the rest
                assert(rest == seq![Seq::<char>::empty()] + rest1);
                assert(rest[0] == Seq::<char>::empty());
                assert(rest.drop_first() =~= rest1);
                assert(cur0 + rest[0] =~= cur0);
                assert(glue(cur0, rest) =~~= seq![cur0] + rest1);
                if rest1.len() == 0 {
                    assert(glue(cur@, rest1) =~~= Seq::<Seq<char>>::empty());
                } else {
                    assert(cur@ + rest1[0] =~= rest1[0]);
                    assert(glue(cur@, rest1) =~~= rest1);
                }
                assert(out0 + glue(cur0, rest) =~~= out.deep_view() + glue(cur@, rest1));
            }
        } else {
            cur.push(c);
            proof {
                assert(cur@ =~= cur0.push(c));
                if rest1.len() == 0 {
                    assert(rest == seq![seq![text@[p as int]]]);
                    assert(cur0 + rest[0] =~= cur@);
                    assert(rest.drop_first() =~~= Seq::<Seq<char>>::empty());
                    assert(glue(cur0, rest) =~~= seq![cur@]);
                    assert(glue(cur@, rest1) =~~= seq![cur@]);
                } else {
                    assert(rest == seq![seq![text@[p as int]] + rest1[0]] + rest1.drop_first());
                    assert(rest[0] == seq![text@[p as int]] + rest1[0]);
                    assert(cur0 + rest[0] =~= cur@ + rest1[0]);
                    assert(rest.drop_first() =~~= rest1.drop_first());
                    assert(glue(cur0, rest) =~~= glue(cur@, rest1));
                }
                assert(out0 + glue(cur0, rest) =~~= out.deep_view() + glue(cur@, rest1));
            }
        }
        p = p + 1;
    }
    proof {
        assert(text@.skip(text@.len() as int) =~= Seq::<char>::empty());
    }
    let ghost out1 = out.deep_view();
    let ghost cur1 = cur@;
    if cur.len() > 0 {
        out.push(cur);
        proof {
            assert(out.deep_view() =~~= out1.push(cur1));
            assert(glue(cur1, Seq::<Seq<char>>::empty()) =~~= seq![cur1]);
            assert(out1 + seq![cur1] =~~= out1.push(cur1));
        }
    } else {
        proof {
            assert(glue(cur1, Seq::<Seq<char>>::empty()) =~~= Seq::<Seq<char>>::empty());
            assert(out1 + Seq::<Seq<char>>::empty() =~~= out1);
        }
    }
    out
}

/// The bounds of `v` once leading and trailing whitespace is dropped:
/// `v[r.0 .. r.1]` is `v` trimmed of both.
fn trim_bounds(v: &Vec<char>) -> (r: (usize, usize))
    ensures
        r.0 <= r.1 <= v@.len(),
        trim_ws(v@) == v@.subrange(r.0 as int, r.1 as int),
{
    let len = v.len();
    let mut m: usize = 0;
    proof {
        assert(v@.skip(0) =~= v@);
    }
    loop
        invariant
            m <= v@.len(),
            len == v@.len(),
            trim_start_ws(v@) == trim_start_ws(v@.skip(m as int)),
        ensures
            m <= v@.len(),
            trim_start_ws(v@) == v@.skip(m as int),
        decreases v@.len() - m,
    {
        if m == len {
            proof {
                assert(v@.skip(m as int) =~= Seq::<char>::empty());
                assert(trim_start_ws(v@.skip(m as int)) == v@.skip(m as int));
            }
            break ;
        }
        if !ws_char(v[m]) {
            proof {
                assert(v@.skip(m as int)[0] == v@[m as int]);
                assert(trim_start_ws(v@.skip(m as int)) == v@.skip(m as int));
            }
            break ;
        }
        proof {
            assert(v@.skip(m as int)[0] == v@[m as int]);
            assert(v@.skip(m as int).drop_first() =~= v@.skip(m + 1));
        }
        m = m + 1;
    }
    let mut n: usize = len;
    proof {
        assert(v@.skip(m as int) =~= v@.subrange(m as int, v@.len() as int));
    }
    loop
        invariant
            m <= n <= v@.len(),
            trim_start_ws(v@) == v@.skip(m as int),
            trim_ws(v@) == trim_end_ws(v@.subrange(m as int, n as int)),
        ensures
            m <= n <= v@.len(),
            trim_ws(v@) == v@.subrange(m as int, n as int),
        decreases n,
    {
        if n == m {
            proof {
                assert(v@.subrange(m as int, m as int) =~= Seq::<char>::empty());
                assert(trim_end_ws(v@.subrange(m as int, n as int)) == v@.subrange(
                    m as int,
                    n as int,
                ));
            }
            break ;
        }
        if !ws_char(v[n - 1]) {
            proof {
                assert(v@.subrange(m as int, n as int).last() == v@[n - 1]);
                assert(trim_end_ws(v@.subrange(m as int, n as int)) == v@.subrange(
                    m as int,
                    n as int,
                ));
            }
            break ;
        }
        proof {
            assert(v@.subrange(m as int, n as int).last() == v@[n - 1]);
            assert(v@.subrange(m as int, n as int).drop_last() =~= v@.subrange(m as int, n - 1));
        }
        n = n - 1;
    }
    (m, n)
}

/// The trimmed lines of a vocabulary text: the token with id `i` is the
/// `i`-th line, and a line that trimmed to nothing carries no token.
pub struct Vocabulary {
    tokens: Vec<String>,
}

impl View for Vocabulary {
    type V = Seq<Seq<char>>;

    closed spec fn view(&self) -> Seq<Seq<char>> {
        self.tokens.deep_view()
    }
}

impl Vocabulary {
    /// Loads a vocabulary: line `i` of `text`, trimmed of surrounding
    /// whitespace, stands at index `i`.
    pub fn parse(text: &str) -> (v: Vocabulary)
        ensures
            v@ == vocab_lines(text@),
    {
        let cs = chars_of(text);
        let raw = split_lines_exec(&cs);
        let ghost lines = split_lines(text@);
        let mut tokens: Vec<String> = Vec::new();
        let mut i: usize = 0;
        proof {
        assert(tokens.deep_view() =~~= vocab_lines(text@).take(0));
        }
        while i < raw.len()
            invariant
                i <= raw@.len(),
                raw.deep_view() == lines,
                lines == split_lines(text@),
                raw@.len() == lines.len(),
                tokens.deep_view() == vocab_lines(text@).take(i as int),
            decreases raw@.len() - i,
        {
            let ghost toks0 = tokens.deep_view();
            let (from, to) = trim_bounds(&raw[i]);
            let mut t: Vec<char> = Vec::new();
            push_range(&mut t, &raw[i], from, to);
            let s = string_from_chars(&t);
            tokens.push(s);
            proof {
                assert(raw@[i as int].deep_view() =~= raw@[i as int]@);
                assert(raw@[i as int]@ == lines[i as int]);
                assert(t@ =~= raw@[i as int]@.subrange(from as int, to as int));
                assert(s@ == trim_ws(lines[i as int]));
                assert(vocab_lines(text@)[i as int] == trim_ws(lines[i as int]));
                assert(tokens.deep_view() =~~= toks0.push(s@));
                assert(tokens.deep_view() =~~= vocab_lines(text@).take(i + 1));
            }
            i = i + 1;
        }
        proof {
            assert(vocab_lines(text@).take(lines.len() as int) =~~= vocab_lines(text@));
        }
        Vocabulary { tokens }
    }

    /// Number of tokens; valid ids are exactly `0 .. len`.
    pub fn len(&self) -> (n: usize)
        ensures
            n == self@.len(),
    {
        self.tokens.len()
    }

    /// The token text for an id, when the id is in range.
    pub fn token_at(&self, id: usize) -> (r: Option<String>)
        ensures
            match r {
                Some(t) => id < self@.len() && t@ == self@[id as int],
                None => id >= self@.len(),
            },
    {
        if id < self.tokens.len() {
            Some(self.tokens[id].clone())
        } else {
            None
        }
    }

    /// The id of a token: the first line that equals it, scanning in id
    /// order.
    pub fn id_of(&self, token: &String) -> (r: Option<usize>)
        ensures
            match r {
                Some(i) => spec_id_of(self@, token@) == Some(i as int),
                None => spec_id_of(self@, token@) is None,
            },
    {
        let mut i: usize = 0;
        while i < self.tokens.len()
            invariant
                i <= self@.len(),
                self@.len() == self.tokens@.len(),
                forall|k: int| 0 <= k < i ==> self@[k] != token@,
            decreases self@.len() - i,
        {
            if self.tokens[i] == *token {
                proof {
                    lemma_first_token_id_from(self@, token@, 0);
                    if spec_id_of(self@, token@) is None {
                        assert(self@[i as int] != token@);
                    } else {
                        let j = spec_id_of(self@, token@).unwrap();
                        if j < i {
                            assert(self@[j] != token@);
                        } else if i < j {
                            assert(self@[i as int] != token@);
                        }
                    }
                }
                return Some(i);
            }
            proof {
                assert(self@[i as int] == self.tokens@[i as int]@);
            }
            i = i + 1;
        }
        proof {
            lemma_first_token_id_from(self@, token@, 0);
            if spec_id_of(self@, token@) is Some {
                let j = spec_id_of(self@, token@).unwrap();
                assert(self@[j] != token@);
            }
        }
        None
    }

    /// How many lines carry an id, and whether the empty lines leave no gap:
    /// the length of the leading non-empty run, and whether every line after
    /// it is empty.
    pub fn active_len(&self) -> (r: (usize, bool))
        ensures
            r.0 == active_count(self@),
            r.0 <= self@.len(),
            r.1 == gap_free(self@),
    {
        let n = self.tokens.len();
        let mut k: usize = 0;
        loop
            invariant
                k <= n,
                n == self@.len(),
                self@.len() == self.tokens@.len(),
                forall|j: int| 0 <= j < k ==> self@[j].len() > 0,
            ensures
                k == active_count(self@),
                n == self@.len(),
                self@.len() == self.tokens@.len(),
            decreases n - k,
        {
            if k == n {
                proof {
                    lemma_active_count(self@, k as int);
                }
                break ;
            }
            if self.tokens[k].as_str().is_empty() {
                proof {
                    assert(self@[k as int] == self.tokens@[k as int]@);
                    lemma_active_count(self@, k as int);
                }
                break ;
            }
            proof {
                assert(self@[k as int] == self.tokens@[k as int]@);
            }
            k = k + 1;
        }
        let mut j: usize = k;
        while j < n
            invariant
                k <= j <= n,
                k == active_count(self@),
                n == self@.len(),
                self@.len() == self.tokens@.len(),
                forall|l: int| k <= l < j ==> self@[l].len() == 0,
            decreases n - j,
        {
            if !self.tokens[j].as_str().is_empty() {
                proof {
                    assert(self@[j as int] == self.tokens@[j as int]@);
                    assert(self@[j as int].len() > 0);
                }
                return (k, false);
            }
            proof {
                assert(self@[j as int] == self.tokens@[j as int]@);
            }
            j = j + 1;
        }
        (k, true)
    }

    /// Whether the first `k` tokens are pairwise distinct, as the id-bearing
    /// part of a well-formed vocabulary must be.
    pub fn prefix_distinct(&self, k: usize) -> (b: bool)
        requires
            k <= self@.len(),
        ensures
            b == distinct_tokens(self@.take(k as int)),
    {
        let mut i: usize = 0;
        while i < k
            invariant
                i <= k,
                k <= self@.len(),
                self@.len() == self.tokens@.len(),
                forall|p: int, q: int| 0 <= p < q < i ==> self@[p] != self@[q],
            decreases k - i,
        {
            let mut j: usize = 0;
            while j < i
                invariant
                    j <= i < k <= self@.len(),
                    self@.len() == self.tokens@.len(),
                    forall|p: int, q: int| 0 <= p < q < i ==> self@[p] != self@[q],
                    forall|q: int| 0 <= q < j ==> self@[q] != self@[i as int],
                decreases i - j,
            {
                if self.tokens[j] == self.tokens[i] {
                    proof {
                        assert(self@[j as int] == self.tokens@[j as int]@);
                        assert(self@[i as int] == self.tokens@[i as int]@);
                        assert(self@.take(k as int)[j as int] == self@.take(k as int)[i as int]);
                    }
                    return false;
                }
                proof {
                    assert(self@[j as int] == self.tokens@[j as int]@);
                    assert(self@[i as int] == self.tokens@[i as int]@);
                }
                j = j + 1;
            }
            i = i + 1;
        }
        proof {
            assert forall|p: int, q: int|
                0 <= p < q < self@.take(k as int).len() implies self@.take(k as int)[p] != self@.take(
                k as int,
            )[q] by {
                assert(self@.take(k as int)[p] == self@[p]);
                assert(self@.take(k as int)[q] == self@[q]);
            }
        }
        true
    }

    /// Whether all tokens are pairwise distinct, as a well-formed vocabulary
    /// must be.
    pub fn all_distinct(&self) -> (b: bool)
        ensures
            b == distinct_tokens(self@),
    {
        let n = self.tokens.len();
        let mut i: usize = 0;
        while i < n
            invariant
                i <= n,
                n == self@.len(),
                self@.len() == self.tokens@.len(),
                forall|p: int, q: int| 0 <= p < q < i ==> self@[p] != self@[q],
            decreases n - i,
        {
            let mut j: usize = 0;
            while j < i
                invariant
                    j <= i < n,
                    n == self@.len(),
                    self@.len() == self.tokens@.len(),
                    forall|p: int, q: int| 0 <= p < q < i ==> self@[p] != self@[q],
                    forall|q: int| 0 <= q < j ==> self@[q] != self@[i as int],
                decreases i - j,
            {
                if self.tokens[j] == self.tokens[i] {
                    proof {
                        assert(self@[j as int] == self.tokens@[j as int]@);
                        assert(self@[i as int] == self.tokens@[i as int]@);
                    }
                    return false;
                }
                proof {
                    assert(self@[j as int] == self.tokens@[j as int]@);
                    assert(self@[i as int] == self.tokens@[i as int]@);
                }
                j = j + 1;
            }
            i = i + 1;
        }
        true
    }

    /// Round trip: in a vocabulary with distinct tokens, mapping an id to
    /// its token and the token back through the vocabulary returns the same
    /// id, so id-to-text-to-id is stable for in-vocabulary tokens.
    pub proof fn lemma_round_trip(v: Seq<Seq<char>>, i: int)
        requires
            distinct_tokens(v),
            0 <= i < v.len(),
        ensures
            spec_id_of(v, v[i]) == Some(i),
    {
        lemma_first_token_id_from(v, v[i], 0);
        match spec_id_of(v, v[i]) {
            Some(j) => {
                if j < i {
                    assert(v[j] == v[i]);
                    assert(v[j] != v[i]);
                } else if i < j {
                    assert(v[i] != v[i]);
                }
            },
            None => {
                assert(v[i] != v[i]);
            },
        }
    }
}

} // verus!
