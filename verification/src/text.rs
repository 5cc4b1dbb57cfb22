//! Character-level helpers over `str` and `String`, specified over `Seq<char>`.
use vstd::prelude::*;

verus! {

/// `needle` occurs in `s`.
pub open spec fn has_char(s: Seq<char>, needle: char) -> bool {
    exists|i: int| 0 <= i < s.len() && s[i] == needle
}

/// `prefix` is a prefix of `s`.
pub open spec fn starts_with(s: Seq<char>, prefix: Seq<char>) -> bool {
    prefix.len() <= s.len() && s.subrange(0, prefix.len() as int) == prefix
}

/// `needle` occurs in `s` as a contiguous run starting at `i`.
pub open spec fn occurs_at(s: Seq<char>, needle: Seq<char>, i: int) -> bool {
    0 <= i && i + needle.len() <= s.len() && s.subrange(i, i + needle.len()) == needle
}

/// `needle` occurs somewhere in `s` (the empty needle occurs everywhere).
pub open spec fn contains(s: Seq<char>, needle: Seq<char>) -> bool {
    exists|i: int| occurs_at(s, needle, i)
}

/// The pieces of `s` between `sep` characters, read from the left.
/// Splitting `"a..b."` at `.` gives `"a"`, `""`, `"b"` and `""`.
pub open spec fn pieces(s: Seq<char>, sep: char) -> Seq<Seq<char>>
    decreases s.len(),
{
    if s.len() == 0 {
        seq![Seq::<char>::empty()]
    } else {
        let prev = pieces(s.drop_last(), sep);
        if s.last() == sep {
            prev.push(Seq::<char>::empty())
        } else {
            prev.update(prev.len() - 1, prev.last().push(s.last()))
        }
    }
}

pub proof fn lemma_pieces_nonempty(s: Seq<char>, sep: char)
    ensures
        pieces(s, sep).len() >= 1,
    decreases s.len(),
{
    if s.len() > 0 {
        lemma_pieces_nonempty(s.drop_last(), sep);
    }
}

/// No piece holds the separator.
pub proof fn lemma_pieces_free_of_sep(s: Seq<char>, sep: char)
    ensures
        forall|i: int, j: int|
            0 <= i < pieces(s, sep).len() && 0 <= j < pieces(s, sep)[i].len() ==> pieces(s, sep)[i][j]
                != sep,
    decreases s.len(),
{
    if s.len() > 0 {
        let prev = pieces(s.drop_last(), sep);
        lemma_pieces_free_of_sep(s.drop_last(), sep);
        lemma_pieces_nonempty(s.drop_last(), sep);
        let cur = pieces(s, sep);
        assert forall|i: int, j: int| 0 <= i < cur.len() && 0 <= j < cur[i].len() implies cur[i][j]
            != sep by {
            if s.last() == sep {
                if i < prev.len() {
                    assert(cur[i] == prev[i]);
                }
            } else {
                if i < prev.len() - 1 {
                    assert(cur[i] == prev[i]);
                } else {
                    assert(cur[i] == prev.last().push(s.last()));
                    if j < prev.last().len() {
                        assert(cur[i][j] == prev[prev.len() - 1][j]);
                    }
                }
            }
        }
    }
}

/// A text without the separator is one piece.
pub proof fn lemma_pieces_single(s: Seq<char>, sep: char)
    requires
        forall|i: int| 0 <= i < s.len() ==> s[i] != sep,
    ensures
        pieces(s, sep) == seq![s],
    decreases s.len(),
{
    if s.len() > 0 {
        lemma_pieces_single(s.drop_last(), sep);
        assert(s.drop_last().push(s.last()) =~= s);
    } else {
        assert(s =~= Seq::<char>::empty());
    }
}

/// Splitting at a separator that joins two texts splits each text on its own.
pub proof fn lemma_pieces_concat(a: Seq<char>, b: Seq<char>, sep: char)
    ensures
        pieces(a.push(sep) + b, sep) == pieces(a, sep) + pieces(b, sep),
    decreases b.len(),
{
    let whole = a.push(sep) + b;
    if b.len() == 0 {
        assert(whole =~= a.push(sep));
        assert(a.push(sep).drop_last() =~= a);
        assert(pieces(b, sep) =~= seq![Seq::<char>::empty()]);
        assert(pieces(a, sep).push(Seq::<char>::empty()) =~= pieces(a, sep) + seq![
            Seq::<char>::empty(),
        ]);
    } else {
        let shorter = b.drop_last();
        lemma_pieces_concat(a, shorter, sep);
        lemma_pieces_nonempty(shorter, sep);
        assert(whole.drop_last() =~= a.push(sep) + shorter);
        assert(whole.last() == b.last());
        let p = pieces(a, sep);
        let q = pieces(shorter, sep);
        if b.last() == sep {
            assert((p + q).push(Seq::<char>::empty()) =~= p + q.push(Seq::<char>::empty()));
        } else {
            let pq = p + q;
            assert(pq.last() == q.last());
            assert(pq.update(pq.len() - 1, pq.last().push(b.last())) =~= p + q.update(
                q.len() - 1,
                q.last().push(b.last()),
            ));
        }
    }
}

/// The pieces of `s` between `sep` characters, one `Vec` each.
pub fn split_chars(s: &[char], sep: char) -> (r: Vec<Vec<char>>)
    ensures
        r@.map_values(|v: Vec<char>| v@) == pieces(s@, sep),
{
    let mut done: Vec<Vec<char>> = Vec::new();
    let mut cur: Vec<char> = Vec::new();
    let mut i: usize = 0;
    proof {
        assert(s@.subrange(0, 0) =~= Seq::<char>::empty());
        assert(pieces(s@.subrange(0, 0), sep).drop_last() =~= Seq::<Seq<char>>::empty());
        assert(done@.map_values(|v: Vec<char>| v@) =~= Seq::<Seq<char>>::empty());
    }
    while i < s.len()
        invariant
            i <= s@.len(),
            pieces(s@.subrange(0, i as int), sep).len() >= 1,
            cur@ == pieces(s@.subrange(0, i as int), sep).last(),
            done@.map_values(|v: Vec<char>| v@) == pieces(s@.subrange(0, i as int), sep).drop_last(),
        decreases s@.len() - i,
    {
        let c = s[i];
        let ghost before = s@.subrange(0, i as int);
        let ghost after = s@.subrange(0, i + 1);
        let ghost segs = pieces(before, sep);
        let ghost old_done = done@;
        proof {
            assert(after.drop_last() =~= before);
            assert(after.last() == c);
        }
        if c == sep {
            let finished = cur;
            done.push(finished);
            cur = Vec::new();
            proof {
                assert(pieces(after, sep) == segs.push(Seq::<char>::empty()));
                assert(done@.map_values(|v: Vec<char>| v@) =~= old_done.map_values(
                    |v: Vec<char>| v@,
                ).push(segs.last()));
                assert(segs =~= segs.drop_last().push(segs.last()));
                assert(pieces(after, sep).drop_last() =~= segs);
                assert(cur@ =~= pieces(after, sep).last());
            }
        } else {
            cur.push(c);
            proof {
                assert(pieces(after, sep) == segs.update(segs.len() - 1, segs.last().push(c)));
                assert(pieces(after, sep).drop_last() =~= segs.drop_last());
            }
        }
        i = i + 1;
    }
    let ghost old_done = done@;
    done.push(cur);
    proof {
        let segs = pieces(s@.subrange(0, i as int), sep);
        assert(s@.subrange(0, i as int) =~= s@);
        assert(segs =~= segs.drop_last().push(segs.last()));
        assert(done@.map_values(|v: Vec<char>| v@) =~= old_done.map_values(|v: Vec<char>| v@).push(
            segs.last(),
        ));
    }
    done
}

/// Unicode `White_Space`, the characters that `char::is_whitespace` accepts.
pub open spec fn is_whitespace(c: char) -> bool {
    ||| '\u{9}' <= c <= '\u{d}'
    ||| c == ' '
    ||| c == '\u{85}'
    ||| c == '\u{a0}'
    ||| c == '\u{1680}'
    ||| '\u{2000}' <= c <= '\u{200a}'
    ||| c == '\u{2028}'
    ||| c == '\u{2029}'
    ||| c == '\u{202f}'
    ||| c == '\u{205f}'
    ||| c == '\u{3000}'
}

/// Whether `c` is Unicode whitespace.
pub fn is_whitespace_exec(c: char) -> (r: bool)
    ensures
        r == is_whitespace(c),
{
    ('\u{9}' <= c && c <= '\u{d}') || c == ' ' || c == '\u{85}' || c == '\u{a0}' || c == '\u{1680}'
        || ('\u{2000}' <= c && c <= '\u{200a}') || c == '\u{2028}' || c == '\u{2029}' || c
        == '\u{202f}' || c == '\u{205f}' || c == '\u{3000}'
}

/// The words of `s`: maximal runs of non-whitespace characters, in order, as
/// `str::split_whitespace` yields them. Read from the left: `done` holds the
/// finished words and `cur` the word being read.
pub open spec fn words_state(s: Seq<char>) -> (Seq<Seq<char>>, Seq<char>)
    decreases s.len(),
{
    if s.len() == 0 {
        (seq![], seq![])
    } else {
        let prev = words_state(s.drop_last());
        let c = s.last();
        if is_whitespace(c) {
            if prev.1.len() > 0 {
                (prev.0.push(prev.1), seq![])
            } else {
                prev
            }
        } else {
            (prev.0, prev.1.push(c))
        }
    }
}

pub open spec fn words(s: Seq<char>) -> Seq<Seq<char>> {
    let st = words_state(s);
    if st.1.len() > 0 {
        st.0.push(st.1)
    } else {
        st.0
    }
}

/// The words of `s`, as [`words`] specifies.
pub fn split_words(s: &[char]) -> (r: Vec<Vec<char>>)
    ensures
        r@.map_values(|v: Vec<char>| v@) == words(s@),
{
    let mut done: Vec<Vec<char>> = Vec::new();
    let mut cur: Vec<char> = Vec::new();
    let mut i: usize = 0;
    proof {
        assert(s@.subrange(0, 0) =~= Seq::<char>::empty());
        assert(done@.map_values(|v: Vec<char>| v@) =~= Seq::<Seq<char>>::empty());
    }
    while i < s.len()
        invariant
            i <= s@.len(),
            done@.map_values(|v: Vec<char>| v@) == words_state(s@.subrange(0, i as int)).0,
            cur@ == words_state(s@.subrange(0, i as int)).1,
        decreases s@.len() - i,
    {
        let c = s[i];
        let ghost old_done = done@;
        proof {
            assert(s@.subrange(0, i + 1).drop_last() =~= s@.subrange(0, i as int));
            assert(s@.subrange(0, i + 1).last() == c);
        }
        if is_whitespace_exec(c) {
            if cur.len() > 0 {
                let word = cur;
                done.push(word);
                cur = Vec::new();
                proof {
                    assert(done@.map_values(|v: Vec<char>| v@) =~= old_done.map_values(
                        |v: Vec<char>| v@,
                    ).push(words_state(s@.subrange(0, i as int)).1));
                    assert(cur@ =~= Seq::<char>::empty());
                }
            }
        } else {
            cur.push(c);
        }
        i = i + 1;
    }
    proof {
        assert(s@.subrange(0, i as int) =~= s@);
    }
    if cur.len() > 0 {
        let ghost old_done = done@;
        done.push(cur);
        proof {
            assert(done@.map_values(|v: Vec<char>| v@) =~= old_done.map_values(|v: Vec<char>| v@).push(
                words_state(s@).1,
            ));
        }
    }
    done
}

/// A line without the `\r` of a `\r\n` ending.
pub open spec fn strip_cr(line: Seq<char>) -> Seq<char> {
    if line.len() > 0 && line.last() == '\r' {
        line.drop_last()
    } else {
        line
    }
}

/// The lines of `s`, as `str::lines` yields them: split at `\n`, a `\r` before
/// each `\n` dropped, and no final empty line after a trailing `\n`.
pub open spec fn lines(s: Seq<char>) -> Seq<Seq<char>> {
    let p = pieces(s, '\n');
    let terminated = p.drop_last().map_values(|line: Seq<char>| strip_cr(line));
    if p.last().len() > 0 {
        terminated.push(p.last())
    } else {
        terminated
    }
}

/// The lines of `s`, as [`lines`] specifies.
pub fn split_lines(s: &[char]) -> (r: Vec<Vec<char>>)
    ensures
        r@.map_values(|v: Vec<char>| v@) == lines(s@),
{
    let p = split_chars(s, '\n');
    let ghost pv = pieces(s@, '\n');
    proof {
        lemma_pieces_nonempty(s@, '\n');
    }
    let mut r: Vec<Vec<char>> = Vec::new();
    let mut i: usize = 0;
    let n = p.len();
    while i + 1 < n
        invariant
            n == p@.len(),
            n >= 1,
            i + 1 <= n,
            p@.map_values(|v: Vec<char>| v@) == pv,
            r@.len() == i,
            forall|k: int| 0 <= k < i ==> (#[trigger] r@[k])@ == strip_cr(pv[k]),
        decreases n - i,
    {
        let line = &p[i];
        let mut kept: Vec<char> = Vec::new();
        let len = line.len();
        let end = if len > 0 && line[len - 1] == '\r' {
            len - 1
        } else {
            len
        };
        let mut j: usize = 0;
        while j < end
            invariant
                end <= line@.len(),
                j <= end,
                kept@ == line@.subrange(0, j as int),
            decreases end - j,
        {
            kept.push(line[j]);
            j = j + 1;
            proof {
                assert(kept@ =~= line@.subrange(0, j as int));
            }
        }
        proof {
            assert(line@ == pv[i as int]);
            if len > 0 && line@.last() == '\r' {
                assert(kept@ =~= line@.drop_last());
            } else {
                assert(kept@ =~= line@);
            }
        }
        let ghost old_r = r@;
        r.push(kept);
        proof {
            assert(r@[i as int]@ == strip_cr(pv[i as int]));
            assert forall|k: int| 0 <= k < i + 1 implies (#[trigger] r@[k])@ == strip_cr(pv[k]) by {
                if k < i {
                    assert(r@[k] == old_r[k]);
                }
            }
        }
        i = i + 1;
    }
    proof {
        assert(p@[n - 1]@ == pv.last());
    }
    if p[n - 1].len() > 0 {
        r.push(p[n - 1].clone());
    }
    proof {
        let terminated = pv.drop_last().map_values(|line: Seq<char>| strip_cr(line));
        if pv.last().len() > 0 {
            assert(r@.map_values(|v: Vec<char>| v@) =~= terminated.push(pv.last()));
        } else {
            assert(r@.map_values(|v: Vec<char>| v@) =~= terminated);
        }
    }
    r
}

/// The characters of a string slice, in order.
pub fn chars_of(s: &str) -> (r: Vec<char>)
    ensures
        r@ == s@,
{
    let mut r: Vec<char> = Vec::new();
    for c in it: s.chars()
        invariant
            r@ == it.seq().subrange(0, it.index() as int),
            it.seq() == s@,
    {
        r.push(c);
    }
    r
}

/// Append one character to a `String`.
#[verifier::external_body]
pub(crate) fn push_char(s: &mut String, c: char)
    ensures
        final(s)@ == old(s)@.push(c),
{
    s.push(c);
}

/// Append the characters of `chars` to `s`.
pub fn push_chars(s: &mut String, chars: &[char])
    ensures
        final(s)@ == old(s)@ + chars@,
{
    let mut i: usize = 0;
    while i < chars.len()
        invariant
            i <= chars@.len(),
            s@ == old(s)@ + chars@.subrange(0, i as int),
        decreases chars@.len() - i,
    {
        push_char(s, chars[i]);
        i = i + 1;
        assert(chars@.subrange(0, i as int) == chars@.subrange(0, i - 1).push(chars@[i - 1]));
    }
    assert(chars@.subrange(0, chars@.len() as int) == chars@);
}

/// Append the characters of `tail` to `s`.
pub fn push_str(s: &mut String, tail: &str)
    ensures
        final(s)@ == old(s)@ + tail@,
{
    let chars = chars_of(tail);
    push_chars(s, chars.as_slice());
}

/// A `String` holding exactly `chars`.
pub fn string_of(chars: &[char]) -> (r: String)
    ensures
        r@ == chars@,
{
    let mut r = String::new();
    push_chars(&mut r, chars);
    r
}

/// Whether `needle` occurs in `s`.
pub fn has_char_exec(s: &[char], needle: char) -> (r: bool)
    ensures
        r == has_char(s@, needle),
{
    let mut i: usize = 0;
    while i < s.len()
        invariant
            i <= s@.len(),
            forall|k: int| 0 <= k < i ==> s@[k] != needle,
        decreases s@.len() - i,
    {
        if s[i] == needle {
            return true;
        }
        i = i + 1;
    }
    false
}

/// Whether `a` and `b` hold the same characters.
pub fn chars_equal(a: &[char], b: &[char]) -> (r: bool)
    ensures
        r == (a@ == b@),
{
    if a.len() != b.len() {
        return false;
    }
    let mut i: usize = 0;
    while i < a.len()
        invariant
            a@.len() == b@.len(),
            i <= a@.len(),
            forall|k: int| 0 <= k < i ==> a@[k] == b@[k],
        decreases a@.len() - i,
    {
        if a[i] != b[i] {
            return false;
        }
        i = i + 1;
    }
    assert(a@ =~= b@);
    true
}

/// Whether two string slices hold the same characters.
pub fn str_equal(a: &str, b: &str) -> (r: bool)
    ensures
        r == (a@ == b@),
{
    let x = chars_of(a);
    let y = chars_of(b);
    chars_equal(x.as_slice(), y.as_slice())
}

/// Whether `needle` occurs in `s` at position `i`.
pub fn occurs_at_exec(s: &[char], needle: &[char], i: usize) -> (r: bool)
    ensures
        r == occurs_at(s@, needle@, i as int),
{
    if i > s.len() || needle.len() > s.len() - i {
        return false;
    }
    let mut k: usize = 0;
    while k < needle.len()
        invariant
            i + needle@.len() <= s.len(),
            k <= needle@.len(),
            forall|j: int| 0 <= j < k ==> s@[i + j] == needle@[j],
        decreases needle@.len() - k,
    {
        if s[i + k] != needle[k] {
            assert(s@.subrange(i as int, i + needle@.len())[k as int] != needle@[k as int]);
            return false;
        }
        k = k + 1;
    }
    assert(s@.subrange(i as int, i + needle@.len()) =~= needle@);
    true
}

/// Whether `needle` occurs anywhere in `s`.
pub fn contains_exec(s: &[char], needle: &[char]) -> (r: bool)
    ensures
        r == contains(s@, needle@),
{
    let mut i: usize = 0;
    while i < s.len()
        invariant
            i <= s@.len(),
            forall|j: int| 0 <= j < i ==> !occurs_at(s@, needle@, j),
        decreases s@.len() - i,
    {
        if occurs_at_exec(s, needle, i) {
            return true;
        }
        i = i + 1;
    }
    if occurs_at_exec(s, needle, i) {
        return true;
    }
    assert forall|j: int| !occurs_at(s@, needle@, j) by {
        if 0 <= j && j <= i {
        } else if j > i {
            assert(j + needle@.len() > s@.len());
        }
    }
    false
}

/// Whether `prefix` starts `s`.
pub fn starts_with_exec(s: &[char], prefix: &[char]) -> (r: bool)
    ensures
        r == starts_with(s@, prefix@),
{
    occurs_at_exec(s, prefix, 0)
}

} // verus!
