//! Character-level helpers shared by the protocol parsers: decimal rendering
//! of unsigned integers, and the character classes the device parsers use.

use vstd::prelude::*;

verus! {

/// The ASCII digit for `d` (`d < 10`).
pub open spec fn digit_char(d: nat) -> char {
    ((48 + d) as u32) as char
}

/// The decimal rendering of `n`, as `Display` prints an unsigned integer:
/// no sign, no leading zeros, `"0"` for zero.
pub open spec fn decimal(n: nat) -> Seq<char>
    decreases n,
{
    if n < 10 {
        seq![digit_char(n)]
    } else {
        decimal(n / 10).push(digit_char(n % 10))
    }
}

/// Appends `c` to `s`.
#[verifier::external_body]
pub(crate) fn push_char(s: &mut String, c: char)
    ensures
        final(s)@ == old(s)@.push(c),
{
    s.push(c);
}

fn append_decimal(s: &mut String, n: u64)
    ensures
        final(s)@ == old(s)@ + decimal(n as nat),
    decreases n,
{
    if n >= 10 {
        append_decimal(s, n / 10);
    }
    let d: u8 = (n % 10) as u8;
    let c = (48u8 + d) as char;
    assert(c == digit_char((n % 10) as nat));
    push_char(s, c);
}

/// Renders `n` in decimal.
pub fn u64_to_decimal(n: u64) -> (s: String)
    ensures
        s@ == decimal(n as nat),
{
    let mut s = String::new();
    append_decimal(&mut s, n);
    s
}

/// Whether a character above ASCII has the Unicode `Alphabetic` property:
/// the table lookup `char::is_alphabetic` makes for such characters.
pub uninterp spec fn unicode_table_alphabetic(c: char) -> bool;

/// An ASCII letter.
pub open spec fn is_ascii_letter(c: char) -> bool {
    ('a' <= c && c <= 'z') || ('A' <= c && c <= 'Z')
}

/// Whether `c` is alphabetic as `char::is_alphabetic` decides it: an ASCII
/// letter, or a character above ASCII with the `Alphabetic` property.
pub open spec fn unicode_alphabetic(c: char) -> bool {
    is_ascii_letter(c) || ((c as u32) > 0x7f && unicode_table_alphabetic(c))
}

/// Whether `c` has the Unicode `White_Space` property, as
/// `char::is_whitespace` decides it: tab to carriage return, space, next
/// line, no-break space, ogham space mark, the spaces from en quad to hair
/// space, line and paragraph separators, narrow no-break space, medium
/// mathematical space and ideographic space.
pub open spec fn unicode_white_space(c: char) -> bool {
    ||| c == ' '
    ||| ('\u{9}' <= c && c <= '\u{d}')
    ||| c == '\u{85}'
    ||| c == '\u{a0}'
    ||| c == '\u{1680}'
    ||| ('\u{2000}' <= c && c <= '\u{200a}')
    ||| c == '\u{2028}'
    ||| c == '\u{2029}'
    ||| c == '\u{202f}'
    ||| c == '\u{205f}'
    ||| c == '\u{3000}'
}

/// `char::is_alphabetic`, which answers for ASCII letters at once and looks
/// characters above ASCII up in the `Alphabetic` table; the contract names
/// that lookup and claims nothing else of the table.
#[verifier::external_body]
pub(crate) fn is_alphabetic(c: char) -> (r: bool)
    ensures
        r == (is_ascii_letter(c) || ((c as u32) > 0x7f && unicode_table_alphabetic(c))),
{
    c.is_alphabetic()
}

/// Whether `c` is white space, as `char::is_whitespace` decides it.
pub fn is_whitespace(c: char) -> (r: bool)
    ensures
        r == unicode_white_space(c),
{
    c == ' ' || ('\u{9}' <= c && c <= '\u{d}') || c == '\u{85}' || c == '\u{a0}' || c
        == '\u{1680}' || ('\u{2000}' <= c && c <= '\u{200a}') || c == '\u{2028}' || c
        == '\u{2029}' || c == '\u{202f}' || c == '\u{205f}' || c == '\u{3000}'
}

/// The characters of `s`, in order.
pub fn chars_of(s: &str) -> (v: Vec<char>)
    ensures
        v@ == s@,
{
    let n = s.unicode_len();
    let mut v: Vec<char> = Vec::new();
    let mut i: usize = 0;
    while i < n
        invariant
            n == s@.len(),
            i <= n,
            v@ == s@.take(i as int),
        decreases n - i,
    {
        let c = s.get_char(i);
        v.push(c);
        assert(s@.take(i + 1) =~= s@.take(i as int).push(c));
        i = i + 1;
    }
    assert(s@.take(n as int) =~= s@);
    v
}

/// The string made of the characters of `v`, in order.
pub fn string_from_chars(v: &Vec<char>) -> (s: String)
    ensures
        s@ == v@,
{
    let mut s = String::new();
    let mut i: usize = 0;
    while i < v.len()
        invariant
            i <= v.len(),
            s@ == v@.take(i as int),
        decreases v.len() - i,
    {
        push_char(&mut s, v[i]);
        assert(v@.take(i + 1) =~= v@.take(i as int).push(v@[i as int]));
        i = i + 1;
    }
    assert(v@.take(v.len() as int) =~= v@);
    s
}

/// `s` without its leading white space.
pub open spec fn trim_start(s: Seq<char>) -> Seq<char>
    decreases s.len(),
{
    if s.len() > 0 && unicode_white_space(s[0]) {
        trim_start(s.drop_first())
    } else {
        s
    }
}

/// `s` without its trailing white space.
pub open spec fn trim_end(s: Seq<char>) -> Seq<char>
    decreases s.len(),
{
    if s.len() > 0 && unicode_white_space(s.last()) {
        trim_end(s.drop_last())
    } else {
        s
    }
}

/// `s` without leading and trailing white space, as `str::trim` gives it.
pub open spec fn trim(s: Seq<char>) -> Seq<char> {
    trim_end(trim_start(s))
}

proof fn lemma_trim_start_skip(s: Seq<char>, i: int)
    requires
        0 <= i < s.len(),
        unicode_white_space(s[i]),
    ensures
        trim_start(s.skip(i)) == trim_start(s.skip(i + 1)),
{
    assert(s.skip(i).drop_first() =~= s.skip(i + 1));
}

proof fn lemma_trim_end_take(s: Seq<char>, j: int)
    requires
        0 < j <= s.len(),
        unicode_white_space(s[j - 1]),
    ensures
        trim_end(s.take(j)) == trim_end(s.take(j - 1)),
{
    assert(s.take(j).drop_last() =~= s.take(j - 1));
}

/// `v` without leading and trailing white space.
pub fn trim_chars(v: &Vec<char>) -> (r: Vec<char>)
    ensures
        r@ == trim(v@),
{
    let n = v.len();
    let mut i: usize = 0;
    assert(v@.skip(0) =~= v@);
    while i < n && is_whitespace(v[i])
        invariant
            n == v@.len(),
            i <= n,
            trim_start(v@) == trim_start(v@.skip(i as int)),
        decreases n - i,
    {
        proof {
            lemma_trim_start_skip(v@, i as int);
        }
        i = i + 1;
    }
    let ghost rest = v@.skip(i as int);
    assert(trim_start(v@) == rest);
    let mut j: usize = n;
    assert(rest.take((n - i) as int) =~= rest);
    while j > i && is_whitespace(v[j - 1])
        invariant
            n == v@.len(),
            i <= j <= n,
            rest == v@.skip(i as int),
            trim_end(rest) == trim_end(rest.take(j - i)),
        decreases j,
    {
        proof {
            lemma_trim_end_take(rest, (j - i) as int);
        }
        j = j - 1;
    }
    let mut r: Vec<char> = Vec::new();
    let mut k: usize = i;
    while k < j
        invariant
            n == v@.len(),
            i <= k <= j <= n,
            r@ == v@.subrange(i as int, k as int),
        decreases j - k,
    {
        r.push(v[k]);
        assert(v@.subrange(i as int, k + 1) =~= v@.subrange(i as int, k as int).push(v@[k as int]));
        k = k + 1;
    }
    assert(rest.take(j - i) =~= v@.subrange(i as int, j as int));
    r
}

/// The pieces of `s` between occurrences of `sep`, as `str::split` with a
/// `char` pattern yields them: `k` separators give `k + 1` pieces, empty
/// ones included.
pub open spec fn split_on(s: Seq<char>, sep: char) -> Seq<Seq<char>>
    decreases s.len(),
{
    if s.len() == 0 {
        seq![Seq::<char>::empty()]
    } else {
        let r = split_on(s.drop_last(), sep);
        if s.last() == sep {
            r.push(Seq::<char>::empty())
        } else {
            r.update(r.len() - 1, r.last().push(s.last()))
        }
    }
}

proof fn lemma_split_on_nonempty(s: Seq<char>, sep: char)
    ensures
        split_on(s, sep).len() >= 1,
    decreases s.len(),
{
    if s.len() > 0 {
        lemma_split_on_nonempty(s.drop_last(), sep);
    }
}

/// Whether `vs` holds, element by element, the sequences of `ss`.
pub open spec fn views_match(vs: Seq<Vec<char>>, ss: Seq<Seq<char>>) -> bool {
    &&& vs.len() == ss.len()
    &&& forall|k: int| 0 <= k < vs.len() ==> #[trigger] vs[k]@ == ss[k]
}

/// The pieces of `v` between occurrences of `sep`.
pub fn split_chars(v: &Vec<char>, sep: char) -> (r: Vec<Vec<char>>)
    ensures
        views_match(r@, split_on(v@, sep)),
{
    let mut done: Vec<Vec<char>> = Vec::new();
    let mut cur: Vec<char> = Vec::new();
    let mut i: usize = 0;
    assert(v@.take(0) =~= Seq::<char>::empty());
    while i < v.len()
        invariant
            i <= v.len(),
            views_match(done@.push(cur), split_on(v@.take(i as int), sep)),
        decreases v.len() - i,
    {
        let c = v[i];
        let ghost prev = split_on(v@.take(i as int), sep);
        proof {
            lemma_split_on_nonempty(v@.take(i as int), sep);
        }
        assert(v@.take(i + 1).drop_last() =~= v@.take(i as int));
        assert(v@.take(i + 1).last() == c);
        if c == sep {
            done.push(cur);
            cur = Vec::new();
            assert(views_match(done@.push(cur), prev.push(Seq::<char>::empty())));
        } else {
            let ghost old_cur = cur@;
            let ghost old_seq = done@.push(cur);
            assert(old_seq[old_seq.len() - 1]@ == prev.last());
            cur.push(c);
            assert(cur@ == old_cur.push(c));
            let ghost new_seq = done@.push(cur);
            let ghost target = prev.update(prev.len() - 1, prev.last().push(c));
            assert forall|k: int| 0 <= k < new_seq.len() implies #[trigger] new_seq[k]@ == target[k] by {
                if k < new_seq.len() - 1 {
                    assert(new_seq[k] == old_seq[k]);
                }
            }
            assert(views_match(done@.push(cur), prev.update(prev.len() - 1, prev.last().push(c))));
        }
        i = i + 1;
    }
    done.push(cur);
    assert(v@.take(v.len() as int) =~= v@);
    done
}

/// The pieces of `s` between non-overlapping occurrences of `...`, found
/// from the left, as `str::split("...")` yields them.
pub open spec fn split_on_ellipsis(s: Seq<char>) -> Seq<Seq<char>>
    decreases s.len(),
{
    if s.len() == 0 {
        seq![Seq::<char>::empty()]
    } else if s.len() >= 3 && s[0] == '.' && s[1] == '.' && s[2] == '.' {
        seq![Seq::<char>::empty()] + split_on_ellipsis(s.skip(3))
    } else {
        let r = split_on_ellipsis(s.drop_first());
        r.update(0, seq![s[0]] + r[0])
    }
}

proof fn lemma_split_on_ellipsis_nonempty(s: Seq<char>)
    ensures
        split_on_ellipsis(s).len() >= 1,
    decreases s.len(),
{
    if s.len() >= 3 && s[0] == '.' && s[1] == '.' && s[2] == '.' {
        lemma_split_on_ellipsis_nonempty(s.skip(3));
    } else if s.len() > 0 {
        lemma_split_on_ellipsis_nonempty(s.drop_first());
    }
}

/// The pieces already cut off (`done`), the piece being read (`cur`), and
/// the pieces of the rest of the input (`rest`), put together.
spec fn ellipsis_join(done: Seq<Seq<char>>, cur: Seq<char>, rest: Seq<Seq<char>>) -> Seq<Seq<char>> {
    done.push(cur + rest[0]) + rest.drop_first()
}

/// The pieces of `v` between non-overlapping occurrences of `...`.
pub fn split_chars_on_ellipsis(v: &Vec<char>) -> (r: Vec<Vec<char>>)
    ensures
        views_match(r@, split_on_ellipsis(v@)),
{
    let n = v.len();
    let mut done: Vec<Vec<char>> = Vec::new();
    let ghost mut gdone: Seq<Seq<char>> = Seq::empty();
    let mut cur: Vec<char> = Vec::new();
    let mut i: usize = 0;
    assert(v@.skip(0) =~= v@);
    proof {
        lemma_split_on_ellipsis_nonempty(v@);
        assert(ellipsis_join(gdone, cur@, split_on_ellipsis(v@)) =~= split_on_ellipsis(v@));
    }
    while i < n
        invariant
            n == v@.len(),
            i <= n,
            views_match(done@, gdone),
            split_on_ellipsis(v@) == ellipsis_join(gdone, cur@, split_on_ellipsis(v@.skip(i as int))),
        decreases n - i,
    {
        let ghost tail = v@.skip(i as int);
        proof {
            lemma_split_on_ellipsis_nonempty(tail);
        }
        if n - i >= 3 && v[i] == '.' && v[i + 1] == '.' && v[i + 2] == '.' {
            let ghost r = split_on_ellipsis(tail.skip(3));
            proof {
                lemma_split_on_ellipsis_nonempty(tail.skip(3));
                assert(tail.skip(3) =~= v@.skip(i + 3));
                assert(split_on_ellipsis(tail) == seq![Seq::<char>::empty()] + r);
                assert(ellipsis_join(gdone, cur@, seq![Seq::<char>::empty()] + r)
                    =~= ellipsis_join(gdone.push(cur@), Seq::<char>::empty(), r));
                gdone = gdone.push(cur@);
            }
            done.push(cur);
            cur = Vec::new();
            i = i + 3;
        } else {
            let c = v[i];
            let ghost r = split_on_ellipsis(tail.drop_first());
            let ghost old_cur = cur@;
            proof {
                lemma_split_on_ellipsis_nonempty(tail.drop_first());
                assert(tail.drop_first() =~= v@.skip(i + 1));
                assert(split_on_ellipsis(tail) == r.update(0, seq![c] + r[0]));
                assert(old_cur + (seq![c] + r[0]) =~= old_cur.push(c) + r[0]);
                assert(ellipsis_join(gdone, old_cur, r.update(0, seq![c] + r[0]))
                    =~= ellipsis_join(gdone, old_cur.push(c), r));
            }
            cur.push(c);
            i = i + 1;
        }
    }
    proof {
        assert(v@.skip(n as int) =~= Seq::<char>::empty());
        assert(cur@ + Seq::<char>::empty() =~= cur@);
        assert(ellipsis_join(gdone, cur@, seq![Seq::<char>::empty()]) =~= gdone.push(cur@));
    }
    done.push(cur);
    done
}

/// The characters of `s` that are neither alphabetic nor white space, in
/// order: what the device parser keeps of a field before reading a number.
pub open spec fn numeric_residue(s: Seq<char>) -> Seq<char>
    decreases s.len(),
{
    if s.len() == 0 {
        s
    } else {
        let r = numeric_residue(s.drop_last());
        let c = s.last();
        if !unicode_alphabetic(c) && !unicode_white_space(c) {
            r.push(c)
        } else {
            r
        }
    }
}

/// The characters of `v` that are neither alphabetic nor white space.
pub fn residue_chars(v: &Vec<char>) -> (r: Vec<char>)
    ensures
        r@ == numeric_residue(v@),
{
    let mut r: Vec<char> = Vec::new();
    let mut i: usize = 0;
    assert(v@.take(0) =~= Seq::<char>::empty());
    while i < v.len()
        invariant
            i <= v.len(),
            r@ == numeric_residue(v@.take(i as int)),
        decreases v.len() - i,
    {
        let c = v[i];
        assert(v@.take(i + 1).drop_last() =~= v@.take(i as int));
        if !is_alphabetic(c) && !is_whitespace(c) {
            r.push(c);
        }
        i = i + 1;
    }
    assert(v@.take(v.len() as int) =~= v@);
    r
}

/// The words of `s`: the maximal runs of characters that are not white
/// space, in order, as `str::split_whitespace` yields them.
pub open spec fn words(s: Seq<char>) -> Seq<Seq<char>>
    decreases s.len(),
{
    if s.len() == 0 {
        Seq::empty()
    } else {
        let r = words(s.drop_last());
        let c = s.last();
        if unicode_white_space(c) {
            r
        } else if s.len() >= 2 && !unicode_white_space(s[s.len() - 2]) {
            r.update(r.len() - 1, r.last().push(c))
        } else {
            r.push(seq![c])
        }
    }
}

proof fn lemma_words_nonempty_after_word_char(s: Seq<char>)
    requires
        s.len() > 0,
        !unicode_white_space(s.last()),
    ensures
        words(s).len() >= 1,
        words(s).last().len() >= 1,
    decreases s.len(),
{
    if s.len() >= 2 && !unicode_white_space(s[s.len() - 2]) {
        lemma_words_nonempty_after_word_char(s.drop_last());
        assert(s.drop_last().last() == s[s.len() - 2]);
    }
}

/// The words of `v`.
pub fn words_of(v: &Vec<char>) -> (r: Vec<Vec<char>>)
    ensures
        views_match(r@, words(v@)),
{
    let mut done: Vec<Vec<char>> = Vec::new();
    let mut cur: Vec<char> = Vec::new();
    let mut in_word = false;
    let mut i: usize = 0;
    assert(v@.take(0) =~= Seq::<char>::empty());
    while i < v.len()
        invariant
            i <= v.len(),
            in_word == (i > 0 && !unicode_white_space(v@[i - 1])),
            in_word ==> views_match(done@.push(cur), words(v@.take(i as int))),
            !in_word ==> views_match(done@, words(v@.take(i as int))),
        decreases v.len() - i,
    {
        let c = v[i];
        let ghost pre = v@.take(i as int);
        let ghost prev = words(pre);
        let ghost now = v@.take(i + 1);
        assert(now.drop_last() =~= pre);
        assert(now.last() == c);
        if is_whitespace(c) {
            if in_word {
                done.push(cur);
                cur = Vec::new();
            }
            in_word = false;
        } else {
            if in_word {
                proof {
                    assert(now[now.len() - 2] == v@[i - 1]);
                    lemma_words_nonempty_after_word_char(pre);
                    assert(pre.last() == v@[i - 1]);
                }
                let ghost old_seq = done@.push(cur);
                let ghost old_cur = cur@;
                cur.push(c);
                let ghost new_seq = done@.push(cur);
                let ghost target = prev.update(prev.len() - 1, prev.last().push(c));
                assert(old_seq[old_seq.len() - 1]@ == prev.last());
                assert forall|k: int| 0 <= k < new_seq.len() implies #[trigger] new_seq[k]@ == target[k] by {
                    if k < new_seq.len() - 1 {
                        assert(new_seq[k] == old_seq[k]);
                    }
                }
                assert(views_match(done@.push(cur), words(now)));
            } else {
                proof {
                    if i > 0 {
                        assert(now[now.len() - 2] == v@[i - 1]);
                    }
                }
                cur = Vec::new();
                cur.push(c);
                assert(cur@ =~= seq![c]);
                assert(views_match(done@.push(cur), prev.push(seq![c])));
            }
            in_word = true;
        }
        i = i + 1;
    }
    assert(v@.take(v.len() as int) =~= v@);
    if in_word {
        done.push(cur);
    }
    done
}

/// The index of the first `c` in `s`, if there is one.
pub open spec fn index_of(s: Seq<char>, c: char) -> Option<nat>
    decreases s.len(),
{
    if s.len() == 0 {
        None
    } else if s[0] == c {
        Some(0)
    } else {
        match index_of(s.drop_first(), c) {
            Some(k) => Some(k + 1),
            None => None,
        }
    }
}

pub(crate) proof fn lemma_index_of(s: Seq<char>, c: char, i: int)
    requires
        0 <= i <= s.len(),
        forall|j: int| 0 <= j < i ==> s[j] != c,
    ensures
        i < s.len() && s[i] == c ==> index_of(s, c) == Some(i as nat),
        i == s.len() ==> index_of(s, c) is None,
    decreases i,
{
    if i > 0 {
        lemma_index_of(s.drop_first(), c, i - 1);
    }
}

/// The index of the first `c` in `v`, if there is one.
pub fn find_char(v: &Vec<char>, c: char) -> (r: Option<usize>)
    ensures
        r matches Some(k) ==> k < v.len() && index_of(v@, c) == Some(k as nat),
        r is None ==> index_of(v@, c) is None,
{
    let mut i: usize = 0;
    while i < v.len()
        invariant
            i <= v.len(),
            forall|j: int| 0 <= j < i ==> v@[j] != c,
        decreases v.len() - i,
    {
        if v[i] == c {
            proof {
                lemma_index_of(v@, c, i as int);
            }
            return Some(i);
        }
        i = i + 1;
    }
    proof {
        lemma_index_of(v@, c, i as int);
    }
    None
}

/// The characters of `v` from `from` up to `to`.
pub fn slice_chars(v: &Vec<char>, from: usize, to: usize) -> (r: Vec<char>)
    requires
        from <= to <= v.len(),
    ensures
        r@ == v@.subrange(from as int, to as int),
{
    let mut r: Vec<char> = Vec::new();
    let mut k = from;
    while k < to
        invariant
            from <= k <= to <= v.len(),
            r@ == v@.subrange(from as int, k as int),
        decreases to - k,
    {
        r.push(v[k]);
        assert(v@.subrange(from as int, k + 1) =~= v@.subrange(from as int, k as int).push(v@[k as int]));
        k = k + 1;
    }
    r
}

/// Whether `v` holds exactly the characters of `word`.
pub fn chars_equal(v: &Vec<char>, word: &[char]) -> (r: bool)
    ensures
        r == (v@ == word@),
{
    if v.len() != word.len() {
        return false;
    }
    let mut k: usize = 0;
    while k < v.len()
        invariant
            v@.len() == word@.len(),
            k <= v.len(),
            forall|j: int| 0 <= j < k ==> v@[j] == word@[j],
        decreases v.len() - k,
    {
        if v[k] != word[k] {
            return false;
        }
        k = k + 1;
    }
    assert(v@ =~= word@);
    true
}

// ------------------------------------------------------------- lemmas

/// Cutting at a separator placed between two texts cuts each text apart.
pub(crate) proof fn lemma_split_on_concat(a: Seq<char>, b: Seq<char>, sep: char)
    ensures
        split_on(a + seq![sep] + b, sep) == split_on(a, sep) + split_on(b, sep),
    decreases b.len(),
{
    if b.len() == 0 {
        assert(a + seq![sep] + b =~= a.push(sep));
        assert((a + seq![sep] + b).drop_last() =~= a);
        assert(split_on(b, sep) =~= seq![Seq::<char>::empty()]);
        assert(split_on(a, sep).push(Seq::<char>::empty()) =~= split_on(a, sep) + split_on(b, sep));
    } else {
        let b0 = b.drop_last();
        let c = b.last();
        lemma_split_on_concat(a, b0, sep);
        lemma_split_on_nonempty(b0, sep);
        assert((a + seq![sep] + b).drop_last() =~= a + seq![sep] + b0);
        assert((a + seq![sep] + b).last() == c);
        let ra = split_on(a, sep);
        let rb = split_on(b0, sep);
        if c == sep {
            assert((ra + rb).push(Seq::<char>::empty()) =~= ra + rb.push(Seq::<char>::empty()));
        } else {
            let r = ra + rb;
            assert(r.last() == rb.last());
            assert(r.update(r.len() - 1, r.last().push(c)) =~= ra + rb.update(
                rb.len() - 1,
                rb.last().push(c),
            ));
        }
    }
}

/// A text without the separator is one piece.
pub(crate) proof fn lemma_split_on_single(a: Seq<char>, sep: char)
    requires
        forall|k: int| 0 <= k < a.len() ==> a[k] != sep,
    ensures
        split_on(a, sep) == seq![a],
    decreases a.len(),
{
    if a.len() > 0 {
        lemma_split_on_single(a.drop_last(), sep);
        assert(a.drop_last().push(a.last()) =~= a);
        assert(seq![a.drop_last()].update(0, a.drop_last().push(a.last())) =~= seq![a]);
    } else {
        assert(a =~= Seq::<char>::empty());
        assert(seq![Seq::<char>::empty()] =~= seq![a]);
    }
}

/// What is kept of two texts put together is what is kept of each.
pub(crate) proof fn lemma_residue_concat(a: Seq<char>, b: Seq<char>)
    ensures
        numeric_residue(a + b) == numeric_residue(a) + numeric_residue(b),
    decreases b.len(),
{
    if b.len() == 0 {
        assert(a + b =~= a);
        assert(numeric_residue(a) + numeric_residue(b) =~= numeric_residue(a));
    } else {
        lemma_residue_concat(a, b.drop_last());
        assert((a + b).drop_last() =~= a + b.drop_last());
        assert((a + b).last() == b.last());
        let ra = numeric_residue(a);
        let rb = numeric_residue(b.drop_last());
        assert((ra + rb).push(b.last()) =~= ra + rb.push(b.last()));
    }
}

/// A text with no letters and no white space is kept whole.
pub(crate) proof fn lemma_residue_keeps(a: Seq<char>)
    requires
        forall|k: int|
            0 <= k < a.len() ==> !unicode_alphabetic(#[trigger] a[k]) && !unicode_white_space(a[k]),
    ensures
        numeric_residue(a) == a,
    decreases a.len(),
{
    if a.len() > 0 {
        lemma_residue_keeps(a.drop_last());
        assert(a.drop_last().push(a.last()) =~= a);
    }
}

/// A text of ASCII letters and spaces leaves nothing.
pub(crate) proof fn lemma_residue_drops(a: Seq<char>)
    requires
        forall|k: int| 0 <= k < a.len() ==> is_ascii_letter(#[trigger] a[k]) || a[k] == ' ',
    ensures
        numeric_residue(a) == Seq::<char>::empty(),
    decreases a.len(),
{
    if a.len() > 0 {
        lemma_residue_drops(a.drop_last());
        assert(is_ascii_letter(a.last()) || a.last() == ' ');
    }
}

/// A text in which no dot is followed by another dot.
pub open spec fn no_double_dot(s: Seq<char>) -> bool {
    forall|k: int| 0 <= k < s.len() - 1 ==> !(s[k] == '.' && #[trigger] s[k + 1] == '.')
}

/// A text with no two dots in a row is one piece when cut at `...`.
pub(crate) proof fn lemma_split_on_ellipsis_single(a: Seq<char>)
    requires
        no_double_dot(a),
    ensures
        split_on_ellipsis(a) == seq![a],
    decreases a.len(),
{
    if a.len() > 0 {
        let t = a.drop_first();
        assert forall|k: int| 0 <= k < t.len() - 1 implies !(t[k] == '.' && #[trigger] t[k + 1] == '.') by {
            assert(t[k] == a[k + 1] && t[k + 1] == a[k + 2]);
        }
        lemma_split_on_ellipsis_single(t);
        if a.len() >= 3 {
            assert(!(a[0] == '.' && a[1] == '.'));
        }
        assert(seq![a[0]] + t =~= a);
        assert(seq![t].update(0, seq![a[0]] + t) =~= seq![a]);
    } else {
        assert(a =~= Seq::<char>::empty());
        assert(seq![Seq::<char>::empty()] =~= seq![a]);
    }
}

/// Two texts put together with `...` between them, the first with no two
/// dots in a row and not ending in a dot, split back at the `...`.
pub(crate) proof fn lemma_split_on_ellipsis_pair(a: Seq<char>, b: Seq<char>)
    requires
        no_double_dot(a),
        a.len() == 0 || a.last() != '.',
    ensures
        split_on_ellipsis(a + seq!['.', '.', '.'] + b) == seq![a] + split_on_ellipsis(b),
    decreases a.len(),
{
    let s = a + seq!['.', '.', '.'] + b;
    if a.len() == 0 {
        assert(s =~= seq!['.', '.', '.'] + b);
        assert(s.skip(3) =~= b);
        assert(a =~= Seq::<char>::empty());
        assert(seq![Seq::<char>::empty()] + split_on_ellipsis(b) =~= seq![a] + split_on_ellipsis(b));
    } else {
        let t = a.drop_first();
        assert forall|k: int| 0 <= k < t.len() - 1 implies !(t[k] == '.' && #[trigger] t[k + 1] == '.') by {
            assert(t[k] == a[k + 1] && t[k + 1] == a[k + 2]);
        }
        if t.len() > 0 {
            assert(t.last() == a.last());
        }
        lemma_split_on_ellipsis_pair(t, b);
        assert(s.drop_first() =~= t + seq!['.', '.', '.'] + b);
        assert(s[0] == a[0]);
        if a[0] == '.' {
            if a.len() >= 2 {
                assert(s[1] == a[1]);
                assert(!(a[0] == '.' && a[1] == '.'));
            } else {
                assert(a.last() == a[0]);
            }
        }
        let r = split_on_ellipsis(s.drop_first());
        assert(r == seq![t] + split_on_ellipsis(b));
        assert(r[0] == t);
        assert(seq![s[0]] + t =~= a);
        assert(r.update(0, seq![s[0]] + r[0]) =~= seq![a] + split_on_ellipsis(b));
    }
}

/// The pieces of `ss` put together with `sep` between each two.
pub open spec fn joined(ss: Seq<Seq<char>>, sep: char) -> Seq<char>
    decreases ss.len(),
{
    if ss.len() <= 1 {
        if ss.len() == 1 { ss[0] } else { Seq::empty() }
    } else {
        joined(ss.drop_last(), sep) + seq![sep] + ss.last()
    }
}

/// Pieces put together with a separator none of them holds are cut back
/// into the same pieces.
pub(crate) proof fn lemma_split_joined(ss: Seq<Seq<char>>, sep: char)
    requires
        ss.len() >= 1,
        forall|i: int, k: int| 0 <= i < ss.len() && 0 <= k < ss[i].len() ==> #[trigger] ss[i][k] != sep,
    ensures
        split_on(joined(ss, sep), sep) == ss,
    decreases ss.len(),
{
    if ss.len() == 1 {
        assert forall|k: int| 0 <= k < ss[0].len() implies ss[0][k] != sep by {
            assert(ss[0][k] != sep);
        }
        lemma_split_on_single(ss[0], sep);
        assert(seq![ss[0]] =~= ss);
    } else {
        let init = ss.drop_last();
        assert forall|i: int, k: int| 0 <= i < init.len() && 0 <= k < init[i].len() implies #[trigger] init[i][k] != sep by {
            assert(init[i] == ss[i]);
            assert(ss[i][k] != sep);
        }
        lemma_split_joined(init, sep);
        let last = ss.last();
        assert forall|k: int| 0 <= k < last.len() implies last[k] != sep by {
            assert(ss[ss.len() - 1][k] != sep);
        }
        lemma_split_on_single(last, sep);
        lemma_split_on_concat(joined(init, sep), last, sep);
        assert(init + seq![last] =~= ss);
    }
}

/// The first character of the joined text is that of the first piece, and
/// the last that of the last piece, when those pieces are not empty.
pub(crate) proof fn lemma_joined_ends(ss: Seq<Seq<char>>, sep: char)
    requires
        ss.len() >= 1,
        ss[0].len() > 0,
        ss.last().len() > 0,
    ensures
        joined(ss, sep).len() > 0,
        joined(ss, sep)[0] == ss[0][0],
        joined(ss, sep).last() == ss.last().last(),
    decreases ss.len(),
{
    if ss.len() > 1 {
        let init = ss.drop_last();
        if init.len() > 1 {
            assert(init[0] == ss[0]);
            lemma_joined_len(init, sep);
            lemma_joined_first(init, sep);
        }
    }
}

proof fn lemma_joined_len(ss: Seq<Seq<char>>, sep: char)
    requires
        ss.len() >= 1,
    ensures
        joined(ss, sep).len() >= ss[0].len(),
    decreases ss.len(),
{
    if ss.len() > 1 {
        lemma_joined_len(ss.drop_last(), sep);
    }
}

proof fn lemma_joined_first(ss: Seq<Seq<char>>, sep: char)
    requires
        ss.len() >= 1,
        ss[0].len() > 0,
    ensures
        joined(ss, sep)[0] == ss[0][0],
    decreases ss.len(),
{
    if ss.len() > 1 {
        lemma_joined_first(ss.drop_last(), sep);
        lemma_joined_len(ss.drop_last(), sep);
    }
}

proof fn lemma_words_space_concat(a: Seq<char>, b: Seq<char>)
    ensures
        words(a + seq![' '] + b) == words(a) + words(b),
    decreases b.len(),
{
    let s = a + seq![' '] + b;
    if b.len() == 0 {
        assert(s =~= a.push(' '));
        assert(s.drop_last() =~= a);
        assert(words(a) + words(b) =~= words(a));
    } else {
        let b0 = b.drop_last();
        let c = b.last();
        lemma_words_space_concat(a, b0);
        assert(s.drop_last() =~= a + seq![' '] + b0);
        assert(s.last() == c);
        let wa = words(a);
        let wb = words(b0);
        assert(s[s.len() - 2] == if b0.len() > 0 { b0.last() } else { ' ' });
        if unicode_white_space(c) {
        } else if b0.len() > 0 && !unicode_white_space(b0.last()) {
            assert(b[b.len() - 2] == b0.last());
            lemma_words_nonempty_after_word_char(b0);
            let r = wa + wb;
            assert(r.last() == wb.last());
            assert(r.update(r.len() - 1, r.last().push(c)) =~= wa + wb.update(
                wb.len() - 1,
                wb.last().push(c),
            ));
        } else {
            if b0.len() > 0 {
                assert(b[b.len() - 2] == b0.last());
            }
            assert((wa + wb).push(seq![c]) =~= wa + wb.push(seq![c]));
        }
    }
}

proof fn lemma_words_single(w: Seq<char>)
    requires
        w.len() > 0,
        forall|k: int| 0 <= k < w.len() ==> !unicode_white_space(#[trigger] w[k]),
    ensures
        words(w) == seq![w],
    decreases w.len(),
{
    let w0 = w.drop_last();
    assert(!unicode_white_space(w[w.len() - 1]));
    if w0.len() > 0 {
        assert forall|k: int| 0 <= k < w0.len() implies !unicode_white_space(#[trigger] w0[k]) by {
            assert(w0[k] == w[k]);
        }
        lemma_words_single(w0);
        assert(!unicode_white_space(w[w.len() - 2]));
        assert(w0.push(w.last()) =~= w);
        assert(seq![w0].update(0, w0.push(w.last())) =~= seq![w]);
        assert(words(w) == words(w0).update(words(w0).len() - 1, words(w0).last().push(w.last())));
    } else {
        assert(w0 =~= Seq::<char>::empty());
        assert(words(w0) == Seq::<Seq<char>>::empty());
        assert(seq![w.last()] =~= w);
        assert(Seq::<Seq<char>>::empty().push(seq![w.last()]) =~= seq![w]);
    }
}

/// Words put together with single spaces are read back as the same words.
pub(crate) proof fn lemma_words_joined(ws: Seq<Seq<char>>)
    requires
        ws.len() >= 1,
        forall|i: int| 0 <= i < ws.len() ==> (#[trigger] ws[i]).len() > 0,
        forall|i: int, k: int| 0 <= i < ws.len() && 0 <= k < ws[i].len() ==> !unicode_white_space(
            #[trigger] ws[i][k],
        ),
    ensures
        words(joined(ws, ' ')) == ws,
    decreases ws.len(),
{
    if ws.len() == 1 {
        assert(ws[0].len() > 0);
        assert forall|k: int| 0 <= k < ws[0].len() implies !unicode_white_space(#[trigger] ws[0][k]) by {
            assert(!unicode_white_space(ws[0][k]));
        }
        lemma_words_single(ws[0]);
        assert(seq![ws[0]] =~= ws);
    } else {
        let init = ws.drop_last();
        let last = ws.last();
        assert forall|i: int| 0 <= i < init.len() implies (#[trigger] init[i]).len() > 0 by {
            assert(init[i] == ws[i]);
        }
        assert forall|i: int, k: int| 0 <= i < init.len() && 0 <= k < init[i].len() implies !unicode_white_space(
            #[trigger] init[i][k],
        ) by {
            assert(init[i] == ws[i]);
            assert(!unicode_white_space(ws[i][k]));
        }
        lemma_words_joined(init);
        assert(last.len() > 0);
        assert forall|k: int| 0 <= k < last.len() implies !unicode_white_space(#[trigger] last[k]) by {
            assert(!unicode_white_space(ws[ws.len() - 1][k]));
        }
        lemma_words_single(last);
        lemma_words_space_concat(joined(init, ' '), last);
        assert(init + seq![last] =~= ws);
    }
}

} // verus!
