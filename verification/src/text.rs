//! Character-level views of text shared by the line helpers, the note store and the
//! configuration readers: whitespace, words, lines, and decimal numbers.
use vstd::prelude::*;
use vstd::string::*;

verus! {

broadcast use vstd::string::group_string_axioms;

/// Whether `c` has the Unicode `White_Space` property.
pub open spec fn white_space(c: char) -> bool {
    ('\t' <= c && c <= '\r') || c == ' ' || c == '\u{85}' || c == '\u{A0}' || c == '\u{1680}' || (
    '\u{2000}' <= c && c <= '\u{200A}') || c == '\u{2028}' || c == '\u{2029}' || c == '\u{202F}'
        || c == '\u{205F}' || c == '\u{3000}'
}

/// Whether `c` has the Unicode `White_Space` property, as `char::is_whitespace` decides.
pub fn is_white_space(c: char) -> (r: bool)
    ensures
        r == white_space(c),
{
    ('\t' <= c && c <= '\r') || c == ' ' || c == '\u{85}' || c == '\u{A0}' || c == '\u{1680}' || (
    '\u{2000}' <= c && c <= '\u{200A}') || c == '\u{2028}' || c == '\u{2029}' || c == '\u{202F}'
        || c == '\u{205F}' || c == '\u{3000}'
}

/// The characters of `s`, in order.
pub fn chars_of(s: &str) -> (r: Vec<char>)
    ensures
        r@ == s@,
{
    let mut out: Vec<char> = Vec::new();
    for c in it: s.chars()
        invariant
            out@ == it.seq().take(it.index() as int),
    {
        out.push(c);
    }
    out
}

/// Whether `a` and `b` hold the same characters.
pub fn same_text(a: &str, b: &str) -> (r: bool)
    ensures
        r == (a@ == b@),
{
    let x = chars_of(a);
    let y = chars_of(b);
    if x.len() != y.len() {
        return false;
    }
    let n = x.len();
    for i in 0..n
        invariant
            n == x@.len(),
            n == y@.len(),
            x@ == a@,
            y@ == b@,
            forall|k: int| 0 <= k < i ==> x@[k] == y@[k],
    {
        if x[i] != y[i] {
            assert(a@[i as int] != b@[i as int]);
            return false;
        }
    }
    assert(x@ =~= y@);
    true
}

/// The index of the first whitespace character of `s` from `from` on, or the length of `s`
/// when there is none.
pub open spec fn first_white(s: Seq<char>, from: int) -> int
    decreases s.len() - from,
{
    if from >= s.len() {
        s.len() as int
    } else if white_space(s[from]) {
        from
    } else {
        first_white(s, from + 1)
    }
}

pub proof fn lemma_first_white(s: Seq<char>, from: int)
    requires
        0 <= from <= s.len(),
    ensures
        from <= first_white(s, from) <= s.len(),
        forall|k: int| from <= k < first_white(s, from) ==> !white_space(#[trigger] s[k]),
        first_white(s, from) < s.len() ==> white_space(s[first_white(s, from)]),
    decreases s.len() - from,
{
    if from < s.len() && !white_space(s[from]) {
        lemma_first_white(s, from + 1);
    }
}

/// The whitespace-separated words of `s`, from the word starting at `from` on.
pub open spec fn words_from(s: Seq<char>, from: int) -> Seq<Seq<char>>
    decreases s.len() - from,
{
    if from >= s.len() || from < 0 {
        Seq::empty()
    } else if white_space(s[from]) {
        words_from(s, from + 1)
    } else {
        let end = first_white(s, from);
        if end <= from || end > s.len() {
            Seq::empty()
        } else {
            seq![s.subrange(from, end)].add(words_from(s, end))
        }
    }
}

/// The whitespace-separated words of `s`, as `str::split_whitespace` yields them.
pub open spec fn words(s: Seq<char>) -> Seq<Seq<char>> {
    words_from(s, 0)
}

/// The character ranges of the words of `s`, in order.
pub fn word_bounds(s: &Vec<char>) -> (r: Vec<(usize, usize)>)
    ensures
        r@.len() == words(s@).len(),
        forall|i: int|
            0 <= i < r@.len() ==> {
                &&& (#[trigger] r@[i]).0 < r@[i].1 <= s@.len()
                &&& s@.subrange(r@[i].0 as int, r@[i].1 as int) == words(s@)[i]
            },
{
    let n = s.len();
    let mut out: Vec<(usize, usize)> = Vec::new();
    let mut pos: usize = 0;
    while pos < n
        invariant
            n == s@.len(),
            pos <= n,
            out@.len() + words_from(s@, pos as int).len() == words(s@).len(),
            forall|i: int|
                0 <= i < out@.len() ==> {
                    &&& (#[trigger] out@[i]).0 < out@[i].1 <= pos
                    &&& s@.subrange(out@[i].0 as int, out@[i].1 as int) == words(s@)[i]
                },
            forall|i: int|
                0 <= i < words_from(s@, pos as int).len() ==> #[trigger] words_from(
                    s@,
                    pos as int,
                )[i] == words(s@)[out@.len() + i],
        decreases n - pos,
    {
        if is_white_space(s[pos]) {
            pos = pos + 1;
        } else {
            let start = pos;
            proof {
                lemma_first_white(s@, start as int);
            }
            while pos < n && !is_white_space(s[pos])
                invariant
                    n == s@.len(),
                    start <= pos <= n,
                    forall|k: int| start <= k < pos ==> !white_space(#[trigger] s@[k]),
                    first_white(s@, start as int) >= pos,
                    start <= first_white(s@, start as int) <= n,
                    first_white(s@, start as int) < n ==> white_space(
                        s@[first_white(s@, start as int)],
                    ),
                decreases n - pos,
            {
                pos = pos + 1;
            }
            assert(pos == first_white(s@, start as int));
            let ghost rest = words_from(s@, pos as int);
            assert(words_from(s@, start as int) == seq![s@.subrange(start as int, pos as int)].add(
                rest,
            ));
            out.push((start, pos));
            assert forall|i: int| 0 <= i < rest.len() implies #[trigger] rest[i] == words(
                s@,
            )[out@.len() + i] by {
                assert(words_from(s@, start as int)[i + 1] == rest[i]);
            }
            assert(words_from(s@, start as int)[0] == s@.subrange(start as int, pos as int));
        }
    }
    out
}

/// The index of the first `c` in `s` from `from` on, or the length of `s` when there is
/// none.
pub open spec fn first_char(s: Seq<char>, from: int, c: char) -> int
    decreases s.len() - from,
{
    if from >= s.len() {
        s.len() as int
    } else if s[from] == c {
        from
    } else {
        first_char(s, from + 1, c)
    }
}

pub proof fn lemma_first_char(s: Seq<char>, from: int, c: char)
    requires
        0 <= from <= s.len(),
    ensures
        from <= first_char(s, from, c) <= s.len(),
        forall|k: int| from <= k < first_char(s, from, c) ==> #[trigger] s[k] != c,
        first_char(s, from, c) < s.len() ==> s[first_char(s, from, c)] == c,
    decreases s.len() - from,
{
    if from < s.len() && s[from] != c {
        lemma_first_char(s, from + 1, c);
    }
}

/// The index of the first `c` in `s`, if there is one.
pub fn find_char(s: &Vec<char>, c: char) -> (r: Option<usize>)
    ensures
        r == if first_char(s@, 0, c) < s@.len() {
            Some(first_char(s@, 0, c) as usize)
        } else {
            None::<usize>
        },
{
    proof {
        lemma_first_char(s@, 0, c);
    }
    let n = s.len();
    let mut i: usize = 0;
    while i < n && s[i] != c
        invariant
            n == s@.len(),
            i <= n,
            i <= first_char(s@, 0, c) <= n,
            first_char(s@, 0, c) < n ==> s@[first_char(s@, 0, c)] == c,
        decreases n - i,
    {
        i = i + 1;
    }
    if i < n {
        Some(i)
    } else {
        None
    }
}

/// A line ended by `"\r\n"` loses the `'\r'`.
pub open spec fn strip_cr(l: Seq<char>) -> Seq<char> {
    if l.len() > 0 && l.last() == '\r' {
        l.drop_last()
    } else {
        l
    }
}

/// The lines of `s` from the line starting at `from` on.
pub open spec fn lines_from(s: Seq<char>, from: int) -> Seq<Seq<char>>
    decreases s.len() - from,
{
    if from >= s.len() || from < 0 {
        Seq::empty()
    } else {
        let end = first_char(s, from, '\n');
        if end >= s.len() || end < from {
            seq![s.subrange(from, s.len() as int)]
        } else {
            seq![strip_cr(s.subrange(from, end))].add(lines_from(s, end + 1))
        }
    }
}

/// The lines of `s`, as `str::lines` yields them: split at `'\n'`, a `'\r'` right before a
/// `'\n'` dropped, and no empty line after a final line ending.
pub open spec fn lines(s: Seq<char>) -> Seq<Seq<char>> {
    lines_from(s, 0)
}

/// The character ranges of the lines of `s`, in order.
pub fn line_bounds(s: &Vec<char>) -> (r: Vec<(usize, usize)>)
    ensures
        r@.len() == lines(s@).len(),
        forall|i: int|
            0 <= i < r@.len() ==> {
                &&& (#[trigger] r@[i]).0 <= r@[i].1 <= s@.len()
                &&& s@.subrange(r@[i].0 as int, r@[i].1 as int) == lines(s@)[i]
            },
{
    let n = s.len();
    let mut out: Vec<(usize, usize)> = Vec::new();
    let mut pos: usize = 0;
    while pos < n
        invariant
            n == s@.len(),
            pos <= n,
            out@.len() + lines_from(s@, pos as int).len() == lines(s@).len(),
            forall|i: int|
                0 <= i < out@.len() ==> {
                    &&& (#[trigger] out@[i]).0 <= out@[i].1 <= n
                    &&& s@.subrange(out@[i].0 as int, out@[i].1 as int) == lines(s@)[i]
                },
            forall|i: int|
                0 <= i < lines_from(s@, pos as int).len() ==> #[trigger] lines_from(
                    s@,
                    pos as int,
                )[i] == lines(s@)[out@.len() + i],
        decreases n - pos,
    {
        let start = pos;
        proof {
            lemma_first_char(s@, start as int, '\n');
        }
        while pos < n && s[pos] != '\n'
            invariant
                n == s@.len(),
                start <= pos <= n,
                first_char(s@, start as int, '\n') >= pos,
                start <= first_char(s@, start as int, '\n') <= n,
                first_char(s@, start as int, '\n') < n ==> s@[first_char(s@, start as int, '\n')] == '\n',
            decreases n - pos,
        {
            pos = pos + 1;
        }
        assert(pos == first_char(s@, start as int, '\n'));
        let ghost here = lines_from(s@, start as int);
        if pos >= n {
            assert(here == seq![s@.subrange(start as int, n as int)]);
            out.push((start, n));
            assert(here[0] == lines(s@)[out@.len() - 1]);
        } else {
            let mut end = pos;
            if end > start && s[end - 1] == '\r' {
                end = end - 1;
            }
            let ghost rest = lines_from(s@, pos + 1);
            assert(here == seq![strip_cr(s@.subrange(start as int, pos as int))].add(rest));
            assert(s@.subrange(start as int, end as int) == strip_cr(
                s@.subrange(start as int, pos as int),
            ));
            out.push((start, end));
            pos = pos + 1;
            assert forall|i: int| 0 <= i < rest.len() implies #[trigger] rest[i] == lines(
                s@,
            )[out@.len() + i] by {
                assert(here[i + 1] == rest[i]);
            }
            assert(here[0] == lines(s@)[out@.len() - 1]);
        }
    }
    out
}

/// `parts` joined by `sep`: `sep` between each two neighbours, none at the ends.
pub open spec fn joined(parts: Seq<Seq<char>>, sep: char) -> Seq<char>
    decreases parts.len(),
{
    if parts.len() == 0 {
        Seq::empty()
    } else if parts.len() == 1 {
        parts[0]
    } else {
        joined(parts.drop_last(), sep) + seq![sep] + parts.last()
    }
}

/// The characters of each string of `v`.
pub open spec fn texts(v: Seq<String>) -> Seq<Seq<char>> {
    v.map_values(|t: String| t@)
}

/// Every word is nonempty.
pub proof fn lemma_words_nonempty(s: Seq<char>, from: int)
    ensures
        forall|i: int| 0 <= i < words_from(s, from).len() ==> #[trigger] words_from(s, from)[i].len() > 0,
    decreases s.len() - from,
{
    if from >= s.len() || from < 0 {
    } else if white_space(s[from]) {
        lemma_words_nonempty(s, from + 1);
        assert(words_from(s, from) == words_from(s, from + 1));
    } else {
        let end = first_white(s, from);
        if end <= from || end > s.len() {
            assert(words_from(s, from).len() == 0);
        } else {
            lemma_words_nonempty(s, end);
            let w = words_from(s, from);
            assert(w == seq![s.subrange(from, end)].add(words_from(s, end)));
            assert forall|i: int| 0 <= i < w.len() implies #[trigger] w[i].len() > 0 by {
                if i > 0 {
                    assert(w[i] == words_from(s, end)[i - 1]);
                } else {
                    assert(w[0] == s.subrange(from, end));
                }
            }
        }
    }
}

/// The decimal digit of `d`, for `d < 10`.
pub open spec fn digit(d: int) -> char {
    if d == 0 { '0' } else if d == 1 { '1' } else if d == 2 { '2' } else if d == 3 { '3' }
    else if d == 4 { '4' } else if d == 5 { '5' } else if d == 6 { '6' } else if d == 7 { '7' }
    else if d == 8 { '8' } else { '9' }
}

/// The decimal numeral of `n`, without leading zeros.
pub open spec fn decimal(n: nat) -> Seq<char>
    decreases n,
{
    if n < 10 {
        seq![digit(n as int)]
    } else {
        decimal(n / 10) + seq![digit((n % 10) as int)]
    }
}

fn digit_text(d: u64) -> (r: &'static str)
    requires
        d < 10,
    ensures
        r@ == seq![digit(d as int)],
{
    proof {
        reveal_strlit("0");
        reveal_strlit("1");
        reveal_strlit("2");
        reveal_strlit("3");
        reveal_strlit("4");
        reveal_strlit("5");
        reveal_strlit("6");
        reveal_strlit("7");
        reveal_strlit("8");
        reveal_strlit("9");
    }
    if d == 0 { "0" } else if d == 1 { "1" } else if d == 2 { "2" } else if d == 3 { "3" }
    else if d == 4 { "4" } else if d == 5 { "5" } else if d == 6 { "6" } else if d == 7 { "7" }
    else if d == 8 { "8" } else { "9" }
}

/// Appends the decimal numeral of `n` to `out`.
pub fn push_decimal(out: &mut String, n: u64)
    ensures
        final(out)@ == old(out)@ + decimal(n as nat),
    decreases n,
{
    if n >= 10 {
        push_decimal(out, n / 10);
    }
    out.append(digit_text(n % 10));
}

/// Every line uses at least one character of the text.
pub proof fn lemma_lines_len(s: Seq<char>, from: int)
    requires
        0 <= from,
    ensures
        lines_from(s, from).len() <= if from <= s.len() { s.len() - from } else { 0 },
    decreases s.len() - from,
{
    if from < s.len() {
        lemma_first_char(s, from, '\n');
        let end = first_char(s, from, '\n');
        if end < s.len() {
            lemma_lines_len(s, end + 1);
        }
    }
}

/// No character of a word is white space.
pub proof fn lemma_words_not_white(s: Seq<char>, from: int)
    ensures
        forall|k: int, i: int|
            0 <= k < words_from(s, from).len() && 0 <= i < words_from(s, from)[k].len()
                ==> !white_space(#[trigger] words_from(s, from)[k][i]),
    decreases s.len() - from,
{
    if from >= s.len() || from < 0 {
    } else if white_space(s[from]) {
        lemma_words_not_white(s, from + 1);
        assert(words_from(s, from) == words_from(s, from + 1));
    } else {
        let end = first_white(s, from);
        lemma_first_white(s, from);
        if end > from && end <= s.len() {
            lemma_words_not_white(s, end);
            let w = words_from(s, from);
            assert(w == seq![s.subrange(from, end)].add(words_from(s, end)));
            assert forall|k: int, i: int| 0 <= k < w.len() && 0 <= i < w[k].len() implies !white_space(
                #[trigger] w[k][i],
            ) by {
                if k > 0 {
                    assert(w[k] == words_from(s, end)[k - 1]);
                } else {
                    assert(w[0][i] == s[from + i]);
                }
            }
        }
    }
}

/// A word holds no whitespace character: not a tab, a line feed, a vertical tab, a form
/// feed, a carriage return or a space, nor any of the other characters with the Unicode
/// `White_Space` property (next line, no-break space, Ogham space mark, the spaces from en
/// quad to hair space, line and paragraph separators, narrow no-break space, medium
/// mathematical space, ideographic space).
pub proof fn law_words_hold_no_white_space(s: Seq<char>, k: int, i: int)
    requires
        0 <= k < words(s).len(),
        0 <= i < words(s)[k].len(),
    ensures
        ({
            let c = words(s)[k][i];
            &&& c != '\t' && c != '\n' && c != '\u{B}' && c != '\u{C}' && c != '\r' && c != ' '
            &&& c != '\u{85}' && c != '\u{A0}' && c != '\u{1680}'
            &&& c != '\u{2000}' && c != '\u{2001}' && c != '\u{2002}' && c != '\u{2003}'
            &&& c != '\u{2004}' && c != '\u{2005}' && c != '\u{2006}' && c != '\u{2007}'
            &&& c != '\u{2008}' && c != '\u{2009}' && c != '\u{200A}'
            &&& c != '\u{2028}' && c != '\u{2029}' && c != '\u{202F}' && c != '\u{205F}'
            &&& c != '\u{3000}'
        }),
{
    lemma_words_not_white(s, 0);
    assert(!white_space(words(s)[k][i]));
}

/// A nonempty run of visible characters is a single word: printable ASCII other than the
/// space (`'!'` to `'~'`, punctuation such as `'-'` among them), Latin-1 letters and signs
/// from U+00A1, and every character from U+3001 on.
pub proof fn law_a_run_of_visible_characters_is_one_word(s: Seq<char>)
    requires
        s.len() > 0,
        forall|i: int|
            0 <= i < s.len() ==> ('!' <= #[trigger] s[i] <= '~') || ('\u{A1}' <= s[i] <= '\u{167F}')
                || '\u{3001}' <= s[i],
    ensures
        words(s) == seq![s],
{
    lemma_first_white(s, 0);
    assert forall|i: int| 0 <= i < s.len() implies !white_space(#[trigger] s[i]) by {}
    if first_white(s, 0) < s.len() {
        assert(white_space(s[first_white(s, 0)]));
        assert(false);
    }
    assert(first_white(s, 0) == s.len());
    assert(!white_space(s[0]));
    assert(words_from(s, s.len() as int) == Seq::<Seq<char>>::empty());
    assert(s.subrange(0, s.len() as int) == s);
    assert(words(s) == seq![s.subrange(0, s.len() as int)].add(words_from(s, s.len() as int)));
}

} // verus!
