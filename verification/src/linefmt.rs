//! Line-oriented text helpers for a terminal report.
//!
//! `wrap` breaks text into lines of at most `width` characters, at spaces. `indent` puts a
//! prefix in front of every line. `longest_line` and `count_words` are the two measurements
//! the report prints. Lengths count characters, not bytes.
use vstd::prelude::*;
use vstd::string::*;

use crate::text::{
    chars_of, joined, law_words_hold_no_white_space, lemma_words_nonempty, line_bounds, lines, texts,
    word_bounds, words,
};

verus! {

broadcast use vstd::string::group_string_axioms, vstd::seq_lib::group_seq_properties;

/// `groups` splits the words `ws` into the lines `out` the way `wrap` breaks them: each line
/// is one or more consecutive words joined by single spaces; a line of more than one word
/// fits in `width`; and the first word of each line would not have fit at the end of the line
/// before it.
pub open spec fn line_groups(
    groups: Seq<Seq<Seq<char>>>,
    ws: Seq<Seq<char>>,
    width: int,
    out: Seq<Seq<char>>,
) -> bool {
    &&& groups.flatten() == ws
    &&& groups.len() == out.len()
    &&& forall|i: int|
        0 <= i < groups.len() ==> {
            &&& (#[trigger] groups[i]).len() > 0
            &&& out[i] == joined(groups[i], ' ')
            &&& groups[i].len() > 1 ==> out[i].len() <= width
        }
    &&& forall|i: int|
        0 <= i < groups.len() - 1 ==> #[trigger] out[i].len() + 1 + groups[i + 1][0].len() > width
}

/// `out` is the wrapping of the words `ws` into lines of `width` characters.
pub open spec fn wraps(ws: Seq<Seq<char>>, width: int, out: Seq<Seq<char>>) -> bool {
    exists|groups: Seq<Seq<Seq<char>>>| line_groups(groups, ws, width, out)
}

/// Breaks `text` into lines of at most `width` characters, at spaces. Runs of whitespace
/// collapse to one space. A word longer than `width` stands on its own line.
pub fn wrap(text: &str, width: usize) -> (lines: Vec<String>)
    ensures
        wraps(words(text@), width as int, texts(lines@)),
{
    let chars = chars_of(text);
    let bounds = word_bounds(&chars);
    let ghost ws = words(text@);
    proof {
        lemma_words_nonempty(text@, 0);
        reveal_strlit(" ");
    }
    let mut lines: Vec<String> = Vec::new();
    let mut line = String::new();
    let mut line_len: usize = 0;
    let ghost mut done: Seq<Seq<Seq<char>>> = Seq::empty();
    let ghost mut cur: Seq<Seq<char>> = Seq::empty();
    let n = bounds.len();
    for k in 0..n
        invariant
            n == bounds@.len(),
            n == ws.len(),
            chars@ == text@,
            ws == words(text@),
            " "@ == seq![' '],
            forall|i: int| 0 <= i < ws.len() ==> #[trigger] ws[i].len() > 0,
            forall|i: int|
                0 <= i < bounds@.len() ==> {
                    &&& (#[trigger] bounds@[i]).0 < bounds@[i].1 <= chars@.len()
                    &&& chars@.subrange(bounds@[i].0 as int, bounds@[i].1 as int) == ws[i]
                },
            done.flatten() + cur == ws.take(k as int),
            lines@.len() == done.len(),
            forall|i: int|
                0 <= i < done.len() ==> {
                    &&& (#[trigger] done[i]).len() > 0
                    &&& lines@[i]@ == joined(done[i], ' ')
                    &&& done[i].len() > 1 ==> lines@[i]@.len() <= width
                },
            forall|i: int|
                0 <= i < done.len() - 1 ==> #[trigger] lines@[i]@.len() + 1 + done[i + 1][0].len()
                    > width,
            cur.len() > 0 && done.len() > 0 ==> lines@[done.len() - 1]@.len() + 1 + cur[0].len()
                > width,
            line@ == joined(cur, ' '),
            line_len == line@.len(),
            cur.len() > 1 ==> line_len <= width,
            cur.len() == 0 <==> line_len == 0,
            done.len() > 0 ==> cur.len() > 0,
    {
        let (s, e) = bounds[k];
        let word = text.substring_char(s, e);
        let wlen = e - s;
        assert(word@ == ws[k as int]);
        if line_len > 0 && line_len as u128 + 1 + wlen as u128 > width as u128 {
            proof {
                assert(cur.len() > 0);
                done.lemma_flatten_push(cur);
                assert(forall|i: int| 0 <= i < done.len() ==> #[trigger] done.push(cur)[i] == done[i]);
                done = done.push(cur);
                cur = Seq::empty();
            }
            lines.push(line);
            line = String::new();
            line_len = 0;
        }
        let ghost old_cur = cur;
        assert(wlen == ws[k as int].len());
        if line_len > 0 {
            line.append(" ");
            line_len = line_len + 1;
        }
        line.append(word);
        line_len = line_len + wlen;
        proof {
            cur = cur.push(ws[k as int]);
            assert(cur.drop_last() == old_cur);
            if old_cur.len() == 0 {
                assert(joined(cur, ' ') == ws[k as int]);
            }
            assert(ws.take(k + 1) == ws.take(k as int).push(ws[k as int]));
            assert(done.flatten() + cur == (done.flatten() + old_cur).push(ws[k as int]));
            if old_cur.len() > 0 {
                assert(cur[0] == old_cur[0]);
            }
        }
    }
    if line_len > 0 {
        proof {
            done.lemma_flatten_push(cur);
            assert(forall|i: int| 0 <= i < done.len() ==> #[trigger] done.push(cur)[i] == done[i]);
            done = done.push(cur);
            cur = Seq::empty();
        }
        lines.push(line);
    }
    proof {
        assert(ws.take(n as int) == ws);
        assert(done.flatten() + cur == done.flatten());
        assert(line_groups(done, ws, width as int, texts(lines@)));
    }
    lines
}

/// Each line of `ls` with `prefix` in front.
pub open spec fn prefixed(ls: Seq<Seq<char>>, prefix: Seq<char>) -> Seq<Seq<char>> {
    ls.map_values(|l: Seq<char>| prefix + l)
}

/// Puts `prefix` in front of every line of `text`. An empty `text` stays empty.
pub fn indent(text: &str, prefix: &str) -> (r: String)
    ensures
        r@ == joined(prefixed(lines(text@), prefix@), '\n'),
{
    let chars = chars_of(text);
    let bounds = line_bounds(&chars);
    let ghost ls = lines(text@);
    let ghost parts = prefixed(ls, prefix@);
    proof {
        reveal_strlit("\n");
    }
    let mut out = String::new();
    let n = bounds.len();
    for k in 0..n
        invariant
            n == bounds@.len(),
            n == ls.len(),
            chars@ == text@,
            ls == lines(text@),
            parts == prefixed(ls, prefix@),
            "\n"@ == seq!['\n'],
            forall|i: int|
                0 <= i < bounds@.len() ==> {
                    &&& (#[trigger] bounds@[i]).0 <= bounds@[i].1 <= chars@.len()
                    &&& chars@.subrange(bounds@[i].0 as int, bounds@[i].1 as int) == ls[i]
                },
            out@ == joined(parts.take(k as int), '\n'),
    {
        let (s, e) = bounds[k];
        let line = text.substring_char(s, e);
        let ghost before = out@;
        if k > 0 {
            out.append("\n");
        }
        out.append(prefix);
        out.append(line);
        proof {
            assert(parts.take(k + 1).drop_last() == parts.take(k as int));
            assert(parts.take(k + 1).last() == prefix@ + ls[k as int]);
            if k == 0 {
                assert(out@ == prefix@ + ls[0]);
            }
        }
    }
    proof {
        assert(parts.take(n as int) == parts);
    }
    out
}

/// The first line of `text` with the most characters, or `None` when `text` is empty.
pub fn longest_line(text: &str) -> (r: Option<&str>)
    ensures
        r is None <==> lines(text@).len() == 0,
        r matches Some(l) ==> exists|k: int|
            0 <= k < lines(text@).len() && l@ == lines(text@)[k] && (forall|j: int|
                0 <= j < lines(text@).len() ==> #[trigger] lines(text@)[j].len() <= l@.len())
                && (forall|j: int| 0 <= j < k ==> #[trigger] lines(text@)[j].len() < l@.len()),
{
    let chars = chars_of(text);
    let bounds = line_bounds(&chars);
    let ghost ls = lines(text@);
    let n = bounds.len();
    if n == 0 {
        return None;
    }
    let mut best: usize = 0;
    let mut best_len: usize = bounds[0].1 - bounds[0].0;
    for k in 1..n
        invariant
            n == bounds@.len(),
            n == ls.len(),
            chars@ == text@,
            ls == lines(text@),
            forall|i: int|
                0 <= i < bounds@.len() ==> {
                    &&& (#[trigger] bounds@[i]).0 <= bounds@[i].1 <= chars@.len()
                    &&& chars@.subrange(bounds@[i].0 as int, bounds@[i].1 as int) == ls[i]
                },
            best < k,
            best_len == ls[best as int].len(),
            forall|j: int| 0 <= j < k ==> #[trigger] ls[j].len() <= best_len,
            forall|j: int| 0 <= j < best ==> #[trigger] ls[j].len() < best_len,
    {
        // A strict comparison keeps the first of two lines with the same length.
        let len = bounds[k].1 - bounds[k].0;
        assert(len == ls[k as int].len());
        if len > best_len {
            best = k;
            best_len = len;
        }
    }
    let (s, e) = bounds[best];
    Some(text.substring_char(s, e))
}

/// How many whitespace-separated words `text` holds.
pub fn count_words(text: &str) -> (n: usize)
    ensures
        n == words(text@).len(),
{
    let chars = chars_of(text);
    word_bounds(&chars).len()
}

/// The characters of the parts of `parts` joined by `sep` include those of each part.
proof fn lemma_joined_len(parts: Seq<Seq<char>>, sep: char, i: int)
    requires
        0 <= i < parts.len(),
    ensures
        joined(parts, sep).len() >= parts[i].len(),
    decreases parts.len(),
{
    if parts.len() > 1 && i < parts.len() - 1 {
        lemma_joined_len(parts.drop_last(), sep, i);
    }
}

/// Every word of the flattened groups is in one of the groups.
proof fn lemma_flatten_index(groups: Seq<Seq<Seq<char>>>, k: int)
    requires
        0 <= k < groups.flatten().len(),
    ensures
        exists|i: int, j: int|
            0 <= i < groups.len() && 0 <= j < groups[i].len() && #[trigger] groups[i][j]
                == groups.flatten()[k],
    decreases groups.len(),
{
    assert(groups.len() > 0);
    let rest = groups.drop_first();
    assert(groups.flatten() == groups[0] + rest.flatten());
    if k < groups[0].len() {
        assert(groups[0][k] == groups.flatten()[k]);
    } else {
        let k2 = k - groups[0].len();
        lemma_flatten_index(rest, k2);
        let (i, j) = choose|i: int, j: int|
            0 <= i < rest.len() && 0 <= j < rest[i].len() && #[trigger] rest[i][j]
                == rest.flatten()[k2];
        assert(groups[i + 1] == rest[i]);
        assert(groups[i + 1][j] == groups.flatten()[k]);
    }
}

/// A word longer than the width stands on its own line: the wrapping has a line that is
/// that word and nothing else.
pub proof fn law_long_word_stands_alone(
    ws: Seq<Seq<char>>,
    width: int,
    out: Seq<Seq<char>>,
    k: int,
)
    requires
        wraps(ws, width, out),
        0 <= k < ws.len(),
        ws[k].len() > width,
    ensures
        exists|i: int| 0 <= i < out.len() && #[trigger] out[i] == ws[k],
{
    let groups = choose|g: Seq<Seq<Seq<char>>>| line_groups(g, ws, width, out);
    lemma_flatten_index(groups, k);
    let (i, j) = choose|i: int, j: int|
        0 <= i < groups.len() && 0 <= j < groups[i].len() && #[trigger] groups[i][j]
            == groups.flatten()[k];
    lemma_joined_len(groups[i], ' ', j);
    assert(groups[i].len() == 1);
    assert(out[i] == ws[k]);
}

/// Joining one more part adds a separator and that part.
proof fn lemma_joined_take(parts: Seq<Seq<char>>, sep: char, a: int)
    requires
        1 <= a < parts.len(),
    ensures
        joined(parts.take(a + 1), sep).len() == joined(parts.take(a), sep).len() + 1
            + parts[a].len(),
{
    assert(parts.take(a + 1).drop_last() == parts.take(a));
    assert(parts.take(a + 1).last() == parts[a]);
}

/// Joining more of the parts never gives fewer characters.
proof fn lemma_joined_take_grows(parts: Seq<Seq<char>>, sep: char, a: int, b: int)
    requires
        1 <= a <= b <= parts.len(),
    ensures
        joined(parts.take(a), sep).len() <= joined(parts.take(b), sep).len(),
    decreases b - a,
{
    if a < b {
        lemma_joined_take(parts, sep, a);
        lemma_joined_take_grows(parts, sep, a + 1, b);
    }
}

/// The groups of a wrapping, after the first line, wrap the words that follow that line.
proof fn lemma_line_groups_rest(
    groups: Seq<Seq<Seq<char>>>,
    ws: Seq<Seq<char>>,
    width: int,
    out: Seq<Seq<char>>,
)
    requires
        line_groups(groups, ws, width, out),
        groups.len() > 0,
    ensures
        groups[0] == ws.take(groups[0].len() as int),
        line_groups(
            groups.drop_first(),
            ws.skip(groups[0].len() as int),
            width,
            out.drop_first(),
        ),
{
    let a = groups[0].len() as int;
    assert(groups.flatten() == groups[0] + groups.drop_first().flatten());
    assert(groups[0] == ws.take(a));
    assert(groups.drop_first().flatten() == ws.skip(a));
    let (g, o) = (groups.drop_first(), out.drop_first());
    assert forall|i: int| 0 <= i < g.len() implies {
        &&& (#[trigger] g[i]).len() > 0
        &&& o[i] == joined(g[i], ' ')
        &&& g[i].len() > 1 ==> o[i].len() <= width
    } by {
        assert(g[i] == groups[i + 1]);
        assert(o[i] == out[i + 1]);
    }
    assert forall|i: int| 0 <= i < g.len() - 1 implies #[trigger] o[i].len() + 1 + g[i + 1][0].len()
        > width by {
        assert(o[i] == out[i + 1]);
        assert(g[i + 1] == groups[i + 2]);
        assert(out[i + 1].len() + 1 + groups[i + 2][0].len() > width);
    }
}

/// The first line of a wrapping is never shorter, in words, than that of another wrapping of
/// the same words.
proof fn lemma_first_line_is_longest(
    g1: Seq<Seq<Seq<char>>>,
    g2: Seq<Seq<Seq<char>>>,
    ws: Seq<Seq<char>>,
    width: int,
    out1: Seq<Seq<char>>,
    out2: Seq<Seq<char>>,
)
    requires
        line_groups(g1, ws, width, out1),
        line_groups(g2, ws, width, out2),
        g1.len() > 0,
        g2.len() > 0,
    ensures
        g1[0].len() >= g2[0].len(),
{
    let a = g1[0].len() as int;
    let b = g2[0].len() as int;
    lemma_line_groups_rest(g1, ws, width, out1);
    lemma_line_groups_rest(g2, ws, width, out2);
    if a < b {
        assert(ws.len() >= b) by {
            assert(g2.flatten() == g2[0] + g2.drop_first().flatten());
        }
        // The first line of g1 ends before the end of the words, so a second line follows.
        assert(g1.flatten() == g1[0] + g1.drop_first().flatten());
        assert(g1.drop_first().flatten().len() > 0);
        assert(g1.len() > 1);
        let rest = g1.drop_first();
        assert(rest.flatten() == rest[0] + rest.drop_first().flatten());
        assert(rest[0].len() > 0) by {
            assert(rest[0] == g1[1]);
        }
        assert(g1[1][0] == ws[a]) by {
            assert(rest.flatten()[0] == rest[0][0]);
            assert(ws.skip(a)[0] == ws[a]);
        }
        assert(out1[0].len() + 1 + g1[1][0].len() > width);
        assert(out1[0] == joined(ws.take(a), ' '));
        assert(out2[0] == joined(ws.take(b), ' '));
        lemma_joined_take(ws, ' ', a);
        lemma_joined_take_grows(ws, ' ', a + 1, b);
        assert(g2[0].len() > 1);
        assert(false);
    }
}

/// Two wrappings of the same words into the same width group them the same way.
proof fn lemma_line_groups_unique(
    g1: Seq<Seq<Seq<char>>>,
    g2: Seq<Seq<Seq<char>>>,
    ws: Seq<Seq<char>>,
    width: int,
    out1: Seq<Seq<char>>,
    out2: Seq<Seq<char>>,
)
    requires
        line_groups(g1, ws, width, out1),
        line_groups(g2, ws, width, out2),
    ensures
        g1 == g2,
    decreases ws.len(),
{
    if g1.len() == 0 || g2.len() == 0 {
        assert(g1.len() == 0 && g2.len() == 0) by {
            if g1.len() > 0 {
                assert(g1.flatten() == g1[0] + g1.drop_first().flatten());
                assert(g1[0].len() > 0);
            }
            if g2.len() > 0 {
                assert(g2.flatten() == g2[0] + g2.drop_first().flatten());
                assert(g2[0].len() > 0);
            }
        }
        assert(g1 =~= g2);
    } else {
        let a = g1[0].len() as int;
        assert(g1[0].len() == g2[0].len()) by {
            lemma_first_line_is_longest(g1, g2, ws, width, out1, out2);
            lemma_first_line_is_longest(g2, g1, ws, width, out2, out1);
        }
        assert({
            &&& g1[0] == g2[0]
            &&& line_groups(g1.drop_first(), ws.skip(a), width, out1.drop_first())
            &&& line_groups(g2.drop_first(), ws.skip(a), width, out2.drop_first())
        }) by {
            lemma_line_groups_rest(g1, ws, width, out1);
            lemma_line_groups_rest(g2, ws, width, out2);
        }
        assert(ws.skip(a).len() < ws.len()) by {
            assert(g1.flatten() == g1[0] + g1.drop_first().flatten());
            assert(g1[0].len() > 0);
        }
        lemma_line_groups_unique(
            g1.drop_first(),
            g2.drop_first(),
            ws.skip(a),
            width,
            out1.drop_first(),
            out2.drop_first(),
        );
        assert(g1 =~= g2) by {
            assert(g1 =~= seq![g1[0]] + g1.drop_first());
            assert(g2 =~= seq![g2[0]] + g2.drop_first());
        }
    }
}

/// The wrapping of a text is determined: two results that both meet `wrap`'s contract for
/// the same words and width are the same lines.
pub proof fn law_wrap_is_determined(
    ws: Seq<Seq<char>>,
    width: int,
    out1: Seq<Seq<char>>,
    out2: Seq<Seq<char>>,
)
    requires
        wraps(ws, width, out1),
        wraps(ws, width, out2),
    ensures
        out1 == out2,
{
    let g1 = choose|g: Seq<Seq<Seq<char>>>| line_groups(g, ws, width, out1);
    let g2 = choose|g: Seq<Seq<Seq<char>>>| line_groups(g, ws, width, out2);
    lemma_line_groups_unique(g1, g2, ws, width, out1, out2);
    assert(out1 =~= out2) by {
        assert forall|i: int| 0 <= i < out1.len() implies out1[i] == out2[i] by {
            assert(out1[i] == joined(g1[i], ' '));
            assert(out2[i] == joined(g2[i], ' '));
        }
    }
}

/// Every word of every group is in the flattened groups.
proof fn lemma_in_flatten(groups: Seq<Seq<Seq<char>>>, i: int, j: int)
    requires
        0 <= i < groups.len(),
        0 <= j < groups[i].len(),
    ensures
        exists|k: int| 0 <= k < groups.flatten().len() && #[trigger] groups.flatten()[k] == groups[i][j],
    decreases groups.len(),
{
    let rest = groups.drop_first();
    assert(groups.flatten() == groups[0] + rest.flatten());
    if i == 0 {
        assert(groups.flatten()[j] == groups[0][j]);
    } else {
        assert(rest[i - 1] == groups[i]);
        lemma_in_flatten(rest, i - 1, j);
        let k = choose|k: int| 0 <= k < rest.flatten().len() && #[trigger] rest.flatten()[k] == rest[i - 1][j];
        assert(groups.flatten()[groups[0].len() + k] == groups[i][j]);
    }
}

/// A line longer than the width is a single word of the text: every line of more than one
/// word fits.
pub proof fn law_only_a_single_word_overflows(
    ws: Seq<Seq<char>>,
    width: int,
    out: Seq<Seq<char>>,
    i: int,
)
    requires
        wraps(ws, width, out),
        0 <= i < out.len(),
        out[i].len() > width,
    ensures
        exists|k: int| 0 <= k < ws.len() && #[trigger] ws[k] == out[i],
{
    let groups = choose|g: Seq<Seq<Seq<char>>>| line_groups(g, ws, width, out);
    assert(groups[i].len() == 1);
    assert(out[i] == groups[i][0]);
    lemma_in_flatten(groups, i, 0);
}

/// Each character of parts joined by `sep` is `sep` or a character of one of the parts.
proof fn lemma_joined_char(parts: Seq<Seq<char>>, sep: char, j: int)
    requires
        0 <= j < joined(parts, sep).len(),
    ensures
        joined(parts, sep)[j] == sep || exists|k: int, m: int|
            0 <= k < parts.len() && 0 <= m < parts[k].len() && #[trigger] parts[k][m]
                == joined(parts, sep)[j],
    decreases parts.len(),
{
    if parts.len() == 1 {
        assert(parts[0][j] == joined(parts, sep)[j]);
    } else if parts.len() > 1 {
        let front = joined(parts.drop_last(), sep);
        let last = parts.len() - 1;
        assert(joined(parts, sep) == front + seq![sep] + parts.last());
        if j < front.len() {
            lemma_joined_char(parts.drop_last(), sep, j);
            if joined(parts, sep)[j] != sep {
                let (k, m) = choose|k: int, m: int|
                    0 <= k < parts.drop_last().len() && 0 <= m < parts.drop_last()[k].len()
                        && #[trigger] parts.drop_last()[k][m] == front[j];
                assert(parts[k][m] == joined(parts, sep)[j]);
            }
        } else if j > front.len() {
            assert(parts[last][j - front.len() - 1] == joined(parts, sep)[j]);
        }
    }
}

/// The lines of a wrapped text break only at spaces: no line holds a tab, a line feed, a
/// vertical tab, a form feed, a carriage return, a next-line character or a line or
/// paragraph separator, whatever the text held. Runs of whitespace become single spaces.
pub proof fn law_wrapped_lines_hold_no_line_breaks(
    text: Seq<char>,
    width: int,
    out: Seq<Seq<char>>,
    i: int,
    j: int,
)
    requires
        wraps(words(text), width, out),
        0 <= i < out.len(),
        0 <= j < out[i].len(),
    ensures
        ({
            let c = out[i][j];
            &&& c != '\t' && c != '\n' && c != '\u{B}' && c != '\u{C}' && c != '\r'
            &&& c != '\u{85}' && c != '\u{2028}' && c != '\u{2029}'
        }),
{
    let ws = words(text);
    let groups = choose|g: Seq<Seq<Seq<char>>>| line_groups(g, ws, width, out);
    assert(out[i] == joined(groups[i], ' '));
    lemma_joined_char(groups[i], ' ', j);
    if out[i][j] != ' ' {
        let (k, m) = choose|k: int, m: int|
            0 <= k < groups[i].len() && 0 <= m < groups[i][k].len() && #[trigger] groups[i][k][m]
                == out[i][j];
        lemma_in_flatten(groups, i, k);
        let w = choose|w: int| 0 <= w < groups.flatten().len() && #[trigger] groups.flatten()[w]
            == groups[i][k];
        law_words_hold_no_white_space(text, w, m);
    }
}

} // verus!
