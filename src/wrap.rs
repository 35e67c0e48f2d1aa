use vstd::prelude::*;

verus! {

/// Whether `c` carries the Unicode `White_Space` property.
pub open spec fn is_ws(c: char) -> bool {
    let u = c as u32;
    (0x9 <= u && u <= 0xd) || u == 0x20 || u == 0x85 || u == 0xa0 || u == 0x1680
        || (0x2000 <= u && u <= 0x200a) || u == 0x2028 || u == 0x2029 || u == 0x202f
        || u == 0x205f || u == 0x3000
}

/// Executable test for whitespace, agreeing with `char::is_whitespace`.
pub fn is_whitespace(c: char) -> (r: bool)
    ensures
        r == is_ws(c),
{
    let u = c as u32;
    (0x9 <= u && u <= 0xd) || u == 0x20 || u == 0x85 || u == 0xa0 || u == 0x1680
        || (0x2000 <= u && u <= 0x200a) || u == 0x2028 || u == 0x2029 || u == 0x202f
        || u == 0x205f || u == 0x3000
}


/// The words of `s`: its maximal runs of non-whitespace characters, in order.
pub open spec fn words(s: Seq<char>) -> Seq<Seq<char>>
    decreases s.len(),
{
    if s.len() == 0 {
        seq![]
    } else {
        let p = s.drop_last();
        let c = s.last();
        let ws = words(p);
        if is_ws(c) {
            ws
        } else if p.len() > 0 && !is_ws(p.last()) {
            ws.drop_last().push(ws.last().push(c))
        } else {
            ws.push(seq![c])
        }
    }
}

/// The pieces of `ls` joined with a single space between neighbours.
pub open spec fn join(ls: Seq<Seq<char>>) -> Seq<char>
    decreases ls.len(),
{
    if ls.len() == 0 {
        seq![]
    } else if ls.len() == 1 {
        ls[0]
    } else {
        join(ls.drop_last()) + seq![' '] + ls.last()
    }
}

/// A word as `words` produces it: non-empty and free of whitespace.
pub open spec fn is_word(w: Seq<char>) -> bool {
    w.len() > 0 && forall|j: int| 0 <= j < w.len() ==> !is_ws(#[trigger] w[j])
}

/// Every element of `ws` is a word.
pub open spec fn all_words(ws: Seq<Seq<char>>) -> bool {
    forall|k: int| 0 <= k < ws.len() ==> is_word(#[trigger] ws[k])
}

/// Greedy packing of `ws` into lines of at most `max` characters, as the
/// pair (closed lines, line still open) after the last word.
pub open spec fn pack_state(ws: Seq<Seq<char>>, max: nat) -> (Seq<Seq<char>>, Seq<char>)
    decreases ws.len(),
{
    if ws.len() == 0 {
        (seq![], seq![])
    } else {
        let (ls, cur) = pack_state(ws.drop_last(), max);
        let w = ws.last();
        if cur.len() == 0 {
            (ls, w)
        } else if cur.len() + 1 + w.len() <= max {
            (ls, cur + seq![' '] + w)
        } else {
            (ls.push(cur), w)
        }
    }
}

/// Greedy packing: a word joins the current line when the line, a space and
/// the word stay within `max`; otherwise it opens a new line, however long.
pub open spec fn pack(ws: Seq<Seq<char>>, max: nat) -> Seq<Seq<char>> {
    let (ls, cur) = pack_state(ws, max);
    if cur.len() == 0 {
        ls
    } else {
        ls.push(cur)
    }
}

/// The lines that `text` wraps into when a line holds at most `max` characters.
pub open spec fn wrap_lines(text: Seq<char>, max: nat) -> Seq<Seq<char>> {
    if text.len() <= max {
        seq![text]
    } else {
        let ls = pack(words(text), max);
        if ls.len() == 0 {
            seq![text]
        } else {
            ls
        }
    }
}

proof fn lemma_join_push(xs: Seq<Seq<char>>, y: Seq<char>)
    ensures
        join(xs.push(y)) == if xs.len() == 0 {
            y
        } else {
            join(xs) + seq![' '] + y
        },
{
    assert(xs.push(y).drop_last() =~= xs);
}

proof fn lemma_words_valid(s: Seq<char>)
    ensures
        all_words(words(s)),
        s.len() > 0 && !is_ws(s.last()) ==> words(s).len() > 0,
    decreases s.len(),
{
    if s.len() > 0 {
        lemma_words_valid(s.drop_last());
        let p = s.drop_last();
        let ws = words(p);
        let c = s.last();
        if !is_ws(c) {
            if p.len() > 0 && !is_ws(p.last()) {
                let w = ws.last().push(c);
                assert(is_word(w)) by {
                    assert(is_word(ws[ws.len() - 1]));
                    assert forall|j: int| 0 <= j < w.len() implies !is_ws(#[trigger] w[j]) by {
                        if j < w.len() - 1 {
                            assert(w[j] == ws[ws.len() - 1][j]);
                        }
                    }
                }
                let r = ws.drop_last().push(w);
                assert forall|k: int| 0 <= k < r.len() implies is_word(#[trigger] r[k]) by {
                    if k < r.len() - 1 {
                        assert(r[k] == ws[k]);
                    }
                }
            } else {
                let r = ws.push(seq![c]);
                assert(is_word(seq![c]));
                assert forall|k: int| 0 <= k < r.len() implies is_word(#[trigger] r[k]) by {
                    if k < r.len() - 1 {
                        assert(r[k] == ws[k]);
                    }
                }
            }
        }
    }
}

proof fn lemma_words_append(a: Seq<char>, w: Seq<char>)
    requires
        is_word(w),
        a.len() == 0 || is_ws(a.last()),
    ensures
        words(a + w) == words(a).push(w),
    decreases w.len(),
{
    let s = a + w;
    let c = w.last();
    assert(!is_ws(w[w.len() - 1]));
    if w.len() == 1 {
        assert(s.drop_last() =~= a);
        assert(seq![c] =~= w);
    } else {
        let v = w.drop_last();
        assert(is_word(v)) by {
            assert forall|j: int| 0 <= j < v.len() implies !is_ws(#[trigger] v[j]) by {
                assert(v[j] == w[j]);
            }
        }
        lemma_words_append(a, v);
        assert(s.drop_last() =~= a + v);
        assert(!is_ws(w[w.len() - 2]));
        assert((a + v).last() == w[w.len() - 2]);
        assert(v.push(c) =~= w);
        assert(words(a).push(v).drop_last() =~= words(a));
    }
}

proof fn lemma_words_join(ws: Seq<Seq<char>>)
    requires
        all_words(ws),
    ensures
        words(join(ws)) == ws,
    decreases ws.len(),
{
    if ws.len() == 1 {
        assert(is_word(ws[0]));
        lemma_words_append(seq![], ws[0]);
        assert(seq![] + ws[0] =~= ws[0]);
        assert(seq![ws[0]] =~= ws);
    } else if ws.len() > 1 {
        let prev = ws.drop_last();
        assert forall|k: int| 0 <= k < prev.len() implies is_word(#[trigger] prev[k]) by {
            assert(prev[k] == ws[k]);
        }
        lemma_words_join(prev);
        let a = join(prev) + seq![' '];
        assert(a.drop_last() =~= join(prev));
        assert(is_ws(a.last()));
        assert(is_word(ws[ws.len() - 1]));
        lemma_words_append(a, ws.last());
        assert(prev.push(ws.last()) =~= ws);
    }
}

proof fn lemma_join_nonempty(ws: Seq<Seq<char>>)
    requires
        all_words(ws),
        ws.len() > 0,
    ensures
        join(ws).len() > 0,
    decreases ws.len(),
{
    assert(is_word(ws[ws.len() - 1]));
    if ws.len() == 1 {
        assert(is_word(ws[0]));
    }
}

proof fn lemma_pack_state(ws: Seq<Seq<char>>, max: nat)
    requires
        all_words(ws),
    ensures
        ws.len() == 0 ==> pack_state(ws, max).0.len() == 0 && pack_state(ws, max).1.len() == 0,
        ws.len() > 0 ==> pack_state(ws, max).1.len() > 0,
        ws.len() > 0 ==> join(pack_state(ws, max).0.push(pack_state(ws, max).1)) == join(ws),
        forall|k: int|
            0 <= k < pack_state(ws, max).0.len() ==> (#[trigger] pack_state(ws, max).0[k]).len()
                > 0,
    decreases ws.len(),
{
    if ws.len() > 0 {
        let prev = ws.drop_last();
        assert forall|k: int| 0 <= k < prev.len() implies is_word(#[trigger] prev[k]) by {
            assert(prev[k] == ws[k]);
        }
        lemma_pack_state(prev, max);
        let (ls, cur) = pack_state(prev, max);
        let w = ws.last();
        assert(is_word(ws[ws.len() - 1]));
        if cur.len() == 0 {
            lemma_join_push(ls, w);
            assert(seq![w] =~= ws);
        } else {
            lemma_join_push(ls, cur);
            lemma_join_push(prev, w);
            assert(prev.push(w) =~= ws);
            if cur.len() + 1 + w.len() <= max {
                lemma_join_push(ls, cur + seq![' '] + w);
                if ls.len() > 0 {
                    assert(join(ls) + seq![' '] + (cur + seq![' '] + w) =~= (join(ls) + seq![' ']
                        + cur) + seq![' '] + w);
                }
            } else {
                lemma_join_push(ls.push(cur), w);
                let l2 = ls.push(cur);
                assert forall|k: int| 0 <= k < l2.len() implies (#[trigger] l2[k]).len() > 0 by {
                    if k < ls.len() {
                        assert(l2[k] == ls[k]);
                    }
                }
            }
        }
    }
}

proof fn lemma_pack_fits(ws: Seq<Seq<char>>, max: nat)
    requires
        all_words(ws),
        ws.len() > 0,
        join(ws).len() <= max,
    ensures
        pack_state(ws, max) == (Seq::<Seq<char>>::empty(), join(ws)),
    decreases ws.len(),
{
    let prev = ws.drop_last();
    assert forall|k: int| 0 <= k < prev.len() implies is_word(#[trigger] prev[k]) by {
        assert(prev[k] == ws[k]);
    }
    if prev.len() == 0 {
        assert(ws.len() == 1);
        assert(pack_state(prev, max) == (Seq::<Seq<char>>::empty(), Seq::<char>::empty()));
        assert(pack_state(ws, max) == (Seq::<Seq<char>>::empty(), ws.last()));
    } else {
        lemma_join_push(prev, ws.last());
        assert(prev.push(ws.last()) =~= ws);
        lemma_pack_fits(prev, max);
        lemma_join_nonempty(prev);
        assert(pack_state(ws, max) == (Seq::<Seq<char>>::empty(), join(prev) + seq![' '] + ws.last()));
    }
}

/// Wrapping is a stable point: the wrapped lines, joined with single spaces
/// and wrapped again under the same limit, give back the same lines.
pub proof fn lemma_wrap_stable(text: Seq<char>, max: nat)
    ensures
        wrap_lines(join(wrap_lines(text, max)), max) == wrap_lines(text, max),
{
    if text.len() > max {
        let ws = words(text);
        lemma_words_valid(text);
        lemma_pack_state(ws, max);
        let p = pack(ws, max);
        if p.len() > 0 {
            assert(ws.len() > 0);
            let j = join(ws);
            assert(join(p) == j);
            lemma_words_join(ws);
            if j.len() <= max {
                lemma_pack_fits(ws, max);
                assert(p == seq![j]);
            }
        }
    }
}

/// Wrapping always yields at least one line, and never splits, drops or
/// reorders a word: the lines, joined with spaces, hold exactly the words of
/// the text.
pub proof fn lemma_wrap_keeps_words(text: Seq<char>, max: nat)
    ensures
        wrap_lines(text, max).len() >= 1,
        words(join(wrap_lines(text, max))) == words(text),
{
    if text.len() > max {
        let ws = words(text);
        lemma_words_valid(text);
        lemma_pack_state(ws, max);
        if pack(ws, max).len() > 0 {
            lemma_words_join(ws);
        }
    }
}

/// The substrings of `text` that the character spans `sp` cover.
pub open spec fn spans_view(text: Seq<char>, sp: Seq<(usize, usize)>) -> Seq<Seq<char>> {
    Seq::new(sp.len(), |k: int| text.subrange(sp[k].0 as int, sp[k].1 as int))
}

/// The characters of `text`, in order.
fn chars_of(text: &str) -> (r: Vec<char>)
    ensures
        r@ == text@,
{
    broadcast use vstd::string::axiom_spec_iter;

    let mut r: Vec<char> = Vec::new();
    for c in it: text.chars()
        invariant
            it.seq() == text@,
            r@ == it.seq().take(it.index() as int),
    {
        r.push(c);
        assert(r@ =~= it.seq().take(it.index() + 1));
    }
    assert(r@ =~= text@);
    r
}

/// The character spans of the words of `text`, in order.
fn word_spans(text: &str) -> (r: Vec<(usize, usize)>)
    ensures
        spans_view(text@, r@) == words(text@),
        forall|k: int| 0 <= k < r@.len() ==> #[trigger] r@[k].0 <= r@[k].1 <= text@.len(),
{
    let cs = chars_of(text);
    let n = cs.len();
    let mut spans: Vec<(usize, usize)> = Vec::new();
    let mut in_word = false;
    let mut start: usize = 0;
    let mut i: usize = 0;
    while i < n
        invariant
            cs@ == text@,
            n == text@.len(),
            i <= n,
            in_word <==> (i > 0 && !is_ws(text@[i - 1])),
            in_word ==> start < i,
            forall|k: int| 0 <= k < spans@.len() ==> #[trigger] spans@[k].0 <= spans@[k].1 <= i,
            words(text@.take(i as int)) == if in_word {
                spans_view(text@, spans@).push(text@.subrange(start as int, i as int))
            } else {
                spans_view(text@, spans@)
            },
        decreases n - i,
    {
        let c = cs[i];
        let ghost old_view = spans_view(text@, spans@);
        proof {
            assert(text@.take(i + 1).drop_last() =~= text@.take(i as int));
            assert(text@.take(i + 1).last() == c);
        }
        if is_whitespace(c) {
            if in_word {
                let ghost old_spans = spans@;
                spans.push((start, i));
                in_word = false;
                assert forall|k: int| 0 <= k < spans@.len() implies #[trigger] spans@[k].0
                    <= spans@[k].1 <= i by {
                    if k < old_spans.len() {
                        assert(spans@[k] == old_spans[k]);
                    }
                }
                assert(spans_view(text@, spans@) =~= old_view.push(
                    text@.subrange(start as int, i as int),
                ));
            }
        } else if in_word {
            assert(text@.subrange(start as int, i as int).push(c) =~= text@.subrange(
                start as int,
                i + 1,
            ));
        } else {
            start = i;
            in_word = true;
            assert(text@.subrange(i as int, i + 1) =~= seq![c]);
        }
        i += 1;
    }
    if in_word {
        let ghost old_view = spans_view(text@, spans@);
        spans.push((start, n));
        assert(spans_view(text@, spans@) =~= old_view.push(text@.subrange(start as int, n as int)));
    }
    assert(text@.take(n as int) =~= text@);
    spans
}

/// Wraps `text` into lines of at most `max_chars` characters: the text itself
/// when it fits, else its words packed greedily; a word longer than the
/// limit stands alone on its line.
pub fn wrap_to_width(text: &str, max_chars: usize) -> (r: Vec<String>)
    ensures
        r.deep_view() == wrap_lines(text@, max_chars as nat),
{
    let n = text.unicode_len();
    if n <= max_chars {
        let mut r: Vec<String> = Vec::new();
        r.push(String::from_str(text));
        assert(r.deep_view() =~= seq![text@]);
        return r;
    }
    let spans = word_spans(text);
    let ghost ws = words(text@);
    let ghost max = max_chars as nat;
    let mut lines: Vec<String> = Vec::new();
    let mut cur = String::new();
    let mut cur_len: usize = 0;
    let mut k: usize = 0;
    proof {
        lemma_words_valid(text@);
        reveal_strlit(" ");
        assert(ws.take(0) =~= Seq::<Seq<char>>::empty());
        assert(lines.deep_view() =~= Seq::<Seq<char>>::empty());
    }
    while k < spans.len()
        invariant
            spans_view(text@, spans@) == ws,
            forall|j: int| 0 <= j < spans@.len() ==> #[trigger] spans@[j].0 <= spans@[j].1 <= text@.len(),
            max == max_chars as nat,
            k <= spans.len(),
            " "@ == seq![' '],
            (lines.deep_view(), cur@) == pack_state(ws.take(k as int), max),
            cur_len == cur@.len(),
        decreases spans.len() - k,
    {
        let (s, e) = spans[k];
        let word = text.substring_char(s, e);
        let wlen = e - s;
        proof {
            assert(ws.take(k + 1).drop_last() =~= ws.take(k as int));
            assert(ws[k as int] == word@);
        }
        let ghost old_lines = lines.deep_view();
        if cur_len == 0 {
            cur = String::from_str(word);
            cur_len = wlen;
        } else if cur_len < max_chars && wlen <= max_chars - 1 - cur_len {
            cur.append(" ");
            cur.append(word);
            cur_len = cur_len + 1 + wlen;
        } else {
            let ghost closed = cur@;
            lines.push(cur);
            assert(lines.deep_view() =~= old_lines.push(closed));
            cur = String::from_str(word);
            cur_len = wlen;
        }
        k += 1;
    }
    assert(ws.take(spans.len() as int) =~= ws);
    if cur_len > 0 {
        let ghost old_lines = lines.deep_view();
        let ghost closed = cur@;
        lines.push(cur);
        assert(lines.deep_view() =~= old_lines.push(closed));
    }
    if lines.len() == 0 {
        lines.push(String::from_str(text));
        assert(lines.deep_view() =~= seq![text@]);
    }
    lines
}

/// Length of one typographic point, in ten-thousandths of a millimetre (0.3528 mm).
pub const POINT_LENGTH: u64 = 3528;

/// The approximate width of one character as a fraction of the font size, in
/// thousandths. A fixed heuristic, not real font metrics.
pub const CHAR_WIDTH_PER_MILLE: u64 = 500;

/// The approximate width of one character at `font_pt` points, in
/// ten-thousandths of a millimetre.
pub open spec fn char_width(font_pt: u32) -> nat {
    (font_pt * POINT_LENGTH * CHAR_WIDTH_PER_MILLE / 1000) as nat
}

/// How many characters fit in `span`: the floor of span over character
/// width, saturating at `usize::MAX` (and there when the width is zero).
pub open spec fn max_chars(font_pt: u32, span: u64) -> nat {
    if char_width(font_pt) == 0 {
        usize::MAX as nat
    } else if span as nat / char_width(font_pt) > usize::MAX {
        usize::MAX as nat
    } else {
        span as nat / char_width(font_pt)
    }
}

/// How many characters of `font_pt` points fit in `span`.
pub fn max_chars_for(font_pt: u32, span: u64) -> (r: usize)
    ensures
        r == max_chars(font_pt, span),
{
    let width: u64 = font_pt as u64 * POINT_LENGTH * CHAR_WIDTH_PER_MILLE / 1000;
    if width == 0 {
        usize::MAX
    } else {
        let q: u64 = span / width;
        if q as u128 > usize::MAX as u128 {
            usize::MAX
        } else {
            q as usize
        }
    }
}

/// Wraps `text` for a font of `font_pt` points along a span of `span`
/// ten-thousandths of a millimetre.
pub fn wrap_text(text: &str, font_pt: u32, span: u64) -> (r: Vec<String>)
    ensures
        r.deep_view() == wrap_lines(text@, max_chars(font_pt, span)),
{
    let max = max_chars_for(font_pt, span);
    wrap_to_width(text, max)
}

} // verus!
