use vstd::prelude::*;
use crate::text;
use crate::text::{push_all, push_char, split, split_words};

verus! {

broadcast use vstd::string::group_string_axioms;

/// The width a word takes: its length in UTF-8 bytes, kept to 16 bits.
pub open spec fn word_width(w: Seq<char>) -> int {
    ((vstd::utf8::encode_utf8(w).len() as usize) as u16) as int
}

/// The number of bytes a text takes in UTF-8.
pub open spec fn utf8_len(s: Seq<char>) -> int {
    vstd::utf8::encode_utf8(s).len() as int
}

/// The room the words take on lines: each word's width and one space after it.
pub open spec fn words_room(ws: Seq<Seq<char>>) -> int
    decreases ws.len(),
{
    if ws.len() == 0 {
        0
    } else {
        words_room(ws.drop_last()) + word_width(ws.last()) + 1
    }
}

/// The room the pieces would take: each piece's bytes and one after it.
pub open spec fn pieces_room(ps: Seq<Seq<char>>) -> int
    decreases ps.len(),
{
    if ps.len() == 0 {
        0
    } else {
        pieces_room(ps.drop_last()) + utf8_len(ps.last()) + 1
    }
}

proof fn lemma_utf8_concat(a: Seq<char>, b: Seq<char>)
    ensures
        vstd::utf8::encode_utf8(a + b) == vstd::utf8::encode_utf8(a) + vstd::utf8::encode_utf8(b),
    decreases a.len(),
{
    if a.len() == 0 {
        assert(a + b =~= b);
        assert(vstd::utf8::encode_utf8(a) =~= Seq::<u8>::empty());
        assert(Seq::<u8>::empty() + vstd::utf8::encode_utf8(b) =~= vstd::utf8::encode_utf8(b));
    } else {
        lemma_utf8_concat(a.drop_first(), b);
        assert((a + b).drop_first() =~= a.drop_first() + b);
        assert((a + b)[0] == a[0]);
        let e0 = vstd::utf8::encode_scalar(a[0] as u32);
        assert(e0 + (vstd::utf8::encode_utf8(a.drop_first()) + vstd::utf8::encode_utf8(b)) =~= (e0
            + vstd::utf8::encode_utf8(a.drop_first())) + vstd::utf8::encode_utf8(b));
    }
}

proof fn lemma_utf8_push(a: Seq<char>, c: char)
    ensures
        utf8_len(a.push(c)) == utf8_len(a) + utf8_len(seq![c]),
        utf8_len(seq![c]) >= 1,
        utf8_len(a) >= 0,
{
    assert(a.push(c) =~= a + seq![c]);
    lemma_utf8_concat(a, seq![c]);
    let one = seq![c];
    assert(one.len() == 1);
    assert(one[0] == c);
    assert(one.drop_first() =~= Seq::<char>::empty());
    assert(vstd::utf8::encode_utf8(one.drop_first()) =~= Seq::<u8>::empty());
    assert(vstd::utf8::encode_utf8(one) == vstd::utf8::encode_scalar(c as u32) + vstd::utf8::encode_utf8(one.drop_first()));
    assert(vstd::utf8::encode_scalar(c as u32).len() >= 1);
}

proof fn lemma_split_space_room(s: Seq<char>)
    ensures
        pieces_room(text::split_space(s)) <= utf8_len(s) + 1,
    decreases s.len(),
{
    let e = Seq::<char>::empty();
    assert(vstd::utf8::encode_utf8(e) =~= Seq::<u8>::empty());
    if s.len() == 0 {
        let ps = text::split_space(s);
        assert(ps == seq![e]);
        assert(ps.drop_last() =~= Seq::<Seq<char>>::empty());
        assert(ps.last() == e);
        assert(pieces_room(ps) == pieces_room(ps.drop_last()) + utf8_len(ps.last()) + 1);
    } else {
        let t = s.drop_last();
        let c = s.last();
        lemma_split_space_room(t);
        lemma_utf8_push(t, c);
        assert(t.push(c) =~= s);
        let p = text::split_space(t);
        text::lemma_split_space_nonempty(t);
        assert(pieces_room(p) == pieces_room(p.drop_last()) + utf8_len(p.last()) + 1);
        if text::is_space(c) {
            let q = p.push(e);
            assert(text::split_space(s) == q);
            assert(q.drop_last() =~= p);
            assert(q.last() == e);
            assert(pieces_room(q) == pieces_room(q.drop_last()) + utf8_len(q.last()) + 1);
        } else {
            let q = p.update(p.len() - 1, p.last().push(c));
            assert(text::split_space(s) == q);
            assert(q.drop_last() =~= p.drop_last());
            assert(q.last() == p.last().push(c));
            lemma_utf8_push(p.last(), c);
            assert(pieces_room(q) == pieces_room(q.drop_last()) + utf8_len(q.last()) + 1);
        }
    }
}

proof fn lemma_words_room(ps: Seq<Seq<char>>)
    ensures
        words_room(text::nonempty(ps)) <= pieces_room(ps),
    decreases ps.len(),
{
    if ps.len() > 0 {
        lemma_words_room(ps.drop_last());
        let x = ps.last();
        if x.len() > 0 {
            assert(text::nonempty(ps.drop_last()).push(x).drop_last() =~= text::nonempty(ps.drop_last()));
            lemma_width_at_most_bytes(x);
        }
    }
}

proof fn lemma_width_at_most_bytes(x: Seq<char>)
    ensures
        word_width(x) <= utf8_len(x),
{
    let n = vstd::utf8::encode_utf8(x).len();
    if n <= usize::MAX {
        let m: usize = n as usize;
        assert(m as u16 <= m) by (bit_vector);
    }
}

proof fn lemma_room_prefix(ws: Seq<Seq<char>>, k: int)
    requires
        0 <= k < ws.len(),
    ensures
        words_room(ws.take(k + 1)) == words_room(ws.take(k)) + word_width(ws[k]) + 1,
        words_room(ws.take(k + 1)) <= words_room(ws),
    decreases ws.len(),
{
    assert(ws.take(k + 1).drop_last() =~= ws.take(k));
    assert(ws.take(k + 1).last() == ws[k]);
    if k + 1 < ws.len() {
        lemma_room_prefix(ws.drop_last(), k);
        assert(ws.drop_last().take(k + 1) =~= ws.take(k + 1));
        assert(ws.drop_last().take(k) =~= ws.take(k));
        lemma_width_nonneg(ws.last());
    } else {
        assert(ws.take(k + 1) =~= ws);
    }
}

proof fn lemma_width_nonneg(x: Seq<char>)
    ensures
        word_width(x) >= 0,
{
}

proof fn lemma_line_within_room(ws: Seq<Seq<char>>, w: int)
    ensures
        0 <= layout(ws, w).1 <= words_room(ws),
    decreases ws.len(),
{
    if ws.len() > 0 {
        lemma_line_within_room(ws.drop_last(), w);
        lemma_width_nonneg(ws.last());
    }
}

proof fn lemma_piece_bytes(s: Seq<char>, sep: char)
    ensures
        forall|i: int| 0 <= i < text::split_seq(s, sep).len() ==> utf8_len(#[trigger] text::split_seq(s, sep)[i])
            <= utf8_len(s),
    decreases s.len(),
{
    if s.len() == 0 {
        assert(vstd::utf8::encode_utf8(Seq::<char>::empty()) =~= Seq::<u8>::empty());
        assert(s =~= Seq::<char>::empty());
    } else {
        let t = s.drop_last();
        let c = s.last();
        lemma_piece_bytes(t, sep);
        lemma_utf8_push(t, c);
        assert(t.push(c) =~= s);
        let p = text::split_seq(t, sep);
        text::lemma_split_nonempty(t, sep);
        assert forall|i: int| 0 <= i < text::split_seq(s, sep).len() implies utf8_len(
            #[trigger] text::split_seq(s, sep)[i],
        ) <= utf8_len(s) by {
            if c == sep {
                if i < p.len() {
                    assert(text::split_seq(s, sep)[i] == p[i]);
                } else {
                    assert(vstd::utf8::encode_utf8(Seq::<char>::empty()) =~= Seq::<u8>::empty());
                }
            } else {
                if i < p.len() - 1 {
                    assert(text::split_seq(s, sep)[i] == p[i]);
                } else {
                    lemma_utf8_push(p.last(), c);
                    assert(p.last() == p[p.len() - 1]);
                }
            }
        }
    }
}

/// A text of at most 65,534 bytes in UTF-8 lays out within 16-bit line lengths, whatever
/// the width: every paragraph's words with a space after each take at most one byte more
/// than the paragraph, so `fit_info` accepts every such text.
pub proof fn law_short_text_fits(src: Seq<char>, w: int)
    requires
        utf8_len(src) <= 65534,
    ensures
        info_fits(src, w),
{
    lemma_piece_bytes(src, '\n');
    assert forall|i: int| 0 <= i < text::split_seq(src, '\n').len() implies layout_fits(
        text::words(#[trigger] text::split_seq(src, '\n')[i]),
        w,
    ) by {
        let para = text::split_seq(src, '\n')[i];
        let ws = text::words(para);
        lemma_split_space_room(para);
        lemma_words_room(text::split_space(para));
        assert forall|k: int| 0 <= k < ws.len() implies layout(ws.take(k), w).1 + word_width(#[trigger] ws[k]) + 1
            <= u16::MAX by {
            lemma_line_within_room(ws.take(k), w);
            lemma_room_prefix(ws, k);
        }
    }
}

/// A word: not empty and without white space.
pub open spec fn is_word(x: Seq<char>) -> bool {
    x.len() > 0 && forall|j: int| 0 <= j < x.len() ==> !text::is_space(#[trigger] x[j])
}

proof fn lemma_split_space_append(a: Seq<char>, x: Seq<char>)
    requires
        forall|j: int| 0 <= j < x.len() ==> !text::is_space(#[trigger] x[j]),
    ensures
        text::split_space(a + x) == text::split_space(a).update(
            text::split_space(a).len() - 1,
            text::split_space(a).last() + x,
        ),
    decreases x.len(),
{
    text::lemma_split_space_nonempty(a);
    let q = text::split_space(a);
    if x.len() == 0 {
        assert(a + x =~= a);
        assert(q.last() + x =~= q.last());
        assert(q.update(q.len() - 1, q.last() + x) =~= q);
    } else {
        let y = x.drop_last();
        let c = x.last();
        assert(!text::is_space(x[x.len() - 1]));
        lemma_split_space_append(a, y);
        assert((a + y).push(c) =~= a + x);
        assert((a + x).drop_last() =~= a + y);
        let p = text::split_space(a + y);
        assert(p =~= q.update(q.len() - 1, q.last() + y));
        assert((q.last() + y).push(c) =~= q.last() + x);
        assert(p.update(p.len() - 1, p.last().push(c)) =~= q.update(q.len() - 1, q.last() + x));
    }
}

proof fn lemma_space_ended_words(s: Seq<char>, x: Seq<char>)
    requires
        s.len() == 0 || text::is_space(s.last()),
        is_word(x),
    ensures
        text::words(s + x + seq![' ']) == text::words(s).push(x),
{
    text::lemma_split_space_nonempty(s);
    let q = text::split_space(s);
    if s.len() == 0 {
        assert(q == seq![Seq::<char>::empty()]);
    } else {
        assert(s.drop_last().push(s.last()) =~= s);
        assert(q == text::split_space(s.drop_last()).push(Seq::<char>::empty()));
    }
    assert(q.last() == Seq::<char>::empty());
    lemma_split_space_append(s, x);
    let r = text::split_space(s + x);
    assert(q.last() + x =~= x);
    assert(r =~= q.drop_last().push(x));
    assert(q.drop_last().push(Seq::<char>::empty()) =~= q);
    text::lemma_nonempty_push(q.drop_last(), Seq::<char>::empty());
    text::lemma_nonempty_push(q.drop_last(), x);
    let t = s + x + seq![' '];
    assert(t.drop_last() =~= s + x);
    assert(t.last() == ' ');
    assert(text::split_space(t) == r.push(Seq::<char>::empty()));
    text::lemma_nonempty_push(r, Seq::<char>::empty());
}

/// Laying out words keeps them: the words of the laid-out text are the words laid out, in
/// order, and the text is empty or ends with white space.
pub proof fn law_layout_keeps_words(ws: Seq<Seq<char>>, w: int)
    requires
        forall|i: int| 0 <= i < ws.len() ==> is_word(#[trigger] ws[i]),
    ensures
        text::words(layout(ws, w).0) == ws,
        layout(ws, w).0.len() == 0 || text::is_space(layout(ws, w).0.last()),
    decreases ws.len(),
{
    if ws.len() == 0 {
        assert(text::split_space(Seq::<char>::empty()) == seq![Seq::<char>::empty()]);
        text::lemma_nonempty_push(Seq::<Seq<char>>::empty(), Seq::<char>::empty());
        assert(seq![Seq::<char>::empty()] =~= Seq::<Seq<char>>::empty().push(Seq::<char>::empty()));
        assert(text::nonempty(Seq::<Seq<char>>::empty()) =~= Seq::<Seq<char>>::empty());
    } else {
        let init = ws.drop_last();
        assert forall|i: int| 0 <= i < init.len() implies is_word(#[trigger] init[i]) by {
            assert(init[i] == ws[i]);
        }
        law_layout_keeps_words(init, w);
        let prev = layout(init, w);
        let x = ws.last();
        assert(is_word(ws[ws.len() - 1]));
        let broken = prev.1 + word_width(x) + 1 >= w;
        let s1 = if broken { prev.0.push('\n') } else { prev.0 };
        if broken {
            let q = text::split_space(prev.0);
            assert(prev.0.push('\n').drop_last() =~= prev.0);
            assert(text::split_space(s1) == q.push(Seq::<char>::empty()));
            text::lemma_nonempty_push(q, Seq::<char>::empty());
        }
        assert(s1.len() == 0 || text::is_space(s1.last()));
        lemma_space_ended_words(s1, x);
        assert(layout(ws, w).0 == s1 + x + seq![' ']);
        assert(init.push(x) =~= ws);
    }
}

/// `fit_info` keeps the words: the words of each laid-out paragraph are the words of the
/// paragraph, in order.
pub proof fn law_fit_keeps_words(para: Seq<char>, w: int)
    ensures
        text::words(layout(text::words(para), w).0) == text::words(para),
{
    lemma_words_are_words(para);
    law_layout_keeps_words(text::words(para), w);
}

proof fn lemma_split_space_pieces(s: Seq<char>)
    ensures
        forall|i: int, j: int|
            0 <= i < text::split_space(s).len() && 0 <= j < text::split_space(s)[i].len() ==> !text::is_space(
                #[trigger] text::split_space(s)[i][j],
            ),
    decreases s.len(),
{
    if s.len() > 0 {
        lemma_split_space_pieces(s.drop_last());
        text::lemma_split_space_nonempty(s.drop_last());
        let p = text::split_space(s.drop_last());
        if !text::is_space(s.last()) {
            let q = p.last().push(s.last());
            assert forall|i: int, j: int|
                0 <= i < text::split_space(s).len() && 0 <= j < text::split_space(s)[i].len() implies !text::is_space(
                #[trigger] text::split_space(s)[i][j],
            ) by {
                if i == p.len() - 1 {
                    if j < p.last().len() {
                        assert(q[j] == p[p.len() - 1][j]);
                    }
                } else {
                    assert(text::split_space(s)[i] == p[i]);
                }
            }
        } else {
            assert forall|i: int, j: int|
                0 <= i < text::split_space(s).len() && 0 <= j < text::split_space(s)[i].len() implies !text::is_space(
                #[trigger] text::split_space(s)[i][j],
            ) by {
                if i < p.len() {
                    assert(text::split_space(s)[i] == p[i]);
                }
            }
        }
    }
}

proof fn lemma_words_are_words(s: Seq<char>)
    ensures
        forall|i: int| 0 <= i < text::words(s).len() ==> is_word(#[trigger] text::words(s)[i]),
{
    let ps = text::split_space(s);
    text::lemma_nonempty_members(ps);
    lemma_split_space_pieces(s);
    assert forall|i: int| 0 <= i < text::words(s).len() implies is_word(#[trigger] text::words(s)[i]) by {
        let x = text::words(s)[i];
        let k = choose|k: int| 0 <= k < ps.len() && ps[k] == x;
        assert forall|j: int| 0 <= j < x.len() implies !text::is_space(#[trigger] x[j]) by {
            assert(ps[k][j] == x[j]);
        }
    }
}

/// The text and the length of its last line after laying out `words` in lines narrower
/// than `w`: each word is followed by a space, and a line break comes before a word that
/// would reach the width.
pub open spec fn layout(words: Seq<Seq<char>>, w: int) -> (Seq<char>, int)
    decreases words.len(),
{
    if words.len() == 0 {
        (Seq::empty(), 0)
    } else {
        let prev = layout(words.drop_last(), w);
        let t = word_width(words.last());
        let broken = prev.1 + t + 1 >= w;
        let s = if broken { prev.0.push('\n') } else { prev.0 };
        let line = if broken { 0 } else { prev.1 };
        (s + words.last() + seq![' '], line + t + 1)
    }
}

/// Laying out `words` never counts a line length past 16 bits.
pub open spec fn layout_fits(words: Seq<Seq<char>>, w: int) -> bool {
    forall|k: int| 0 <= k < words.len() ==> layout(words.take(k), w).1 + word_width(#[trigger] words[k]) + 1 <= u16::MAX
}

/// Every paragraph of `src` lays out within 16-bit line lengths.
pub open spec fn info_fits(src: Seq<char>, w: int) -> bool {
    forall|i: int| 0 <= i < text::split_seq(src, '\n').len() ==> layout_fits(
        text::words(#[trigger] text::split_seq(src, '\n')[i]),
        w,
    )
}

/// Each paragraph after a line break, laid out.
pub open spec fn info_text(paras: Seq<Seq<char>>, w: int) -> Seq<char>
    decreases paras.len(),
{
    if paras.len() == 0 {
        Seq::empty()
    } else {
        info_text(paras.drop_last(), w) + seq!['\n'] + layout(text::words(paras.last()), w).0
    }
}

/// A paragraph broken into lines narrower than `w`.
fn fit_paragraph(src: &str, w: u16) -> (r: String)
    requires
        layout_fits(text::words(src@), w as int),
    ensures
        r@ == layout(text::words(src@), w as int).0,
{
    let words = split_words(src);
    let ghost ws = text::words(src@);
    let mut s = String::new();
    let mut line: u16 = 0;
    let mut k: usize = 0;
    while k < words.len()
        invariant
            text::views(words@) == ws,
            ws == text::words(src@),
            layout_fits(ws, w as int),
            k <= words.len(),
            (s@, line as int) == layout(ws.take(k as int), w as int),
        decreases words.len() - k,
    {
        assert(ws.take(k + 1).drop_last() =~= ws.take(k as int));
        assert(ws.take(k + 1).last() == words@[k as int]@);
        assert(ws[k as int] == words@[k as int]@);
        let word = words[k].as_str();
        let t: u16 = word.len() as u16;
        assert(t as int == word_width(ws[k as int]));
        assert(layout(ws.take(k as int), w as int).1 + word_width(ws[k as int]) + 1 <= u16::MAX);
        if line + t + 1 >= w {
            push_char(&mut s, '\n');
            line = 0;
        }
        push_all(&mut s, word);
        push_char(&mut s, ' ');
        line = line + t + 1;
        k = k + 1;
    }
    assert(ws.take(words.len() as int) =~= ws);
    s
}

/// A text broken into lines narrower than `w`, paragraph by paragraph, each paragraph after
/// a line break.
pub fn fit_info(src: &str, w: u16) -> (r: String)
    requires
        info_fits(src@, w as int),
    ensures
        r@ == info_text(text::split_seq(src@, '\n'), w as int),
{
    let paras = split(src, '\n');
    let ghost ps = text::split_seq(src@, '\n');
    let mut s = String::new();
    let mut k: usize = 0;
    while k < paras.len()
        invariant
            text::views(paras@) == ps,
            ps == text::split_seq(src@, '\n'),
            info_fits(src@, w as int),
            k <= paras.len(),
            s@ == info_text(ps.take(k as int), w as int),
        decreases paras.len() - k,
    {
        assert(ps.take(k + 1).drop_last() =~= ps.take(k as int));
        assert(ps.take(k + 1).last() == paras@[k as int]@);
        assert(ps[k as int] == paras@[k as int]@);
        push_char(&mut s, '\n');
        let fitted = fit_paragraph(paras[k].as_str(), w);
        push_all(&mut s, fitted.as_str());
        k = k + 1;
    }
    assert(ps.take(paras.len() as int) =~= ps);
    s
}

/// The entry selected after moving down a list of `len` entries: the first when none is
/// selected, the next one otherwise, staying on the last.
pub open spec fn next_index(selected: Option<usize>, len: usize) -> Option<usize> {
    match selected {
        None => Some(0usize),
        Some(x) => if x + 1 < len { Some((x + 1) as usize) } else { Some(x) },
    }
}

/// The entry selected after moving up a list: the first when none is selected, the
/// previous one otherwise, staying on the first.
pub open spec fn prev_index(selected: Option<usize>) -> Option<usize> {
    match selected {
        None => Some(0usize),
        Some(x) => if x > 0 { Some((x - 1) as usize) } else { Some(x) },
    }
}

/// Moves the selection of a list of `len` entries down by one.
pub fn select_next_index(selected: Option<usize>, len: usize) -> (r: Option<usize>)
    requires
        selected matches Some(_) ==> len > 0,
    ensures
        r == next_index(selected, len),
{
    match selected {
        None => Some(0),
        Some(x) => {
            if x < len - 1 {
                Some(x + 1)
            } else {
                Some(x)
            }
        },
    }
}

/// Moves the selection of a list up by one.
pub fn select_prev_index(selected: Option<usize>) -> (r: Option<usize>)
    ensures
        r == prev_index(selected),
{
    match selected {
        None => Some(0),
        Some(x) => {
            if x > 0 {
                Some(x - 1)
            } else {
                Some(x)
            }
        },
    }
}

/// Moving down and then up from an entry that is not the last returns to it; moving up and
/// then down from an entry that is not the first returns to it.
pub proof fn law_next_then_prev(x: usize, len: usize)
    ensures
        x + 1 < len ==> prev_index(next_index(Some(x), len)) == Some(x),
        0 < x < len ==> next_index(prev_index(Some(x)), len) == Some(x),
{
}

} // verus!
