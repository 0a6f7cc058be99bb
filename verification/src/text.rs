use vstd::prelude::*;

verus! {

broadcast use vstd::string::group_string_axioms;

// ---------------------------------------------------------------------------
// Models of text operations
// ---------------------------------------------------------------------------

/// The character views of a sequence of strings.
pub open spec fn views(v: Seq<String>) -> Seq<Seq<char>> {
    v.map_values(|x: String| x@)
}

/// `pat` occurs in `s` at position `i`.
pub open spec fn occurs_at(s: Seq<char>, pat: Seq<char>, i: int) -> bool {
    0 <= i && i + pat.len() <= s.len() && s.subrange(i, i + pat.len()) == pat
}

/// `pat` occurs somewhere in `s` (`str::contains`).
pub open spec fn has_sub(s: Seq<char>, pat: Seq<char>) -> bool {
    exists|i: int| occurs_at(s, pat, i)
}

/// `s` begins with `pat`.
pub open spec fn has_prefix(s: Seq<char>, pat: Seq<char>) -> bool {
    pat.len() <= s.len() && s.subrange(0, pat.len() as int) == pat
}

/// `s` ends with `pat`.
pub open spec fn has_suffix(s: Seq<char>, pat: Seq<char>) -> bool {
    pat.len() <= s.len() && s.subrange(s.len() - pat.len(), s.len() as int) == pat
}

/// The pieces of `s` between occurrences of `sep`, empty pieces included (`str::split`).
pub open spec fn split_seq(s: Seq<char>, sep: char) -> Seq<Seq<char>>
    decreases s.len(),
{
    if s.len() == 0 {
        seq![Seq::<char>::empty()]
    } else {
        let p = split_seq(s.drop_last(), sep);
        if s.last() == sep {
            p.push(Seq::<char>::empty())
        } else {
            p.update(p.len() - 1, p.last().push(s.last()))
        }
    }
}

/// The non-empty members of `v`, in order.
pub open spec fn nonempty(v: Seq<Seq<char>>) -> Seq<Seq<char>>
    decreases v.len(),
{
    if v.len() == 0 {
        v
    } else if v.last().len() > 0 {
        nonempty(v.drop_last()).push(v.last())
    } else {
        nonempty(v.drop_last())
    }
}

/// The non-empty pieces of `s` between occurrences of `sep`.
pub open spec fn fields(s: Seq<char>, sep: char) -> Seq<Seq<char>> {
    nonempty(split_seq(s, sep))
}

/// ASCII lower case of one character (`char::to_ascii_lowercase`).
pub open spec fn lower_char(c: char) -> char {
    if 'A' <= c && c <= 'Z' {
        ((c as u32) + 32) as char
    } else {
        c
    }
}

/// ASCII upper case of one character (`char::to_ascii_uppercase`).
pub open spec fn upper_char(c: char) -> char {
    if 'a' <= c && c <= 'z' {
        ((c as u32) - 32) as char
    } else {
        c
    }
}

/// ASCII lower case of a text.
pub open spec fn lower_seq(s: Seq<char>) -> Seq<char> {
    s.map_values(|c: char| lower_char(c))
}

/// Unicode `White_Space` (`char::is_whitespace`).
pub open spec fn is_space(c: char) -> bool {
    ||| c == ' '
    ||| ('\t' <= c && c <= '\r')
    ||| c == '\u{85}'
    ||| c == '\u{a0}'
    ||| c == '\u{1680}'
    ||| ('\u{2000}' <= c && c <= '\u{200a}')
    ||| c == '\u{2028}'
    ||| c == '\u{2029}'
    ||| c == '\u{202f}'
    ||| c == '\u{205f}'
    ||| c == '\u{3000}'
}

/// The pieces of `s` between white space characters, empty pieces included.
pub open spec fn split_space(s: Seq<char>) -> Seq<Seq<char>>
    decreases s.len(),
{
    if s.len() == 0 {
        seq![Seq::<char>::empty()]
    } else {
        let p = split_space(s.drop_last());
        if is_space(s.last()) {
            p.push(Seq::<char>::empty())
        } else {
            p.update(p.len() - 1, p.last().push(s.last()))
        }
    }
}

/// The words of `s` (`str::split_whitespace`).
pub open spec fn words(s: Seq<char>) -> Seq<Seq<char>> {
    nonempty(split_space(s))
}



// ---------------------------------------------------------------------------
// Facts about the text models
// ---------------------------------------------------------------------------

/// Splitting on white space always yields at least one piece.
pub proof fn lemma_split_space_nonempty(s: Seq<char>)
    ensures
        split_space(s).len() >= 1,
    decreases s.len(),
{
    if s.len() > 0 {
        lemma_split_space_nonempty(s.drop_last());
    }
}

/// Splitting always yields at least one piece.
pub proof fn lemma_split_nonempty(s: Seq<char>, sep: char)
    ensures
        split_seq(s, sep).len() >= 1,
    decreases s.len(),
{
    if s.len() > 0 {
        lemma_split_nonempty(s.drop_last(), sep);
    }
}

/// Appending text without the separator extends the last piece.
pub proof fn lemma_split_append(s: Seq<char>, b: Seq<char>, sep: char)
    requires
        !b.contains(sep),
    ensures
        split_seq(s + b, sep) == split_seq(s, sep).update(
            split_seq(s, sep).len() - 1,
            split_seq(s, sep).last() + b,
        ),
    decreases b.len(),
{
    lemma_split_nonempty(s, sep);
    if b.len() == 0 {
        assert(s + b =~= s);
        assert(split_seq(s, sep).last() + b =~= split_seq(s, sep).last());
        assert(split_seq(s, sep).update(split_seq(s, sep).len() - 1, split_seq(s, sep).last())
            =~= split_seq(s, sep));
    } else {
        let b0 = b.drop_last();
        assert(!b0.contains(sep)) by {
            if b0.contains(sep) {
                let i = choose|i: int| 0 <= i < b0.len() && b0[i] == sep;
                assert(b[i] == sep);
            }
        }
        lemma_split_append(s, b0, sep);
        assert((s + b).drop_last() =~= s + b0);
        assert((s + b).last() == b.last());
        assert(b.last() != sep) by {
            assert(b[b.len() - 1] == b.last());
        }
        lemma_split_nonempty(s + b0, sep);
        let q = split_seq(s, sep);
        let p = split_seq(s + b0, sep);
        assert(p == q.update(q.len() - 1, q.last() + b0));
        assert(p.len() == q.len());
        assert(p.last() == q.last() + b0);
        assert(split_seq(s + b, sep) == p.update(p.len() - 1, p.last().push(b.last())));
        assert(p.last().push(b.last()) =~= q.last() + b);
        assert(split_seq(s + b, sep) =~= split_seq(s, sep).update(
            split_seq(s, sep).len() - 1,
            split_seq(s, sep).last() + b,
        ));
    }
}

/// Appending the separator starts a new, empty piece.
pub proof fn lemma_split_push_sep(s: Seq<char>, sep: char)
    ensures
        split_seq(s.push(sep), sep) == split_seq(s, sep).push(Seq::<char>::empty()),
{
    assert(s.push(sep).drop_last() =~= s);
}

/// Each member of `ls` followed by `sep`, all concatenated.
pub open spec fn terminated(ls: Seq<Seq<char>>, sep: char) -> Seq<char>
    decreases ls.len(),
{
    if ls.len() == 0 {
        Seq::<char>::empty()
    } else {
        terminated(ls.drop_last(), sep) + ls.last() + seq![sep]
    }
}

/// Splitting separator-terminated pieces gives the pieces back, then one empty piece.
pub proof fn lemma_split_terminated(ls: Seq<Seq<char>>, sep: char)
    requires
        forall|i: int| 0 <= i < ls.len() ==> !(#[trigger] ls[i]).contains(sep),
    ensures
        split_seq(terminated(ls, sep), sep) == ls.push(Seq::<char>::empty()),
    decreases ls.len(),
{
    if ls.len() == 0 {
        assert(split_seq(Seq::<char>::empty(), sep) =~= seq![Seq::<char>::empty()]);
    } else {
        let l0 = ls.drop_last();
        let x = ls.last();
        assert forall|i: int| 0 <= i < l0.len() implies !(#[trigger] l0[i]).contains(sep) by {
            assert(l0[i] == ls[i]);
        }
        assert(!ls[ls.len() - 1].contains(sep));
        lemma_split_terminated(l0, sep);
        let t = terminated(l0, sep);
        lemma_split_append(t, x, sep);
        assert(Seq::<char>::empty() + x =~= x);
        assert(split_seq(t + x, sep) =~= l0.push(x));
        lemma_split_push_sep(t + x, sep);
        assert(terminated(ls, sep) =~= (t + x).push(sep));
        assert(l0.push(x) =~= ls);
    }
}

/// No piece holds the separator.
pub proof fn lemma_split_pieces(s: Seq<char>, sep: char)
    ensures
        forall|i: int| 0 <= i < split_seq(s, sep).len() ==> !(#[trigger] split_seq(s, sep)[i]).contains(sep),
    decreases s.len(),
{
    if s.len() > 0 {
        lemma_split_pieces(s.drop_last(), sep);
        lemma_split_nonempty(s.drop_last(), sep);
        let p = split_seq(s.drop_last(), sep);
        if s.last() != sep {
            assert forall|i: int| 0 <= i < split_seq(s, sep).len() implies !(#[trigger] split_seq(s, sep)[i]).contains(sep) by {
                if i == p.len() - 1 {
                    let q = p.last().push(s.last());
                    if q.contains(sep) {
                        let j = choose|j: int| 0 <= j < q.len() && q[j] == sep;
                        if j < p.last().len() {
                            assert(p[p.len() - 1][j] == sep);
                        }
                    }
                }
            }
        }
    }
}

/// `nonempty` keeps what it finds in order, skipping empty members.
pub proof fn lemma_nonempty_push(v: Seq<Seq<char>>, x: Seq<char>)
    ensures
        nonempty(v.push(x)) == if x.len() > 0 { nonempty(v).push(x) } else { nonempty(v) },
{
    assert(v.push(x).drop_last() =~= v);
}

/// Members of `nonempty(v)` are non-empty members of `v`.
pub proof fn lemma_nonempty_members(v: Seq<Seq<char>>)
    ensures
        forall|i: int| 0 <= i < nonempty(v).len() ==> (#[trigger] nonempty(v)[i]).len() > 0
            && v.contains(nonempty(v)[i]),
    decreases v.len(),
{
    if v.len() > 0 {
        lemma_nonempty_members(v.drop_last());
        assert forall|i: int| 0 <= i < nonempty(v).len() implies (#[trigger] nonempty(v)[i]).len() > 0
            && v.contains(nonempty(v)[i]) by {
            if i < nonempty(v.drop_last()).len() {
                let x = nonempty(v.drop_last())[i];
                let j = choose|j: int| 0 <= j < v.drop_last().len() && v.drop_last()[j] == x;
                assert(v[j] == x);
            } else {
                assert(v[v.len() - 1] == v.last());
            }
        }
    }
}

/// Fields are non-empty and hold no separator.
pub proof fn lemma_fields_members(s: Seq<char>, sep: char)
    ensures
        forall|i: int| 0 <= i < fields(s, sep).len() ==> (#[trigger] fields(s, sep)[i]).len() > 0
            && !fields(s, sep)[i].contains(sep),
{
    lemma_split_pieces(s, sep);
    lemma_nonempty_members(split_seq(s, sep));
    assert forall|i: int| 0 <= i < fields(s, sep).len() implies (#[trigger] fields(s, sep)[i]).len() > 0
        && !fields(s, sep)[i].contains(sep) by {
        let x = fields(s, sep)[i];
        let j = choose|j: int| 0 <= j < split_seq(s, sep).len() && split_seq(s, sep)[j] == x;
        assert(!split_seq(s, sep)[j].contains(sep));
    }
}

// ---------------------------------------------------------------------------
// Executable text operations
// ---------------------------------------------------------------------------

/// Appends one character to a string: calls `String::push`, which std documents as
/// appending the given char to the end of the string; the contract says that the
/// characters after the call are those before it followed by `c`.
#[verifier::external_body]
pub(crate) fn push_char(s: &mut String, c: char)
    ensures
        final(s)@ == old(s)@.push(c),
{
    s.push(c);
}

/// The characters of a string, in order.
pub fn chars_of(s: &str) -> (r: Vec<char>)
    ensures
        r@ == s@,
{
    let mut v: Vec<char> = Vec::new();
    for c in it: s.chars()
        invariant
            v@ == it.seq().take(it.index() as int),
            it.seq() == s@,
    {
        v.push(c);
    }
    v
}

/// A string holding the characters `v[lo..hi]`.
pub fn string_of_range(v: &Vec<char>, lo: usize, hi: usize) -> (r: String)
    requires
        lo <= hi <= v.len(),
    ensures
        r@ == v@.subrange(lo as int, hi as int),
{
    let mut s = String::new();
    let mut k = lo;
    while k < hi
        invariant
            lo <= k <= hi <= v.len(),
            s@ == v@.subrange(lo as int, k as int),
        decreases hi - k,
    {
        push_char(&mut s, v[k]);
        k = k + 1;
        assert(s@ =~= v@.subrange(lo as int, k as int));
    }
    s
}

/// A string holding the characters of `v`.
pub fn string_of(v: &Vec<char>) -> (r: String)
    ensures
        r@ == v@,
{
    let r = string_of_range(v, 0, v.len());
    assert(v@.subrange(0, v@.len() as int) =~= v@);
    r
}

/// A new string with the characters of `s`.
pub fn string_from_str(s: &str) -> (r: String)
    ensures
        r@ == s@,
{
    let mut r = String::new();
    r.append(s);
    r
}

/// Appends the characters of `t` to `s`.
pub fn push_all(s: &mut String, t: &str)
    ensures
        final(s)@ == old(s)@ + t@,
{
    s.append(t);
}

/// Does `pat` occur in `s` at position `i`?
fn occurs_at_exec(s: &Vec<char>, pat: &Vec<char>, i: usize) -> (r: bool)
    requires
        i + pat.len() <= s.len(),
    ensures
        r == occurs_at(s@, pat@, i as int),
{
    let mut k: usize = 0;
    while k < pat.len()
        invariant
            i + pat.len() <= s.len(),
            k <= pat.len(),
            forall|j: int| 0 <= j < k ==> s@[i + j] == pat@[j],
        decreases pat.len() - k,
    {
        if s[i + k] != pat[k] {
            assert(s@.subrange(i as int, i + pat.len())[k as int] != pat@[k as int]);
            return false;
        }
        k = k + 1;
    }
    assert(s@.subrange(i as int, i + pat.len()) =~= pat@);
    true
}

/// Does `pat` occur in `s` (`str::contains`)?
pub fn contains(s: &str, pat: &str) -> (r: bool)
    ensures
        r == has_sub(s@, pat@),
{
    let sv = chars_of(s);
    let pv = chars_of(pat);
    if pv.len() > sv.len() {
        assert forall|i: int| !occurs_at(s@, pat@, i) by {}
        return false;
    }
    let mut i: usize = 0;
    let last = sv.len() - pv.len();
    loop
        invariant
            pv.len() <= sv.len(),
            last == sv.len() - pv.len(),
            sv@ == s@,
            pv@ == pat@,
            i <= last,
            forall|j: int| 0 <= j < i ==> !occurs_at(s@, pat@, j),
        decreases last - i,
    {
        if occurs_at_exec(&sv, &pv, i) {
            return true;
        }
        if i == last {
            assert forall|j: int| !occurs_at(s@, pat@, j) by {
                if 0 <= j && j + pat@.len() <= s@.len() {
                    assert(j <= i);
                }
            }
            return false;
        }
        i = i + 1;
    }
}

/// Does `s` start with `pat` (`str::starts_with`)?
pub fn starts_with(s: &str, pat: &str) -> (r: bool)
    ensures
        r == has_prefix(s@, pat@),
{
    let sv = chars_of(s);
    let pv = chars_of(pat);
    if pv.len() > sv.len() {
        return false;
    }
    let r = occurs_at_exec(&sv, &pv, 0);
    r
}

/// Does `s` end with `pat` (`str::ends_with`)?
pub fn ends_with(s: &str, pat: &str) -> (r: bool)
    ensures
        r == has_suffix(s@, pat@),
{
    let sv = chars_of(s);
    let pv = chars_of(pat);
    if pv.len() > sv.len() {
        return false;
    }
    let r = occurs_at_exec(&sv, &pv, sv.len() - pv.len());
    r
}

/// Does `s` end with the character `c`?
pub fn ends_with_char(s: &str, c: char) -> (r: bool)
    ensures
        r == (s@.len() > 0 && s@.last() == c),
{
    let sv = chars_of(s);
    sv.len() > 0 && sv[sv.len() - 1] == c
}

/// Does `s` start with the character `c`?
pub fn starts_with_char(s: &str, c: char) -> (r: bool)
    ensures
        r == (s@.len() > 0 && s@[0] == c),
{
    let sv = chars_of(s);
    sv.len() > 0 && sv[0] == c
}

/// Text equality.
pub fn str_eq(a: &str, b: &str) -> (r: bool)
    ensures
        r == (a@ == b@),
{
    let av = chars_of(a);
    let bv = chars_of(b);
    if av.len() != bv.len() {
        return false;
    }
    let mut k: usize = 0;
    while k < av.len()
        invariant
            av@ == a@,
            bv@ == b@,
            av.len() == bv.len(),
            k <= av.len(),
            forall|j: int| 0 <= j < k ==> av@[j] == bv@[j],
        decreases av.len() - k,
    {
        if av[k] != bv[k] {
            return false;
        }
        k = k + 1;
    }
    assert(av@ =~= bv@);
    true
}

/// ASCII lower case of one character.
pub fn to_lower(c: char) -> (r: char)
    ensures
        r == lower_char(c),
{
    if 'A' <= c && c <= 'Z' {
        let b: u8 = c as u8;
        ((b + 32) as char)
    } else {
        c
    }
}

/// ASCII upper case of one character.
pub fn to_upper(c: char) -> (r: char)
    ensures
        r == upper_char(c),
{
    if 'a' <= c && c <= 'z' {
        let b: u8 = c as u8;
        ((b - 32) as char)
    } else {
        c
    }
}

/// ASCII lower case of a text.
pub fn lowercase(s: &str) -> (r: String)
    ensures
        r@ == lower_seq(s@),
{
    let v = chars_of(s);
    let mut out = String::new();
    let mut k: usize = 0;
    while k < v.len()
        invariant
            v@ == s@,
            k <= v.len(),
            out@ == lower_seq(s@.take(k as int)),
        decreases v.len() - k,
    {
        push_char(&mut out, to_lower(v[k]));
        k = k + 1;
        assert(out@ =~= lower_seq(s@.take(k as int)));
    }
    assert(s@.take(v.len() as int) =~= s@);
    out
}

/// Is `c` white space?
pub fn is_space_exec(c: char) -> (r: bool)
    ensures
        r == is_space(c),
{
    c == ' ' || ('\t' <= c && c <= '\r') || c == '\u{85}' || c == '\u{a0}' || c == '\u{1680}'
        || ('\u{2000}' <= c && c <= '\u{200a}') || c == '\u{2028}' || c == '\u{2029}'
        || c == '\u{202f}' || c == '\u{205f}' || c == '\u{3000}'
}

/// `str::split` with a character separator.
pub fn split(s: &str, sep: char) -> (r: Vec<String>)
    ensures
        views(r@) == split_seq(s@, sep),
{
    let sv = chars_of(s);
    let mut pieces: Vec<String> = Vec::new();
    let mut cur: Vec<char> = Vec::new();
    let mut k: usize = 0;
    while k < sv.len()
        invariant
            sv@ == s@,
            k <= sv.len(),
            views(pieces@).push(cur@) == split_seq(s@.take(k as int), sep),
        decreases sv.len() - k,
    {
        let c = sv[k];
        let ghost before = views(pieces@).push(cur@);
        assert(s@.take(k + 1).drop_last() =~= s@.take(k as int));
        if c == sep {
            let piece = string_of(&cur);
            pieces.push(piece);
            cur = Vec::new();
            assert(views(pieces@).push(cur@) =~= before.push(Seq::<char>::empty()));
        } else {
            cur.push(c);
            assert(views(pieces@).push(cur@) =~= before.update(
                before.len() - 1,
                before.last().push(c),
            ));
        }
        k = k + 1;
    }
    let last = string_of(&cur);
    pieces.push(last);
    assert(s@.take(sv.len() as int) =~= s@);
    assert(views(pieces@) =~= split_seq(s@, sep));
    pieces
}

/// The pieces of `s` between white space characters, empty pieces included.
fn split_at_space(s: &str) -> (r: Vec<String>)
    ensures
        views(r@) == split_space(s@),
{
    let sv = chars_of(s);
    let mut pieces: Vec<String> = Vec::new();
    let mut cur: Vec<char> = Vec::new();
    let mut k: usize = 0;
    while k < sv.len()
        invariant
            sv@ == s@,
            k <= sv.len(),
            views(pieces@).push(cur@) == split_space(s@.take(k as int)),
        decreases sv.len() - k,
    {
        let c = sv[k];
        let ghost before = views(pieces@).push(cur@);
        assert(s@.take(k + 1).drop_last() =~= s@.take(k as int));
        if is_space_exec(c) {
            let piece = string_of(&cur);
            pieces.push(piece);
            cur = Vec::new();
            assert(views(pieces@).push(cur@) =~= before.push(Seq::<char>::empty()));
        } else {
            cur.push(c);
            assert(views(pieces@).push(cur@) =~= before.update(
                before.len() - 1,
                before.last().push(c),
            ));
        }
        k = k + 1;
    }
    let last = string_of(&cur);
    pieces.push(last);
    assert(s@.take(sv.len() as int) =~= s@);
    assert(views(pieces@) =~= split_space(s@));
    pieces
}

/// The non-empty members of `v`, in order.
pub fn keep_nonempty(v: Vec<String>) -> (r: Vec<String>)
    ensures
        views(r@) == nonempty(views(v@)),
{
    let mut out: Vec<String> = Vec::new();
    let mut k: usize = 0;
    let n = v.len();
    while k < n
        invariant
            n == v.len(),
            k <= n,
            views(out@) == nonempty(views(v@).take(k as int)),
        decreases n - k,
    {
        let ghost t = views(v@).take(k + 1);
        assert(t.drop_last() =~= views(v@).take(k as int));
        assert(t.last() == v@[k as int]@);
        if v[k].as_str().unicode_len() > 0 {
            out.push(v[k].clone());
            assert(views(out@) =~= nonempty(views(v@).take(k as int)).push(v@[k as int]@));
        }
        k = k + 1;
    }
    assert(views(v@).take(n as int) =~= views(v@));
    out
}

/// `str::split_whitespace`.
pub fn split_words(s: &str) -> (r: Vec<String>)
    ensures
        views(r@) == words(s@),
{
    let pieces = split_at_space(s);
    keep_nonempty(pieces)
}

/// The non-empty pieces of `s` between occurrences of `sep`.
pub fn split_fields(s: &str, sep: char) -> (r: Vec<String>)
    ensures
        views(r@) == fields(s@, sep),
{
    let pieces = split(s, sep);
    keep_nonempty(pieces)
}

} // verus!
