use vstd::prelude::*;
use crate::text;
use crate::text::{lemma_fields_members, lemma_nonempty_push, lemma_split_append, lemma_split_push_sep, chars_of, ends_with_char, push_all, push_char, split_fields, string_of, string_of_range};

verus! {

broadcast use vstd::string::group_string_axioms;

/// A slash-separated file system path, kept as text.
pub struct Path {
    path: String,
}

/// `src` with every backslash turned into a forward slash.
pub open spec fn forward_slashes(src: Seq<char>) -> Seq<char> {
    src.map_values(|c: char| if c == '\\' { '/' } else { c })
}

/// `t` without one leading slash.
pub open spec fn strip_first_slash(t: Seq<char>) -> Seq<char> {
    if t.len() > 0 && t[0] == '/' {
        t.drop_first()
    } else {
        t
    }
}

/// The text of `p` after appending the component `t`.
pub open spec fn pushed(p: Seq<char>, t: Seq<char>) -> Seq<char> {
    if p.len() > 0 && p.last() == '/' {
        p + strip_first_slash(t)
    } else {
        p.push('/') + strip_first_slash(t)
    }
}

/// The non-empty components of a path text.
pub open spec fn path_items(p: Seq<char>) -> Seq<Seq<char>> {
    text::fields(p, '/')
}

/// Each member of `v` followed by a slash, all concatenated.
pub open spec fn joined(v: Seq<Seq<char>>) -> Seq<char>
    decreases v.len(),
{
    if v.len() == 0 {
        Seq::<char>::empty()
    } else {
        joined(v.drop_last()) + v.last() + seq!['/']
    }
}

/// The text of the parent of `p`: a slash, then every component but the last, each followed by a slash.
pub open spec fn parent_of(p: Seq<char>) -> Seq<char> {
    seq!['/'] + joined(path_items(p).take(path_items(p).len() - 1))
}

/// A path component: not empty and without slashes.
pub open spec fn is_component(t: Seq<char>) -> bool {
    t.len() > 0 && !t.contains('/')
}


/// Appending a component adds exactly that component to the path's components.
pub proof fn law_push_adds_item(p: Seq<char>, t: Seq<char>)
    requires
        is_component(strip_first_slash(t)),
    ensures
        path_items(pushed(p, t)) == path_items(p).push(strip_first_slash(t)),
{
    let u = strip_first_slash(t);
    if p.len() > 0 && p.last() == '/' {
        let p0 = p.drop_last();
        assert(p0.push('/') =~= p);
        lemma_split_push_sep(p0, '/');
        lemma_split_append(p, u, '/');
        let q = text::split_seq(p0, '/');
        assert(text::split_seq(p, '/') == q.push(Seq::<char>::empty()));
        assert(Seq::<char>::empty() + u =~= u);
        assert(text::split_seq(p + u, '/') =~= q.push(u));
        lemma_nonempty_push(q, u);
        lemma_nonempty_push(q, Seq::<char>::empty());
    } else {
        lemma_split_push_sep(p, '/');
        lemma_split_append(p.push('/'), u, '/');
        let q = text::split_seq(p, '/');
        assert(Seq::<char>::empty() + u =~= u);
        assert(text::split_seq(p.push('/') + u, '/') =~= q.push(u));
        lemma_nonempty_push(q, u);
    }
}

/// The components of a slash followed by joined components are those components.
proof fn lemma_items_of_joined(w: Seq<Seq<char>>)
    requires
        forall|i: int| 0 <= i < w.len() ==> is_component(#[trigger] w[i]),
    ensures
        path_items(seq!['/'] + joined(w)) == w,
        (seq!['/'] + joined(w)).last() == '/',
    decreases w.len(),
{
    if w.len() == 0 {
        assert(seq!['/'] + joined(w) =~= Seq::<char>::empty().push('/'));
        lemma_split_push_sep(Seq::<char>::empty(), '/');
        lemma_nonempty_push(seq![Seq::<char>::empty()], Seq::<char>::empty());
        assert(text::nonempty(seq![Seq::<char>::empty()]) =~= Seq::<Seq<char>>::empty()) by {
            lemma_nonempty_push(Seq::<Seq<char>>::empty(), Seq::<char>::empty());
            assert(Seq::<Seq<char>>::empty().push(Seq::<char>::empty()) =~= seq![Seq::<char>::empty()]);
        }
    } else {
        let w0 = w.drop_last();
        let x = w.last();
        assert(is_component(w[w.len() - 1]));
        assert forall|i: int| 0 <= i < w0.len() implies is_component(#[trigger] w0[i]) by {
            assert(w0[i] == w[i]);
        }
        lemma_items_of_joined(w0);
        let a = seq!['/'] + joined(w0);
        let a0 = a.drop_last();
        assert(a0.push('/') =~= a);
        lemma_split_push_sep(a0, '/');
        let q = text::split_seq(a0, '/');
        lemma_split_append(a, x, '/');
        assert(Seq::<char>::empty() + x =~= x);
        assert(text::split_seq(a + x, '/') =~= q.push(x));
        assert(seq!['/'] + joined(w) =~= (a + x).push('/'));
        lemma_split_push_sep(a + x, '/');
        lemma_nonempty_push(q.push(x), Seq::<char>::empty());
        lemma_nonempty_push(q, x);
        lemma_nonempty_push(q, Seq::<char>::empty());
        assert(w0.push(x) =~= w);
    }
}

/// The parent of a path has all its components but the last.
pub proof fn law_previous_drops_last_item(p: Seq<char>)
    requires
        path_items(p).len() > 0,
    ensures
        path_items(parent_of(p)) == path_items(p).drop_last(),
{
    let all = path_items(p);
    let w = all.take(all.len() - 1);
    lemma_fields_members(p, '/');
    assert forall|i: int| 0 <= i < w.len() implies is_component(#[trigger] w[i]) by {
        assert(w[i] == all[i]);
    }
    lemma_items_of_joined(w);
    assert(w =~= all.drop_last());
}

/// A path read from text never holds a backslash.
pub proof fn law_from_has_no_backslash(src: Seq<char>)
    ensures
        !forward_slashes(src).contains('\\'),
{
    if forward_slashes(src).contains('\\') {
        let i = choose|i: int| 0 <= i < forward_slashes(src).len() && forward_slashes(src)[i] == '\\';
        assert(forward_slashes(src)[i] == (if src[i] == '\\' { '/' } else { src[i] }));
    }
}

impl View for Path {
    type V = Seq<char>;

    closed spec fn view(&self) -> Seq<char> {
        self.path@
    }
}

impl Clone for Path {
    fn clone(&self) -> (r: Self)
        ensures
            r@ == self@,
    {
        Path { path: self.path.clone() }
    }
}

/// `src` without its first character when that is a slash.
fn r_first(src: &str) -> (r: String)
    ensures
        r@ == strip_first_slash(src@),
{
    let v = chars_of(src);
    if v.len() > 0 && v[0] == '/' {
        string_of_range(&v, 1, v.len())
    } else {
        string_of(&v)
    }
}

impl Path {
    /// The empty path.
    pub fn new() -> (r: Path)
        ensures
            r@ == Seq::<char>::empty(),
    {
        Path { path: String::new() }
    }

    /// A path from text, with backslashes read as slashes.
    pub fn from(src: &str) -> (r: Path)
        ensures
            r@ == forward_slashes(src@),
    {
        let v = chars_of(src);
        let mut s = String::new();
        let mut k: usize = 0;
        while k < v.len()
            invariant
                v@ == src@,
                k <= v.len(),
                s@ == forward_slashes(src@.take(k as int)),
            decreases v.len() - k,
        {
            if v[k] == '\\' {
                push_char(&mut s, '/');
            } else {
                push_char(&mut s, v[k]);
            }
            k = k + 1;
            assert(s@ =~= forward_slashes(src@.take(k as int)));
        }
        assert(src@.take(v.len() as int) =~= src@);
        Path { path: s }
    }

    /// Appends the component `t` (one leading slash of `t` is dropped) and returns the new path.
    pub fn push(&mut self, t: &str) -> (r: Path)
        ensures
            final(self)@ == pushed(old(self)@, t@),
            r@ == final(self)@,
    {
        let tail = r_first(t);
        if ends_with_char(self.path.as_str(), '/') {
            push_all(&mut self.path, tail.as_str());
        } else {
            push_char(&mut self.path, '/');
            push_all(&mut self.path, tail.as_str());
        }
        self.clone()
    }

    /// Appends the text of another path.
    pub fn push_p(&mut self, t: Path) -> (r: Path)
        ensures
            final(self)@ == pushed(old(self)@, t@),
            r@ == final(self)@,
    {
        self.push(t.path.as_str())
    }

    /// The parent directory: a slash, then every component but the last, each followed by a slash.
    pub fn previous(&self) -> (r: Path)
        requires
            path_items(self@).len() > 0,
        ensures
            r@ == parent_of(self@),
    {
        let items = self.items();
        let ghost all = path_items(self@);
        let mut s = String::new();
        push_char(&mut s, '/');
        let n = items.len() - 1;
        let mut k: usize = 0;
        while k < n
            invariant
                n == items.len() - 1,
                text::views(items@) == all,
                k <= n,
                s@ == seq!['/'] + joined(all.take(k as int)),
            decreases n - k,
        {
            let ghost before = s@;
            push_all(&mut s, items[k].as_str());
            push_char(&mut s, '/');
            assert(all.take(k + 1).drop_last() =~= all.take(k as int));
            assert(all.take(k + 1).last() == items@[k as int]@);
            assert(s@ =~= seq!['/'] + joined(all.take(k + 1)));
            k = k + 1;
        }
        Path { path: s }
    }

    /// Descends into the first entry of this directory, given its listing (`None` when it
    /// cannot be read), and returns the new path.
    pub fn next(&mut self, entries: &Option<Vec<String>>) -> (r: Path)
        requires
            entries matches Some(x) ==> x.len() > 0,
        ensures
            final(self)@ == (match entries {
                Some(x) => pushed(old(self)@, x[0]@),
                None => old(self)@,
            }),
            r@ == final(self)@,
    {
        match entries {
            Some(x) => {
                self.push(x[0].as_str());
            },
            None => {},
        }
        self.clone()
    }

    /// The non-empty components of the path.
    pub fn items(&self) -> (r: Vec<String>)
        ensures
            text::views(r@) == path_items(self@),
    {
        split_fields(self.path.as_str(), '/')
    }

    /// The number of non-empty components.
    pub fn len(&self) -> (r: usize)
        ensures
            r == path_items(self@).len(),
    {
        let items = self.items();
        items.len()
    }

    /// The last component.
    pub fn lastitem(&self) -> (r: String)
        requires
            path_items(self@).len() > 0,
        ensures
            r@ == path_items(self@).last(),
    {
        let items = self.items();
        let n = self.len();
        items[n - 1].clone()
    }

    /// The text of the path.
    pub fn as_str(&self) -> (r: String)
        ensures
            r@ == self@,
    {
        self.path.clone()
    }
}

} // verus!
