use vstd::prelude::*;
use crate::paths as cpaths;
use crate::text;
use crate::text::{chars_of, ends_with_char, push_all, push_char, split};

verus! {

broadcast use vstd::string::group_string_axioms;

/// A path as text, with a count of its components.
pub struct Path {
    pub path: String,
    size: usize,
}

/// The number of slashes and backslashes in a text.
pub open spec fn slash_count(s: Seq<char>) -> nat
    decreases s.len(),
{
    if s.len() == 0 {
        0
    } else if s.last() == '/' || s.last() == '\\' {
        slash_count(s.drop_last()) + 1
    } else {
        slash_count(s.drop_last())
    }
}

/// Each piece after a slash, all concatenated.
pub open spec fn slashed(pieces: Seq<Seq<char>>) -> Seq<char>
    decreases pieces.len(),
{
    if pieces.len() == 0 {
        Seq::empty()
    } else {
        slashed(pieces.drop_last()) + seq!['/'] + pieces.last()
    }
}

/// The text after appending `t`, with a slash in between unless the text ends with one.
pub open spec fn appended(p: Seq<char>, t: Seq<char>) -> Seq<char> {
    if p.len() > 0 && p.last() == '/' {
        p + t
    } else {
        p.push('/') + t
    }
}

/// The smaller of two numbers.
pub open spec fn min(a: int, b: int) -> int {
    if a < b {
        a
    } else {
        b
    }
}

impl View for Path {
    type V = Seq<char>;

    closed spec fn view(&self) -> Seq<char> {
        self.path@
    }
}

impl Path {
    /// The number of components the path counts.
    pub closed spec fn depth(&self) -> nat {
        self.size as nat
    }

    /// A path from text: backslashes become slashes, and every slash but a trailing one
    /// counts a component.
    pub fn from(src: &str) -> (r: Path)
        requires
            slash_count(src@) <= usize::MAX,
        ensures
            r@ == cpaths::forward_slashes(src@),
            r.depth() == if src@.len() > 0 && (src@.last() == '/' || src@.last() == '\\') {
                slash_count(src@) - 1
            } else {
                slash_count(src@) as int
            },
    {
        let v = chars_of(src);
        let mut cnt: usize = 0;
        let mut s = String::new();
        let mut k: usize = 0;
        while k < v.len()
            invariant
                v@ == src@,
                k <= v.len(),
                slash_count(src@) <= usize::MAX,
                s@ == cpaths::forward_slashes(src@.take(k as int)),
                cnt == slash_count(src@.take(k as int)),
            decreases v.len() - k,
        {
            assert(src@.take(k + 1).drop_last() =~= src@.take(k as int));
            proof {
                lemma_slash_count_prefix(src@, k + 1);
            }
            if v[k] == '/' || v[k] == '\\' {
                push_char(&mut s, '/');
                cnt = cnt + 1;
            } else {
                push_char(&mut s, v[k]);
            }
            assert(s@ =~= cpaths::forward_slashes(src@.take(k + 1)));
            k = k + 1;
        }
        assert(src@.take(v.len() as int) =~= src@);
        if ends_with_char(s.as_str(), '/') {
            assert(s@.last() == (if src@.last() == '\\' { '/' } else { src@.last() }));
            assert(cnt > 0);
            cnt = cnt - 1;
        } else if v.len() > 0 {
            assert(s@.last() == (if src@.last() == '\\' { '/' } else { src@.last() }));
        }
        Path { path: s, size: cnt }
    }

    /// Appends `t`, counting one more component, and returns the new path.
    pub fn push(&mut self, t: &str) -> (r: Path)
        requires
            old(self).depth() < usize::MAX,
        ensures
            final(self)@ == appended(old(self)@, t@),
            final(self).depth() == old(self).depth() + 1,
            r@ == final(self)@,
            r.depth() == final(self).depth(),
    {
        if ends_with_char(self.path.as_str(), '/') {
            push_all(&mut self.path, t);
        } else {
            push_char(&mut self.path, '/');
            push_all(&mut self.path, t);
        }
        self.size = self.size + 1;
        Path { path: self.path.clone(), size: self.size }
    }

    /// The parent: the first pieces between slashes, each after a slash, as many as the
    /// count of components less one (or all pieces if there are fewer).
    pub fn previous(&self) -> (r: Path)
        requires
            self.depth() > 0,
        ensures
            r@ == slashed(text::split_seq(self@, '/').take(
                min(self.depth() - 1, text::split_seq(self@, '/').len() as int),
            )),
            r.depth() == min(self.depth() - 1, text::split_seq(self@, '/').len() as int),
    {
        let pieces = split(self.path.as_str(), '/');
        let ghost ps = text::split_seq(self.path@, '/');
        let mut cnt: usize = 0;
        let mut s = String::new();
        let limit = self.size - 1;
        while cnt < pieces.len() && cnt < limit
            invariant
                limit == self.size - 1,
                text::views(pieces@) == ps,
                ps == text::split_seq(self.path@, '/'),
                self.size > 0,
                cnt <= pieces.len(),
                cnt <= self.size - 1,
                s@ == slashed(ps.take(cnt as int)),
            decreases pieces.len() - cnt,
        {
            assert(ps.take(cnt + 1).drop_last() =~= ps.take(cnt as int));
            assert(ps.take(cnt + 1).last() == pieces@[cnt as int]@);
            push_char(&mut s, '/');
            push_all(&mut s, pieces[cnt].as_str());
            assert(s@ =~= slashed(ps.take(cnt + 1)));
            cnt = cnt + 1;
        }
        Path { path: s, size: cnt }
    }

    /// Descends into the only entry of this directory, given its listing (`None` when it
    /// is not a directory), and returns the path.
    pub fn next(&mut self, listing: &Option<Vec<String>>) -> (r: Path)
        requires
            old(self).depth() < usize::MAX,
        ensures
            match listing {
                Some(c) => if c.len() == 1 {
                    final(self)@ == appended(old(self)@, c[0]@) && final(self).depth() == old(self).depth() + 1
                } else {
                    final(self)@ == old(self)@ && final(self).depth() == old(self).depth()
                },
                None => final(self)@ == old(self)@ && final(self).depth() == old(self).depth(),
            },
            r@ == final(self)@,
            r.depth() == final(self).depth(),
    {
        match listing {
            Some(contents) => {
                if contents.len() == 1 {
                    self.push(contents[0].as_str());
                }
            },
            None => {},
        }
        Path { path: self.path.clone(), size: self.size }
    }
}

proof fn lemma_slash_count_prefix(s: Seq<char>, n: int)
    requires
        0 <= n <= s.len(),
    ensures
        slash_count(s.take(n)) <= slash_count(s),
    decreases s.len() - n,
{
    if n < s.len() {
        lemma_slash_count_prefix(s, n + 1);
        assert(s.take(n + 1).drop_last() =~= s.take(n));
    } else {
        assert(s.take(n) =~= s);
    }
}

} // verus!
