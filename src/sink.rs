use vstd::prelude::*;
use crate::text::{
    indent_char, indented, lemma_indented_push, lemma_indented_zero,
    push_char, reserve_hint, spaces,
};

verus! {

/// An append-only text sink whose writes cannot fail.
///
/// Every sink has a target text and an indentation width: writing a string
/// appends it to the target with `indent_width` spaces after each line break.
pub trait StringLike {
    /// The text held by the sink's target.
    spec fn text(&self) -> Seq<char>;

    /// How many spaces follow each line break written through this sink.
    spec fn indent_width(&self) -> nat;

    fn push(&mut self, c: char)
        ensures
            final(self).text() == old(self).text() + indent_char(c, old(self).indent_width()),
            final(self).indent_width() == old(self).indent_width(),
    ;

    fn push_str(&mut self, s: &str)
        ensures
            final(self).text() == old(self).text() + indented(s@, old(self).indent_width()),
            final(self).indent_width() == old(self).indent_width(),
    ;

    /// A capacity hint: the text stays as it is.
    fn reserve(&mut self, additional: usize)
        ensures
            final(self).text() == old(self).text(),
            final(self).indent_width() == old(self).indent_width(),
    ;
}

impl StringLike for String {
    open spec fn text(&self) -> Seq<char> {
        self@
    }

    open spec fn indent_width(&self) -> nat {
        0
    }

    fn push(&mut self, c: char) {
        push_char(self, c);
        assert(indent_char(c, 0) =~= seq![c]);
    }

    fn push_str(&mut self, s: &str) {
        self.append(s);
        proof {
            lemma_indented_zero(s@);
        }
    }

    fn reserve(&mut self, additional: usize) {
        reserve_hint(self, additional);
    }
}

/// Writes through to another sink and adds `indent` spaces after each line
/// break, so that multi-line text lines up under a header.
pub struct Indented<T> {
    pub output: T,
    /// How many spaces to indent by.
    pub indent: usize,
}

impl<T> Indented<T> {
    pub fn new(output: T, indent: usize) -> (r: Self)
        ensures
            r.output == output,
            r.indent == indent,
    {
        Indented { output, indent }
    }
}

impl<T: StringLike> StringLike for Indented<T> {
    open spec fn text(&self) -> Seq<char> {
        self.output.text()
    }

    open spec fn indent_width(&self) -> nat {
        self.output.indent_width() + self.indent as nat
    }

    fn push(&mut self, c: char) {
        if c == '\n' {
            self.output.reserve(self.indent.saturating_add(1));
            self.output.push('\n');
            let ghost start = self.output.text();
            let ghost w = self.output.indent_width();
            let n = self.indent;
            for i in 0..n
                invariant
                    self.indent == n,
                    self.output.indent_width() == w,
                    self.output.text() == start + spaces(i as nat),
            {
                self.output.push(' ');
                assert(indent_char(' ', w) =~= seq![' ']);
                assert(spaces(i as nat) + seq![' '] =~= spaces((i + 1) as nat));
            }
            assert(seq!['\n'] + spaces(w) + spaces(self.indent as nat) =~= indent_char(
                '\n',
                w + self.indent as nat,
            ));
        } else {
            self.output.push(c);
        }
    }

    fn push_str(&mut self, s: &str) {
        let ghost start = self.text();
        let ghost w = self.indent_width();
        for c in it: s.chars()
            invariant
                self.indent_width() == w,
                it.seq() == s@,
                self.text() == start + indented(s@.take(it.index() as int), w),
        {
            let ghost done = s@.take(it.index() as int);
            self.push(c);
            proof {
                lemma_indented_push(done, c, w);
                assert(s@.take(it.index() as int + 1) =~= done.push(c));
            }
        }
        assert(s@.take(s@.len() as int) =~= s@);
    }

    fn reserve(&mut self, additional: usize) {
        self.output.reserve(additional);
    }
}

} // verus!
